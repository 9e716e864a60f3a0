//! The dimensions of a text screen.
use vstd::prelude::*;

use crate::fixed::Dimension;

verus! {

/// A screen that shows a texture as characters.
pub struct TextScreen {
    pub w: Dimension,
    pub h: Dimension,
}

impl TextScreen {
    pub fn new(name: &str, w: Dimension, h: Dimension) -> (s: TextScreen)
        ensures
            s.w == w,
            s.h == h,
    {
        TextScreen { w, h }
    }

    pub fn width(&self) -> (r: Dimension)
        ensures
            r == self.w,
    {
        self.w
    }

    pub fn height(&self) -> (r: Dimension)
        ensures
            r == self.h,
    {
        self.h
    }
}

} // verus!
