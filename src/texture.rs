//! A color buffer paired with a depth buffer.
use vstd::prelude::*;

use crate::fixed::{floor_div, Coord, Dimension, PixCoord};
use crate::pixel::{background, black, char_of_value, Pixel};

verus! {

/// The depth of a cell on which nothing has been drawn: every other depth is
/// nearer.
pub const DEPTH_FAR: i64 = 0x7fff_ffff_ffff_ffff;

/// The nearest depth: nothing is ever drawn over a cell of this depth.
pub const DEPTH_NEAR: i64 = -0x8000_0000_0000_0000;

/// The colors and the depths of a texture, row-major.
pub type Canvas = (Seq<Pixel>, Seq<Coord>);

/// `c` after a depth-tested write of `color` at depth `z` into cell `i`: the
/// write takes place only where `z` is strictly nearer than the cell's depth.
pub open spec fn plot(c: Canvas, i: int, z: int, color: Pixel) -> Canvas {
    if z < c.1[i] {
        (c.0.update(i, color), c.1.update(i, z as Coord))
    } else {
        c
    }
}

/// `c` after a write of `color` at `(x, y)` of a `w` x `h` texture that skips
/// the depth test and keeps the depth; nothing where `(x, y)` lies outside.
pub open spec fn put(c: Canvas, w: int, h: int, x: int, y: int, color: Pixel) -> Canvas {
    if 0 <= x < w && 0 <= y < h {
        (c.0.update(y * w + x, color), c.1)
    } else {
        c
    }
}

/// The depth at column `x` of a span from `(x1, z1)` to `(x2, z2)`, by linear
/// interpolation rounded down.
pub open spec fn row_depth(x: int, x1: int, x2: int, z1: int, z2: int) -> int {
    z1 + ((z2 - z1) * (x - x1)) / (x2 - x1)
}

/// `c` after the depth-tested writes of columns `from .. to` of the span
/// `(x1, z1)`-`(x2, z2)` in row `y` of a texture `w` wide.
pub open spec fn plot_span(
    c: Canvas,
    w: int,
    y: int,
    x1: int,
    x2: int,
    z1: int,
    z2: int,
    color: Pixel,
    from: int,
    to: int,
) -> Canvas
    decreases to - from,
{
    if from >= to {
        c
    } else {
        plot_span(
            plot(c, y * w + from, row_depth(from, x1, x2, z1, z2), color),
            w,
            y,
            x1,
            x2,
            z1,
            z2,
            color,
            from + 1,
            to,
        )
    }
}

/// `c` after a span fill of row `y` from `x1` to `x2`, clipped to a `w` x `h`
/// texture; nothing where the row lies outside or `x2 <= x1`.
pub open spec fn fill_row(
    c: Canvas,
    w: int,
    h: int,
    x1: int,
    x2: int,
    y: int,
    z1: int,
    z2: int,
    color: Pixel,
) -> Canvas {
    if y < 0 || y >= h || x2 <= x1 || x2 < 0 || x1 >= w {
        c
    } else {
        let start = if x1 < 0 { 0 } else { x1 };
        let end = if x2 > w - 1 { w - 1 } else { x2 };
        plot_span(c, w, y, x1, x2, z1, z2, color, start, end + 1)
    }
}

/// `c2` has the shape of `c1` and no cell of it is deeper.
pub open spec fn no_deeper(c2: Canvas, c1: Canvas) -> bool {
    &&& c2.0.len() == c1.0.len()
    &&& c2.1.len() == c1.1.len()
    &&& forall|k: int| 0 <= k < c1.1.len() ==> #[trigger] c2.1[k] <= c1.1[k]
}

/// A depth-tested write never makes a cell deeper.
pub proof fn lemma_plot_no_deeper(c: Canvas, i: int, z: int, color: Pixel)
    requires
        0 <= i < c.1.len(),
        c.0.len() == c.1.len(),
        i64::MIN <= z <= i64::MAX,
    ensures
        no_deeper(plot(c, i, z, color), c),
{
}

/// The writes of a span never make a cell deeper.
proof fn lemma_plot_span_no_deeper(
    c: Canvas,
    w: int,
    h: int,
    y: int,
    x1: int,
    x2: int,
    z1: int,
    z2: int,
    color: Pixel,
    from: int,
    to: int,
)
    requires
        c.0.len() == w * h,
        c.1.len() == w * h,
        0 <= y < h,
        0 <= from,
        to <= w,
        x1 <= from,
        to <= x2 + 1,
        x1 < x2,
        i64::MIN <= z1 <= i64::MAX,
        i64::MIN <= z2 <= i64::MAX,
    ensures
        no_deeper(plot_span(c, w, y, x1, x2, z1, z2, color, from, to), c),
    decreases to - from,
{
    if from < to {
        lemma_index(from, y, w, h);
        lemma_row_depth_between(from, x1, x2, z1, z2);
        let c1 = plot(c, y * w + from, row_depth(from, x1, x2, z1, z2), color);
        lemma_plot_no_deeper(c, y * w + from, row_depth(from, x1, x2, z1, z2), color);
        lemma_plot_span_no_deeper(c1, w, h, y, x1, x2, z1, z2, color, from + 1, to);
    }
}

/// A span fill never makes a cell deeper.
pub proof fn lemma_fill_row_no_deeper(
    c: Canvas,
    w: int,
    h: int,
    x1: int,
    x2: int,
    y: int,
    z1: int,
    z2: int,
    color: Pixel,
)
    requires
        w >= 0,
        h >= 0,
        c.0.len() == w * h,
        c.1.len() == w * h,
        i64::MIN <= z1 <= i64::MAX,
        i64::MIN <= z2 <= i64::MAX,
    ensures
        no_deeper(fill_row(c, w, h, x1, x2, y, z1, z2, color), c),
{
    if !(y < 0 || y >= h || x2 <= x1 || x2 < 0 || x1 >= w) {
        let start = if x1 < 0 { 0 } else { x1 };
        let end = if x2 > w - 1 { w - 1 } else { x2 };
        lemma_plot_span_no_deeper(c, w, h, y, x1, x2, z1, z2, color, start, end + 1);
    }
}

/// The frame line of the text of a texture `w` wide.
pub open spec fn text_bar(w: int) -> Seq<char> {
    Seq::new((2 * w + 3) as nat, |i: int| '-').push('\n')
}

/// The characters of the first `n` cells of row `y`, each followed by a space.
pub open spec fn text_cells(pixels: Seq<Pixel>, w: int, y: int, n: int) -> Seq<char>
    decreases n,
{
    if n <= 0 {
        Seq::empty()
    } else {
        text_cells(pixels, w, y, n - 1).push(char_of_value(pixels[y * w + n - 1].value())).push(' ')
    }
}

/// The text line of row `y`.
pub open spec fn text_row(pixels: Seq<Pixel>, w: int, y: int) -> Seq<char> {
    seq!['|', ' '] + text_cells(pixels, w, y, w) + seq!['|', '\n']
}

/// The text lines of the first `n` rows.
pub open spec fn text_rows(pixels: Seq<Pixel>, w: int, n: int) -> Seq<char>
    decreases n,
{
    if n <= 0 {
        Seq::empty()
    } else {
        text_rows(pixels, w, n - 1) + text_row(pixels, w, n - 1)
    }
}

/// The text of a texture: a frame line, a line per row, a frame line.
pub open spec fn text_of(pixels: Seq<Pixel>, w: int, h: int) -> Seq<char> {
    text_bar(w) + text_rows(pixels, w, h) + text_bar(w)
}

/// `x` limited to `[min, max]`.
pub fn clamp(x: i64, min: i64, max: i64) -> (r: i64)
    ensures
        r == (if x < min {
            min
        } else if x > max {
            max
        } else {
            x
        }),
{
    if x < min {
        min
    } else if x > max {
        max
    } else {
        x
    }
}

/// The cell index of an in-bounds position lies inside the buffers.
pub proof fn lemma_index(x: int, y: int, w: int, h: int)
    requires
        0 <= x < w,
        0 <= y < h,
    ensures
        0 <= y * w + x < w * h,
{
    assert(0 <= y * w + x < w * h) by (nonlinear_arith)
        requires
            0 <= x < w,
            0 <= y < h,
    {
        assert(y * w <= (h - 1) * w);
    }
}

/// An interpolated depth lies between the depths at the ends of the span.
proof fn lemma_row_depth_between(x: int, x1: int, x2: int, z1: int, z2: int)
    requires
        x1 <= x <= x2,
        x1 < x2,
    ensures
        z1 <= z2 ==> z1 <= row_depth(x, x1, x2, z1, z2) <= z2,
        z2 < z1 ==> z2 <= row_depth(x, x1, x2, z1, z2) <= z1,
{
    let d = z2 - z1;
    let k = x - x1;
    let n = x2 - x1;
    assert(d >= 0 ==> 0 <= (d * k) / n <= d) by (nonlinear_arith)
        requires
            0 <= k <= n,
            n > 0,
    {
        if d >= 0 {
            assert(d * k <= d * n);
            assert((d * n) / n == d);
            assert((d * k) / n <= (d * n) / n) by {
                vstd::arithmetic::div_mod::lemma_div_is_ordered(d * k, d * n, n);
            }
        }
    }
    assert(d < 0 ==> d <= (d * k) / n <= 0) by (nonlinear_arith)
        requires
            0 <= k <= n,
            n > 0,
    {
        if d < 0 {
            assert(d * n <= d * k);
            assert((d * n) / n == d);
            assert((d * n) / n <= (d * k) / n) by {
                vstd::arithmetic::div_mod::lemma_div_is_ordered(d * n, d * k, n);
            }
        }
    }
}

/// A `w` x `h` grid of colors, each with a depth.
pub struct Texture {
    pub w: Dimension,
    pub h: Dimension,
    pub pixels: Vec<Pixel>,
    pub z_buffer: Vec<Coord>,
}

impl Texture {
    /// The depths, row-major.
    pub open spec fn depths(&self) -> Seq<Coord> {
        self.z_buffer@
    }

    pub open spec fn canvas(&self) -> Canvas {
        (self.pixels@, self.depths())
    }

    /// Both buffers hold one cell per position.
    pub open spec fn wf(&self) -> bool {
        &&& self.w * self.h <= usize::MAX
        &&& self.pixels@.len() == self.w * self.h
        &&& self.depths().len() == self.w * self.h
    }

    /// A black texture whose depths are all `DEPTH_FAR`.
    pub fn new(w: Dimension, h: Dimension) -> (t: Texture)
        requires
            w * h <= usize::MAX,
        ensures
            t.wf(),
            t.w == w,
            t.h == h,
            forall|i: int| 0 <= i < w * h ==> t.pixels@[i] == background(),
            forall|i: int| 0 <= i < w * h ==> t.depths()[i] == DEPTH_FAR,
    {
        let n = w as usize * h as usize;
        let mut pixels: Vec<Pixel> = Vec::new();
        let mut z_buffer: Vec<Coord> = Vec::new();
        let mut i: usize = 0;
        while i < n
            invariant
                i <= n,
                pixels@.len() == i,
                z_buffer@.len() == i,
                forall|k: int| 0 <= k < i ==> pixels@[k] == background(),
                forall|k: int| 0 <= k < i ==> z_buffer@[k] == DEPTH_FAR,
            decreases n - i,
        {
            pixels.push(black());
            z_buffer.push(DEPTH_FAR);
            i += 1;
        }
        Texture { w, h, pixels, z_buffer }
    }

    /// The depth at `(x, y)`.
    pub fn depth_at(&self, x: Dimension, y: Dimension) -> (z: Coord)
        requires
            self.wf(),
            x < self.w,
            y < self.h,
        ensures
            z == self.depths()[y * self.w + x],
    {
        proof {
            lemma_index(x as int, y as int, self.w as int, self.h as int);
        }
        self.z_buffer[y as usize * self.w as usize + x as usize]
    }

    /// The color at `(x, y)`.
    pub fn pixel_at(&self, x: Dimension, y: Dimension) -> (p: Pixel)
        requires
            self.wf(),
            x < self.w,
            y < self.h,
        ensures
            p == self.pixels@[y * self.w + x],
    {
        proof {
            lemma_index(x as int, y as int, self.w as int, self.h as int);
        }
        self.pixels[y as usize * self.w as usize + x as usize]
    }

    /// A depth-tested write at an in-bounds `(x, y)`.
    pub fn set_pixel_nocheck(&mut self, x: PixCoord, y: PixCoord, z: Coord, color: Pixel)
        requires
            old(self).wf(),
            0 <= x < old(self).w,
            0 <= y < old(self).h,
        ensures
            final(self).wf(),
            final(self).w == old(self).w,
            final(self).h == old(self).h,
            final(self).canvas() == plot(old(self).canvas(), y * old(self).w + x, z as int, color),
    {
        proof {
            lemma_index(x as int, y as int, self.w as int, self.h as int);
        }
        let index = y as usize * self.w as usize + x as usize;
        if z >= self.z_buffer[index] {
            return ;
        }
        self.z_buffer.set(index, z);
        self.pixels.set(index, color);
    }

    /// A depth-tested write at `(x, y)`; nothing where it lies outside.
    pub fn set_pixel(&mut self, x: PixCoord, y: PixCoord, z: Coord, color: Pixel)
        requires
            old(self).wf(),
        ensures
            final(self).wf(),
            final(self).w == old(self).w,
            final(self).h == old(self).h,
            final(self).canvas() == (if 0 <= x < old(self).w && 0 <= y < old(self).h {
                plot(old(self).canvas(), y * old(self).w + x, z as int, color)
            } else {
                old(self).canvas()
            }),
    {
        if x < 0 || y < 0 {
            return ;
        }
        if x as Dimension >= self.w || y as Dimension >= self.h {
            return ;
        }
        self.set_pixel_nocheck(x, y, z, color)
    }

    /// A write of `color` at `(x, y)` that skips the depth test and leaves the
    /// depth as it is; nothing where `(x, y)` lies outside.
    pub fn put_pixel(&mut self, x: i64, y: i64, color: Pixel)
        requires
            old(self).wf(),
        ensures
            final(self).wf(),
            final(self).w == old(self).w,
            final(self).h == old(self).h,
            final(self).canvas() == put(old(self).canvas(), old(self).w as int, old(self).h as int, x as int, y as int, color),
    {
        if x < 0 || y < 0 || x >= self.w as i64 || y >= self.h as i64 {
            return ;
        }
        proof {
            lemma_index(x as int, y as int, self.w as int, self.h as int);
        }
        let index = y as usize * self.w as usize + x as usize;
        self.pixels.set(index, color);
    }

    /// Fills row `y` from column `x1` to column `x2`, both included, with
    /// depth-tested writes; the depth goes linearly from `z1` at `x1` to `z2`
    /// at `x2`. The span is clipped to the texture; nothing is written where
    /// the row lies outside or `x2 <= x1`.
    pub fn set_row(
        &mut self,
        x1: PixCoord,
        x2: PixCoord,
        y: PixCoord,
        z1: Coord,
        z2: Coord,
        color: Pixel,
    )
        requires
            old(self).wf(),
        ensures
            final(self).wf(),
            final(self).w == old(self).w,
            final(self).h == old(self).h,
            final(self).canvas() == fill_row(
                old(self).canvas(),
                old(self).w as int,
                old(self).h as int,
                x1 as int,
                x2 as int,
                y as int,
                z1 as int,
                z2 as int,
                color,
            ),
    {
        if y < 0 || y as Dimension >= self.h {
            return ;
        }
        if x2 <= x1 || x2 < 0 || x1 as i64 >= self.w as i64 {
            return ;
        }
        let start = clamp(x1 as i64, 0, self.w as i64 - 1);
        let end = clamp(x2 as i64, 0, self.w as i64 - 1);
        let ghost target = fill_row(
            self.canvas(),
            self.w as int,
            self.h as int,
            x1 as int,
            x2 as int,
            y as int,
            z1 as int,
            z2 as int,
            color,
        );
        let ghost w = self.w;
        let ghost h = self.h;
        let mut x: i64 = start;
        while x <= end
            invariant
                self.wf(),
                self.w == w,
                self.h == h,
                0 <= y < h,
                x1 as int <= start <= x <= end + 1,
                0 <= start,
                end <= x2,
                end < w,
                x1 < x2,
                plot_span(self.canvas(), w as int, y as int, x1 as int, x2 as int, z1 as int, z2 as int, color, x as int, end + 1)
                    == target,
            decreases end + 1 - x,
        {
            proof {
                lemma_row_depth_between(x as int, x1 as int, x2 as int, z1 as int, z2 as int);
            }
            let dz = z2 as i128 - z1 as i128;
            let dx = (x - x1 as i64) as i128;
            assert(-0x1_0000_0000_0000_0000_0000 <= dz * dx <= 0x1_0000_0000_0000_0000_0000)
                by (nonlinear_arith)
                requires
                    -0x1_0000_0000_0000_0000 <= dz <= 0x1_0000_0000_0000_0000,
                    0 <= dx <= 0x1_0000,
            {
                if dz >= 0 {
                    assert(dz * dx <= 0x1_0000_0000_0000_0000 * dx);
                } else {
                    assert(dz * dx >= -0x1_0000_0000_0000_0000 * dx);
                }
            }
            let z = (z1 as i128 + floor_div(dz * dx, (x2 as i128 - x1 as i128))) as i64;
            self.set_pixel_nocheck(x as i16, y, z, color);
            x += 1;
        }
    }

    /// Sets every color to `color`; the depths stay.
    pub fn set_all_pixels(&mut self, color: Pixel)
        requires
            old(self).wf(),
        ensures
            final(self).wf(),
            final(self).w == old(self).w,
            final(self).h == old(self).h,
            final(self).depths() == old(self).depths(),
            final(self).pixels@ == Seq::new(old(self).pixels@.len(), |i: int| color),
    {
        let n = self.pixels.len();
        let ghost w = self.w;
        let ghost h = self.h;
        let ghost depths = self.depths();
        let mut i: usize = 0;
        while i < n
            invariant
                self.wf(),
                self.w == w,
                self.h == h,
                self.depths() == depths,
                self.pixels@.len() == n,
                i <= n,
                forall|k: int| 0 <= k < i ==> self.pixels@[k] == color,
            decreases n - i,
        {
            self.pixels.set(i, color);
            i += 1;
        }
        assert(self.pixels@ =~= Seq::new(n as nat, |i: int| color));
    }

    /// Resets every color to black and every depth to `DEPTH_FAR`, together.
    pub fn clear(&mut self)
        requires
            old(self).wf(),
        ensures
            final(self).wf(),
            final(self).w == old(self).w,
            final(self).h == old(self).h,
            forall|i: int| 0 <= i < final(self).w * final(self).h ==> final(self).pixels@[i] == background(),
            forall|i: int| 0 <= i < final(self).w * final(self).h ==> final(self).depths()[i] == DEPTH_FAR,
    {
        let n = self.pixels.len();
        let ghost w = self.w;
        let ghost h = self.h;
        let mut i: usize = 0;
        while i < n
            invariant
                self.wf(),
                self.w == w,
                self.h == h,
                self.pixels@.len() == n,
                i <= n,
                forall|k: int| 0 <= k < i ==> self.pixels@[k] == background(),
                forall|k: int| 0 <= k < i ==> self.depths()[k] == DEPTH_FAR,
            decreases n - i,
        {
            self.pixels.set(i, black());
            self.z_buffer.set(i, DEPTH_FAR);
            i += 1;
        }
    }

    fn push_bar(out: &mut Vec<char>, w: Dimension)
        ensures
            final(out)@ == old(out)@ + text_bar(w as int),
    {
        let ghost start = out@;
        let n: u64 = 2 * w as u64 + 3;
        let mut i: u64 = 0;
        while i < n
            invariant
                i <= n,
                n == 2 * w + 3,
                out@ == start + Seq::new(i as nat, |k: int| '-'),
            decreases n - i,
        {
            out.push('-');
            i += 1;
            assert(out@ =~= start + Seq::new(i as nat, |k: int| '-'));
        }
        out.push('\n');
        assert(out@ =~= start + text_bar(w as int));
    }

    /// The texture as text: a frame line, then for each row a line of one
    /// character per pixel by brightness, then a frame line.
    pub fn to_text(&self) -> (r: Vec<char>)
        requires
            self.wf(),
        ensures
            r@ == text_of(self.pixels@, self.w as int, self.h as int),
    {
        let mut out: Vec<char> = Vec::new();
        Self::push_bar(&mut out, self.w);
        let ghost top = out@;
        let ghost px = self.pixels@;
        let ghost wi = self.w as int;
        let mut y: u32 = 0;
        while y < self.h
            invariant
                self.wf(),
                px == self.pixels@,
                wi == self.w,
                y <= self.h,
                top == text_bar(wi),
                out@ == top + text_rows(px, wi, y as int),
            decreases self.h - y,
        {
            let ghost row_start = out@;
            out.push('|');
            out.push(' ');
            let mut x: u32 = 0;
            while x < self.w
                invariant
                    self.wf(),
                    px == self.pixels@,
                    wi == self.w,
                    y < self.h,
                    x <= self.w,
                    out@ == row_start + seq!['|', ' '] + text_cells(px, wi, y as int, x as int),
                decreases self.w - x,
            {
                proof {
                    lemma_index(x as int, y as int, self.w as int, self.h as int);
                }
                let c = self.pixels[y as usize * self.w as usize + x as usize].as_char();
                out.push(c);
                out.push(' ');
                x += 1;
                assert(out@ =~= row_start + seq!['|', ' '] + text_cells(px, wi, y as int, x as int));
            }
            out.push('|');
            out.push('\n');
            y += 1;
            assert(out@ =~= top + text_rows(px, wi, y as int));
        }
        Self::push_bar(&mut out, self.w);
        assert(out@ =~= text_of(px, wi, self.h as int));
        out
    }
}

} // verus!
