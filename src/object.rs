//! Renderable objects: triangles in model space with a world transform.
use vstd::prelude::*;

use crate::fixed::{in_range, Coord};
use crate::geometry::{
    apply_matrix_tri, identity_matrix, mat_mul, rotate_x_matrix, rotate_y_matrix, rotate_z_matrix,
    scale_matrix, translate_matrix, Point, Transform, Triangle,
};
use crate::renderer::{fill_result, LightingMode, Renderer};
use crate::pixel::Pixel;
use crate::texture::Canvas;

verus! {

/// `c` after filling each of `tris`, mapped through `world`, in order; a
/// triangle with a vertex that has no image under `world` is skipped.
pub open spec fn render_canvas(
    c: Canvas,
    w: int,
    h: int,
    m: Seq<Coord>,
    color: Pixel,
    light: Point,
    mode: LightingMode,
    world: Seq<Coord>,
    tris: Seq<Triangle>,
) -> Canvas
    decreases tris.len(),
{
    if tris.len() == 0 {
        c
    } else {
        let before = render_canvas(c, w, h, m, color, light, mode, world, tris.drop_last());
        match apply_matrix_tri(tris.last(), world) {
            Some(wt) => fill_result(before, w, h, m, color, light, mode, wt),
            None => before,
        }
    }
}

/// The world transform: scaling first, then rotation, then translation.
pub open spec fn world_matrix(translation: Seq<Coord>, rotation: Seq<Coord>, scaling: Seq<Coord>) -> Seq<Coord> {
    mat_mul(mat_mul(translation, rotation), scaling)
}

/// Triangles in model space with three transforms that accumulate apart.
pub struct Object {
    pub translation: Transform,
    pub rotation: Transform,
    pub scaling: Transform,
    pub triangles: Vec<Triangle>,
}

impl Object {
    pub open spec fn wf(&self) -> bool {
        &&& self.translation.wf()
        &&& self.rotation.wf()
        &&& self.scaling.wf()
        &&& forall|i: int| 0 <= i < self.triangles@.len() ==> (#[trigger] self.triangles@[i]).wf()
    }

    pub open spec fn world_spec(&self) -> Seq<Coord> {
        world_matrix(self.translation@, self.rotation@, self.scaling@)
    }

    /// An object of the given triangles with identity transforms.
    pub fn new(tris: Vec<Triangle>) -> (o: Object)
        requires
            forall|i: int| 0 <= i < tris@.len() ==> (#[trigger] tris@[i]).wf(),
        ensures
            o.wf(),
            o.triangles@ == tris@,
            o.translation@ == identity_matrix(),
            o.rotation@ == identity_matrix(),
            o.scaling@ == identity_matrix(),
    {
        Object {
            translation: Transform::identity(),
            rotation: Transform::identity(),
            scaling: Transform::identity(),
            triangles: tris,
        }
    }

    /// The world transform: `translation * rotation * scaling`.
    pub fn world_transform(&self) -> (t: Transform)
        requires
            self.wf(),
        ensures
            t.wf(),
            t@ == self.world_spec(),
    {
        self.translation.mul(&self.rotation).mul(&self.scaling)
    }

    /// Fills each triangle, mapped through the world transform, with
    /// `renderer`.
    pub fn render(&self, renderer: &mut Renderer)
        requires
            self.wf(),
            old(renderer).wf(),
        ensures
            final(renderer).wf(),
            final(renderer).texture.w == old(renderer).texture.w,
            final(renderer).texture.h == old(renderer).texture.h,
            final(renderer).transform == old(renderer).transform,
            final(renderer).color == old(renderer).color,
            final(renderer).light == old(renderer).light,
            final(renderer).lighting_mode == old(renderer).lighting_mode,
            final(renderer).canvas() == render_canvas(
                old(renderer).canvas(),
                old(renderer).texture.w as int,
                old(renderer).texture.h as int,
                old(renderer).transform@,
                old(renderer).color,
                old(renderer).light,
                old(renderer).lighting_mode,
                self.world_spec(),
                self.triangles@,
            ),
    {
        let world = self.world_transform();
        let ghost c0 = renderer.canvas();
        let ghost tris = self.triangles@;
        let n = self.triangles.len();
        let mut i: usize = 0;
        while i < n
            invariant
                0 <= i <= n,
                n == tris.len(),
                tris == self.triangles@,
                self.wf(),
                world.wf(),
                world@ == self.world_spec(),
                renderer.wf(),
                renderer.texture.w == old(renderer).texture.w,
                renderer.texture.h == old(renderer).texture.h,
                renderer.transform == old(renderer).transform,
                renderer.color == old(renderer).color,
                renderer.light == old(renderer).light,
                renderer.lighting_mode == old(renderer).lighting_mode,
                renderer.canvas() == render_canvas(
                    c0,
                    renderer.texture.w as int,
                    renderer.texture.h as int,
                    renderer.transform@,
                    renderer.color,
                    renderer.light,
                    renderer.lighting_mode,
                    world@,
                    tris.take(i as int),
                ),
            decreases n - i,
        {
            assert(tris.take(i + 1).drop_last() =~= tris.take(i as int));
            let t = self.triangles[i];
            assert(t.wf());
            match t.mul_transform(&world) {
                Some(wt) => renderer.fill_triangle(wt),
                None => {},
            }
            i += 1;
        }
        assert(tris.take(n as int) =~= tris);
    }

    /// Composes a translation by `off` after the translation so far.
    pub fn translate(&mut self, off: Point)
        requires
            old(self).wf(),
            off.wf(),
        ensures
            final(self).wf(),
            final(self).translation@ == mat_mul(translate_matrix(off), old(self).translation@),
            final(self).rotation == old(self).rotation,
            final(self).scaling == old(self).scaling,
            final(self).triangles@ == old(self).triangles@,
    {
        self.translation = Transform::translate(off).mul(&self.translation);
    }

    /// Composes a scaling after the scaling so far.
    pub fn scale(&mut self, x: Coord, y: Coord, z: Coord)
        requires
            old(self).wf(),
            in_range(x as int),
            in_range(y as int),
            in_range(z as int),
        ensures
            final(self).wf(),
            final(self).scaling@ == mat_mul(scale_matrix(x, y, z), old(self).scaling@),
            final(self).translation == old(self).translation,
            final(self).rotation == old(self).rotation,
            final(self).triangles@ == old(self).triangles@,
    {
        self.scaling = Transform::scale(x, y, z).mul(&self.scaling);
    }

    /// Composes a rotation about the x axis (by the angle with the given
    /// cosine and sine) after the rotation so far.
    pub fn rotate_x(&mut self, cos: Coord, sin: Coord)
        requires
            old(self).wf(),
            in_range(cos as int),
            in_range(sin as int),
        ensures
            final(self).wf(),
            final(self).rotation@ == mat_mul(rotate_x_matrix(cos, sin), old(self).rotation@),
            final(self).translation == old(self).translation,
            final(self).scaling == old(self).scaling,
            final(self).triangles@ == old(self).triangles@,
    {
        self.rotation = Transform::rotate_x(cos, sin).mul(&self.rotation);
    }

    /// Composes a rotation about the y axis after the rotation so far.
    pub fn rotate_y(&mut self, cos: Coord, sin: Coord)
        requires
            old(self).wf(),
            in_range(cos as int),
            in_range(sin as int),
        ensures
            final(self).wf(),
            final(self).rotation@ == mat_mul(rotate_y_matrix(cos, sin), old(self).rotation@),
            final(self).translation == old(self).translation,
            final(self).scaling == old(self).scaling,
            final(self).triangles@ == old(self).triangles@,
    {
        self.rotation = Transform::rotate_y(cos, sin).mul(&self.rotation);
    }

    /// Composes a rotation about the z axis after the rotation so far.
    pub fn rotate_z(&mut self, cos: Coord, sin: Coord)
        requires
            old(self).wf(),
            in_range(cos as int),
            in_range(sin as int),
        ensures
            final(self).wf(),
            final(self).rotation@ == mat_mul(rotate_z_matrix(cos, sin), old(self).rotation@),
            final(self).translation == old(self).translation,
            final(self).scaling == old(self).scaling,
            final(self).triangles@ == old(self).triangles@,
    {
        self.rotation = Transform::rotate_z(cos, sin).mul(&self.rotation);
    }

    /// `translate`, by value.
    pub fn translated(self, off: Point) -> (o: Object)
        requires
            self.wf(),
            off.wf(),
        ensures
            o.wf(),
            o.translation@ == mat_mul(translate_matrix(off), self.translation@),
            o.rotation == self.rotation,
            o.scaling == self.scaling,
            o.triangles@ == self.triangles@,
    {
        let mut o = self;
        o.translate(off);
        o
    }

    /// `scale`, by value.
    pub fn scaled(self, x: Coord, y: Coord, z: Coord) -> (o: Object)
        requires
            self.wf(),
            in_range(x as int),
            in_range(y as int),
            in_range(z as int),
        ensures
            o.wf(),
            o.scaling@ == mat_mul(scale_matrix(x, y, z), self.scaling@),
            o.translation == self.translation,
            o.rotation == self.rotation,
            o.triangles@ == self.triangles@,
    {
        let mut o = self;
        o.scale(x, y, z);
        o
    }

    /// `rotate_x`, by value.
    pub fn rotated_x(self, cos: Coord, sin: Coord) -> (o: Object)
        requires
            self.wf(),
            in_range(cos as int),
            in_range(sin as int),
        ensures
            o.wf(),
            o.rotation@ == mat_mul(rotate_x_matrix(cos, sin), self.rotation@),
            o.translation == self.translation,
            o.scaling == self.scaling,
            o.triangles@ == self.triangles@,
    {
        let mut o = self;
        o.rotate_x(cos, sin);
        o
    }

    /// `rotate_y`, by value.
    pub fn rotated_y(self, cos: Coord, sin: Coord) -> (o: Object)
        requires
            self.wf(),
            in_range(cos as int),
            in_range(sin as int),
        ensures
            o.wf(),
            o.rotation@ == mat_mul(rotate_y_matrix(cos, sin), self.rotation@),
            o.translation == self.translation,
            o.scaling == self.scaling,
            o.triangles@ == self.triangles@,
    {
        let mut o = self;
        o.rotate_y(cos, sin);
        o
    }

    /// `rotate_z`, by value.
    pub fn rotated_z(self, cos: Coord, sin: Coord) -> (o: Object)
        requires
            self.wf(),
            in_range(cos as int),
            in_range(sin as int),
        ensures
            o.wf(),
            o.rotation@ == mat_mul(rotate_z_matrix(cos, sin), self.rotation@),
            o.translation == self.translation,
            o.scaling == self.scaling,
            o.triangles@ == self.triangles@,
    {
        let mut o = self;
        o.rotate_z(cos, sin);
        o
    }
}

} // verus!
