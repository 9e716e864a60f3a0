//! Scan conversion of triangles, lines and points into a texture.
use vstd::prelude::*;

use crate::fixed::{
    floor_div, in_range, pix_of, sat, saturate, to_pix, Coord, Dimension, ONE,
};
use crate::geometry::{
    apply_matrix, apply_matrix_tri, identity_matrix, mat_mul, perspective_matrix, rotate_x_matrix,
    rotate_y_matrix, rotate_z_matrix, scale_matrix, translate_matrix, Point, Transform, Triangle,
};
use crate::pixel::{background, white, Pixel};
use crate::texture::{clamp, fill_row, put, Canvas, Texture, DEPTH_FAR, DEPTH_NEAR};

verus! {

/// A horizontal span: `(x1, x2, y, z1, z2)`, as `Texture::set_row` takes it.
pub type Span = (int, int, int, int, int);

/// `c` after the span fills of `rows`, in order.
pub open spec fn apply_rows(c: Canvas, w: int, h: int, rows: Seq<Span>, color: Pixel) -> Canvas
    decreases rows.len(),
{
    if rows.len() == 0 {
        c
    } else {
        let r = rows.last();
        fill_row(apply_rows(c, w, h, rows.drop_last(), color), w, h, r.0, r.1, r.2, r.3, r.4, color)
    }
}

/// The value a fraction `num / den` of the way from `a` to `b`, rounded down;
/// `a` where `den` is not positive.
pub open spec fn lerp(a: int, b: int, num: int, den: int) -> int {
    if den <= 0 {
        a
    } else {
        a + ((b - a) * num) / den
    }
}

/// The two points ordered by `x`, the first where they tie.
pub open spec fn order_by_x(a: Point, b: Point) -> (Point, Point) {
    if a.x > b.x {
        (b, a)
    } else {
        (a, b)
    }
}

/// The spans of a triangle with apex `top` above a flat edge `left`-`right`:
/// one for each pixel row from the apex's down to, not including, the row
/// of the edge (taken at `left`, once the two are ordered by `x`).
pub open spec fn flat_bottom_rows(top: Point, a: Point, b: Point) -> Seq<Span> {
    let (left, right) = order_by_x(a, b);
    let ty = to_pix(top.y as int);
    let ly = to_pix(left.y as int);
    let den = left.y - top.y;
    Seq::new(
        if ly > ty { (ly - ty) as nat } else { 0 },
        |k: int|
            (
                to_pix(lerp(top.x as int, left.x as int, k * ONE, den)),
                to_pix(lerp(top.x as int, right.x as int, k * ONE, den)),
                ty + k,
                sat(lerp(top.z as int, left.z as int, k * ONE, den)),
                sat(lerp(top.z as int, right.z as int, k * ONE, den)),
            ),
    )
}

/// The spans of a triangle with a flat edge `left`-`right` above an apex
/// `bot`: one for each pixel row from the edge's (taken at `left`, once the
/// two are ordered by `x`) down to the apex's, both included.
pub open spec fn flat_top_rows(a: Point, b: Point, bot: Point) -> Seq<Span> {
    let (left, right) = order_by_x(a, b);
    let ly = to_pix(left.y as int);
    let by = to_pix(bot.y as int);
    let den = bot.y - left.y;
    Seq::new(
        if by >= ly { (by - ly + 1) as nat } else { 0 },
        |k: int|
            (
                to_pix(lerp(left.x as int, bot.x as int, k * ONE, den)),
                to_pix(lerp(right.x as int, bot.x as int, k * ONE, den)),
                ly + k,
                sat(lerp(left.z as int, bot.z as int, k * ONE, den)),
                sat(lerp(right.z as int, bot.z as int, k * ONE, den)),
            ),
    )
}

/// The three points in ascending `y`, in their given order where `y` ties.
pub open spec fn sort_by_y(a: Point, b: Point, c: Point) -> (Point, Point, Point) {
    let (a1, b1) = if b.y < a.y { (b, a) } else { (a, b) };
    let (b2, c2) = if c.y < b1.y { (c, b1) } else { (b1, c) };
    let (a3, b3) = if b2.y < a1.y { (b2, a1) } else { (a1, b2) };
    (a3, b3, c2)
}

/// The point on the edge `top`-`bot` at the height of `middle`.
pub open spec fn split_vertex(top: Point, middle: Point, bot: Point) -> Point {
    let dy_mid = middle.y - top.y;
    let dy_bot = bot.y - top.y;
    Point {
        x: sat(lerp(top.x as int, bot.x as int, dy_mid, dy_bot)) as Coord,
        y: middle.y,
        z: sat(lerp(top.z as int, bot.z as int, dy_mid, dy_bot)) as Coord,
    }
}

/// The spans of a screen triangle with vertices sorted by `y`, in two batches.
///
/// A triangle whose top two vertices lie less than one unit apart in `y` is
/// filled as one triangle with a flat top, likewise one whose bottom two do
/// as one with a flat bottom; any other is split at the height of `middle`
/// into a flat-bottom half and a flat-top half.
pub open spec fn triangle_spans(top: Point, middle: Point, bot: Point) -> (Seq<Span>, Seq<Span>) {
    if middle.y - top.y < ONE {
        (flat_top_rows(top, middle, bot), Seq::empty())
    } else if bot.y - middle.y < ONE {
        (flat_bottom_rows(top, middle, bot), Seq::empty())
    } else {
        let v4 = split_vertex(top, middle, bot);
        (flat_bottom_rows(top, middle, v4), flat_top_rows(middle, v4, bot))
    }
}

/// The cosine between the normal of `t` and the direction from its centroid
/// to `light`, raw, limited to `[0, ONE]`.
pub open spec fn light_factor(t: Triangle, light: Point) -> int {
    let dir = light.sub_spec(t.centroid_spec()).unit_spec();
    let m = dir.dot_spec(t.normal_spec());
    if m < 0 {
        0
    } else if m > ONE {
        ONE as int
    } else {
        m
    }
}

/// A channel scaled by the raw factor `f` in `[0, ONE]`, rounded down.
pub open spec fn scale_channel(v: u8, f: int) -> u8 {
    ((v * f) / (ONE as int)) as u8
}

/// The color in which `t` is filled.
pub open spec fn lit_color(t: Triangle, color: Pixel, light: Point, mode: LightingMode) -> Pixel {
    match mode {
        LightingMode::NoShading => color,
        LightingMode::FlatShading => {
            let f = light_factor(t, light);
            Pixel { r: scale_channel(color.r, f), g: scale_channel(color.g, f), b: scale_channel(color.b, f) }
        },
    }
}

/// Whether `t`, whose image under the transform is `ct`, faces away from the
/// viewer: its transformed normal does not point against its centroid.
pub open spec fn faces_away(t: Triangle, ct: Triangle) -> bool {
    ct.normal_spec().dot_spec(t.centroid_spec()) >= 0
}

/// `c` after filling `t` through the transform `m`: nothing where a vertex
/// has no image or the triangle faces away; else the spans of its image.
pub open spec fn fill_result(
    c: Canvas,
    w: int,
    h: int,
    m: Seq<Coord>,
    color: Pixel,
    light: Point,
    mode: LightingMode,
    t: Triangle,
) -> Canvas {
    match apply_matrix_tri(t, m) {
        None => c,
        Some(ct) => if faces_away(t, ct) {
            c
        } else {
            let (top, middle, bot) = sort_by_y(ct.p1, ct.p2, ct.p3);
            let (first, second) = triangle_spans(top, middle, bot);
            let shade = lit_color(t, color, light, mode);
            apply_rows(apply_rows(c, w, h, first, shade), w, h, second, shade)
        },
    }
}

/// The state of a line walk: position and accumulated error.
pub type LineState = (int, int, int);

/// The step of a line walk made before each pixel: the minor coordinate moves
/// one pixel where the error has grown past half the major extent.
pub open spec fn line_pre(s: LineState, adx: int, ady: int, xs: int, ys: int) -> LineState {
    if adx >= ady {
        if 2 * s.2 > adx {
            (s.0, s.1 + ys, s.2 - adx + ady)
        } else {
            (s.0, s.1, s.2 + ady)
        }
    } else {
        if 2 * s.2 > ady {
            (s.0 + xs, s.1, s.2 - ady + adx)
        } else {
            (s.0, s.1, s.2 + adx)
        }
    }
}

/// The step of a line walk made after each pixel: the major coordinate moves
/// one pixel.
pub open spec fn line_advance(s: LineState, adx: int, ady: int, xs: int, ys: int) -> LineState {
    if adx >= ady {
        (s.0 + xs, s.1, s.2)
    } else {
        (s.0, s.1 + ys, s.2)
    }
}

/// The state of a line walk from `(x0, y0)` before its pixel `k`.
pub open spec fn line_before(k: nat, x0: int, y0: int, adx: int, ady: int, xs: int, ys: int) -> LineState
    decreases k,
{
    if k == 0 {
        (x0, y0, 0)
    } else {
        line_advance(
            line_pre(line_before((k - 1) as nat, x0, y0, adx, ady, xs, ys), adx, ady, xs, ys),
            adx,
            ady,
            xs,
            ys,
        )
    }
}

/// Pixel `k` of a line walk from `(x0, y0)`.
pub open spec fn line_pixel(k: nat, x0: int, y0: int, adx: int, ady: int, xs: int, ys: int) -> LineState {
    line_pre(line_before(k, x0, y0, adx, ady, xs, ys), adx, ady, xs, ys)
}

/// `c` after the first `n` pixels of a line walk, written without depth test.
pub open spec fn line_canvas(
    c: Canvas,
    w: int,
    h: int,
    n: nat,
    x0: int,
    y0: int,
    adx: int,
    ady: int,
    xs: int,
    ys: int,
    color: Pixel,
) -> Canvas
    decreases n,
{
    if n == 0 {
        c
    } else {
        let s = line_pixel((n - 1) as nat, x0, y0, adx, ady, xs, ys);
        put(line_canvas(c, w, h, (n - 1) as nat, x0, y0, adx, ady, xs, ys, color), w, h, s.0, s.1, color)
    }
}

pub open spec fn abs(v: int) -> int {
    if v >= 0 {
        v
    } else {
        -v
    }
}

/// `c` after the line from pixel `(x1, y1)` to pixel `(x2, y2)`: one pixel
/// for each step along the longer extent, the endpoints included.
pub open spec fn segment_canvas(c: Canvas, w: int, h: int, x1: int, y1: int, x2: int, y2: int, color: Pixel) -> Canvas {
    let adx = abs(x2 - x1);
    let ady = abs(y2 - y1);
    let xs = if x2 > x1 { 1int } else { -1int };
    let ys = if y2 > y1 { 1int } else { -1int };
    let n = if adx >= ady { adx + 1 } else { ady + 1 };
    line_canvas(c, w, h, n as nat, x1, y1, adx, ady, xs, ys, color)
}

/// `c` after the line from `p1` to `p2` through the transform `m`; nothing
/// where an endpoint has no image.
pub open spec fn line_result(c: Canvas, w: int, h: int, m: Seq<Coord>, color: Pixel, p1: Point, p2: Point) -> Canvas {
    match (apply_matrix(p1, m), apply_matrix(p2, m)) {
        (Some(q1), Some(q2)) => segment_canvas(
            c,
            w,
            h,
            to_pix(q1.x as int),
            to_pix(q1.y as int),
            to_pix(q2.x as int),
            to_pix(q2.y as int),
            color,
        ),
        _ => c,
    }
}

/// The side of the square drawn for a point, in pixels.
pub const POINT_SIZE: i64 = 7;

/// `v` limited to the range of `i16`.
pub open spec fn clamp16(v: int) -> int {
    if v < i16::MIN {
        i16::MIN as int
    } else if v > i16::MAX {
        i16::MAX as int
    } else {
        v
    }
}

/// The rows of the square drawn for a point at pixel `(px, py)`, at the
/// nearest depth.
pub open spec fn point_rows(px: int, py: int) -> Seq<Span> {
    Seq::new(
        POINT_SIZE as nat,
        |k: int|
            (
                clamp16(px - POINT_SIZE / 2),
                clamp16(px + POINT_SIZE / 2),
                clamp16(py + k - POINT_SIZE / 2),
                DEPTH_NEAR as int,
                DEPTH_NEAR as int,
            ),
    )
}

/// `c` after drawing the point `p` through the transform `m`; nothing where
/// it has no image.
pub open spec fn point_result(c: Canvas, w: int, h: int, m: Seq<Coord>, color: Pixel, p: Point) -> Canvas {
    match apply_matrix(p, m) {
        Some(q) => apply_rows(c, w, h, point_rows(to_pix(q.x as int), to_pix(q.y as int)), color),
        None => c,
    }
}

/// Lighting of filled triangles.
#[derive(Clone, Copy, Debug, PartialEq, Eq, Structural)]
pub enum LightingMode {
    NoShading,
    FlatShading,
}

/// A texture with the state that draw calls read: the current transform, the
/// draw color, the light position and the lighting mode.
pub struct Renderer {
    pub texture: Texture,
    pub transform: Transform,
    pub color: Pixel,
    pub light: Point,
    pub lighting_mode: LightingMode,
}

/// `a + (b - a) * num / den` (see `lerp`), wide.
fn lerp_wide(a: Coord, b: Coord, num: i128, den: i128) -> (r: i128)
    requires
        in_range(a as int),
        in_range(b as int),
        0 <= num <= 0x2_0000_0000,
    ensures
        r == lerp(a as int, b as int, num as int, den as int),
        -0x1_0000_0000_0000_0000_0000_0000 <= r <= 0x1_0000_0000_0000_0000_0000_0000,
{
    if den <= 0 {
        a as i128
    } else {
        let d = b as i128 - a as i128;
        assert(-0x4_0000_0000_0000_0000_0000 <= d * num <= 0x4_0000_0000_0000_0000_0000)
            by (nonlinear_arith)
            requires
                -0x1_0000_0000_0000 <= d <= 0x1_0000_0000_0000,
                0 <= num <= 0x2_0000_0000,
        {
            if d >= 0 {
                assert(d * num <= 0x1_0000_0000_0000 * num);
            } else {
                assert(d * num >= -0x1_0000_0000_0000 * num);
            }
        }
        let q = floor_div(d * num, den);
        assert(-0x4_0000_0000_0000_0000_0000 <= q <= 0x4_0000_0000_0000_0000_0000) by (nonlinear_arith)
            requires
                q == (d * num) / (den as int),
                den > 0,
                -0x4_0000_0000_0000_0000_0000 <= d * num <= 0x4_0000_0000_0000_0000_0000,
        {
            if d * num >= 0 {
                assert(q <= d * num);
            } else {
                assert(q >= d * num);
            }
        }
        a as i128 + q
    }
}

/// `a + (b - a) * num / den` (see `lerp`), wide, for `num` no larger than
/// `den` in magnitude.
fn lerp_wide_general(a: Coord, b: Coord, num: i128, den: i128) -> (r: i128)
    requires
        in_range(a as int),
        in_range(b as int),
        0 <= num <= den,
        den <= 0x1_0000_0000_0000,
    ensures
        r == lerp(a as int, b as int, num as int, den as int),
        -0x1_0000_0000_0000_0000_0000_0000 <= r <= 0x1_0000_0000_0000_0000_0000_0000,
{
    if den <= 0 {
        a as i128
    } else {
        let d = b as i128 - a as i128;
        assert(-0x1_0000_0000_0000_0000_0000_0000 <= d * num <= 0x1_0000_0000_0000_0000_0000_0000)
            by (nonlinear_arith)
            requires
                -0x1_0000_0000_0000 <= d <= 0x1_0000_0000_0000,
                0 <= num <= 0x1_0000_0000_0000,
        {
            if d >= 0 {
                assert(d * num <= 0x1_0000_0000_0000 * num);
            } else {
                assert(d * num >= -0x1_0000_0000_0000 * num);
            }
        }
        let q = floor_div(d * num, den);
        assert(-0x1_0000_0000_0000 <= q <= 0x1_0000_0000_0000) by (nonlinear_arith)
            requires
                q == (d * num) / (den as int),
                den > 0,
                0 <= num <= den,
                -0x1_0000_0000_0000 <= d <= 0x1_0000_0000_0000,
        {
            if d >= 0 {
                assert(d * num <= d * den);
                assert((d * den) / (den as int) == d);
                vstd::arithmetic::div_mod::lemma_div_is_ordered(d * num, d * den, den as int);
                assert(0 <= d * num);
            } else {
                assert(d * den <= d * num);
                assert((d * den) / (den as int) == d);
                vstd::arithmetic::div_mod::lemma_div_is_ordered(d * den, d * num, den as int);
                assert(d * num <= 0);
            }
        }
        a as i128 + q
    }
}

/// Taking one more span extends the fill by that span.
proof fn lemma_apply_rows_step(c: Canvas, w: int, h: int, rows: Seq<Span>, k: int, color: Pixel)
    requires
        0 <= k < rows.len(),
    ensures
        apply_rows(c, w, h, rows.take(k + 1), color) == ({
            let r = rows[k];
            fill_row(apply_rows(c, w, h, rows.take(k), color), w, h, r.0, r.1, r.2, r.3, r.4, color)
        }),
{
    assert(rows.take(k + 1).drop_last() =~= rows.take(k));
}

impl Renderer {
    pub open spec fn wf(&self) -> bool {
        self.texture.wf() && self.transform.wf() && self.light.wf()
    }

    pub open spec fn canvas(&self) -> Canvas {
        self.texture.canvas()
    }

    /// Fills the triangle with apex `top` above the flat edge `a`-`b`.
    fn fill_flat_bottom(&mut self, top: Point, a: Point, b: Point, color: Pixel)
        requires
            old(self).wf(),
            top.wf(),
            a.wf(),
            b.wf(),
        ensures
            final(self).wf(),
            final(self).texture.w == old(self).texture.w,
            final(self).texture.h == old(self).texture.h,
            final(self).transform == old(self).transform,
            final(self).color == old(self).color,
            final(self).light == old(self).light,
            final(self).lighting_mode == old(self).lighting_mode,
            final(self).canvas() == apply_rows(
                old(self).canvas(),
                old(self).texture.w as int,
                old(self).texture.h as int,
                flat_bottom_rows(top, a, b),
                color,
            ),
    {
        let (left, right) = if a.x > b.x {
            (b, a)
        } else {
            (a, b)
        };
        let ty = pix_of(top.y as i128) as i32;
        let ly = pix_of(left.y as i128) as i32;
        let den = left.y as i128 - top.y as i128;
        let ghost rows = flat_bottom_rows(top, a, b);
        let ghost c0 = self.canvas();
        let ghost w = self.texture.w as int;
        let ghost h = self.texture.h as int;
        let mut y: i32 = ty;
        if ly <= ty {
            assert(rows.take(0) =~= rows);
            return ;
        }
        while y < ly
            invariant
                ty <= y <= ly,
                ty < ly,
                rows.len() == ly - ty,
                rows == flat_bottom_rows(top, a, b),
                (left, right) == order_by_x(a, b),
                ty == to_pix(top.y as int),
                ly == to_pix(left.y as int),
                den == left.y - top.y,
                -32768 <= ty,
                ly <= 32767,
                self.wf(),
                top.wf(),
                left.wf(),
                right.wf(),
                self.texture.w == w,
                self.texture.h == h,
                self.transform == old(self).transform,
                self.color == old(self).color,
                self.light == old(self).light,
                self.lighting_mode == old(self).lighting_mode,
                self.canvas() == apply_rows(c0, w, h, rows.take(y - ty), color),
            decreases ly - y,
        {
            let num = (y - ty) as i128 * 65536;
            let x1 = pix_of(lerp_wide(top.x, left.x, num, den));
            let x2 = pix_of(lerp_wide(top.x, right.x, num, den));
            let z1 = saturate(lerp_wide(top.z, left.z, num, den));
            let z2 = saturate(lerp_wide(top.z, right.z, num, den));
            proof {
                lemma_apply_rows_step(c0, w, h, rows, y - ty, color);
            }
            self.texture.set_row(x1, x2, y as i16, z1, z2, color);
            y += 1;
        }
        assert(rows.take(ly - ty) =~= rows);
    }

    /// Fills the triangle with the flat edge `a`-`b` above the apex `bot`.
    fn fill_flat_top(&mut self, a: Point, b: Point, bot: Point, color: Pixel)
        requires
            old(self).wf(),
            a.wf(),
            b.wf(),
            bot.wf(),
        ensures
            final(self).wf(),
            final(self).texture.w == old(self).texture.w,
            final(self).texture.h == old(self).texture.h,
            final(self).transform == old(self).transform,
            final(self).color == old(self).color,
            final(self).light == old(self).light,
            final(self).lighting_mode == old(self).lighting_mode,
            final(self).canvas() == apply_rows(
                old(self).canvas(),
                old(self).texture.w as int,
                old(self).texture.h as int,
                flat_top_rows(a, b, bot),
                color,
            ),
    {
        let (left, right) = if a.x > b.x {
            (b, a)
        } else {
            (a, b)
        };
        let ly = pix_of(left.y as i128) as i32;
        let by = pix_of(bot.y as i128) as i32;
        let den = bot.y as i128 - left.y as i128;
        let ghost rows = flat_top_rows(a, b, bot);
        let ghost c0 = self.canvas();
        let ghost w = self.texture.w as int;
        let ghost h = self.texture.h as int;
        if by < ly {
            assert(rows.take(0) =~= rows);
            return ;
        }
        let mut y: i32 = ly;
        while y <= by
            invariant
                ly <= y <= by + 1,
                ly <= by,
                rows.len() == by - ly + 1,
                rows == flat_top_rows(a, b, bot),
                (left, right) == order_by_x(a, b),
                ly == to_pix(left.y as int),
                by == to_pix(bot.y as int),
                den == bot.y - left.y,
                -32768 <= ly,
                by <= 32767,
                self.wf(),
                bot.wf(),
                left.wf(),
                right.wf(),
                self.texture.w == w,
                self.texture.h == h,
                self.transform == old(self).transform,
                self.color == old(self).color,
                self.light == old(self).light,
                self.lighting_mode == old(self).lighting_mode,
                self.canvas() == apply_rows(c0, w, h, rows.take(y - ly), color),
            decreases by + 1 - y,
        {
            let num = (y - ly) as i128 * 65536;
            let x1 = pix_of(lerp_wide(left.x, bot.x, num, den));
            let x2 = pix_of(lerp_wide(right.x, bot.x, num, den));
            let z1 = saturate(lerp_wide(left.z, bot.z, num, den));
            let z2 = saturate(lerp_wide(right.z, bot.z, num, den));
            proof {
                lemma_apply_rows_step(c0, w, h, rows, y - ly, color);
            }
            self.texture.set_row(x1, x2, y as i16, z1, z2, color);
            y += 1;
        }
        assert(rows.take(by - ly + 1) =~= rows);
    }

    /// The color in which `t` is filled under the current light.
    fn light_triangle(&self, t: Triangle, color: Pixel) -> (r: Pixel)
        requires
            self.wf(),
            t.wf(),
        ensures
            r == lit_color(t, color, self.light, self.lighting_mode),
    {
        match self.lighting_mode {
            LightingMode::NoShading => color,
            LightingMode::FlatShading => {
                let centroid = t.centroid();
                let dir = self.light.sub(centroid).normalized();
                let m = dir.dot(t.normal());
                let f: u64 = if m < 0 {
                    0
                } else if m > ONE {
                    ONE as u64
                } else {
                    m as u64
                };
                Pixel {
                    r: Self::scale_channel(color.r, f),
                    g: Self::scale_channel(color.g, f),
                    b: Self::scale_channel(color.b, f),
                }
            },
        }
    }

    fn scale_channel(v: u8, f: u64) -> (r: u8)
        requires
            f <= ONE,
        ensures
            r == scale_channel(v, f as int),
    {
        assert(v * f <= 255 * 65536) by (nonlinear_arith)
            requires
                v <= 255,
                f <= 65536,
        ;
        let p = v as u64 * f;
        (p / 65536) as u8
    }

    /// Fills `t`, mapped through the current transform, in the current color
    /// as the lighting mode shades it. Nothing is drawn where the triangle
    /// faces away from the viewer or a vertex has no image.
    pub fn fill_triangle(&mut self, t: Triangle)
        requires
            old(self).wf(),
            t.wf(),
        ensures
            final(self).wf(),
            final(self).texture.w == old(self).texture.w,
            final(self).texture.h == old(self).texture.h,
            final(self).transform == old(self).transform,
            final(self).color == old(self).color,
            final(self).light == old(self).light,
            final(self).lighting_mode == old(self).lighting_mode,
            final(self).canvas() == fill_result(
                old(self).canvas(),
                old(self).texture.w as int,
                old(self).texture.h as int,
                old(self).transform@,
                old(self).color,
                old(self).light,
                old(self).lighting_mode,
                t,
            ),
    {
        let centroid = t.centroid();
        let ct = match t.mul_transform(&self.transform) {
            Some(ct) => ct,
            None => {
                return ;
            },
        };
        if ct.normal().dot(centroid) >= 0 {
            return ;
        }
        let (mut a, mut b, mut c) = (ct.p1, ct.p2, ct.p3);
        if b.y < a.y {
            let tmp = a;
            a = b;
            b = tmp;
        }
        if c.y < b.y {
            let tmp = b;
            b = c;
            c = tmp;
        }
        if b.y < a.y {
            let tmp = a;
            a = b;
            b = tmp;
        }
        let (top, middle, bot) = (a, b, c);
        assert((top, middle, bot) == sort_by_y(ct.p1, ct.p2, ct.p3));
        let color = self.light_triangle(t, self.color);
        if (middle.y as i128 - top.y as i128) < ONE as i128 {
            self.fill_flat_top(top, middle, bot, color);
            assert(apply_rows(self.canvas(), self.texture.w as int, self.texture.h as int, Seq::empty(), color) == self.canvas());
        } else if (bot.y as i128 - middle.y as i128) < ONE as i128 {
            self.fill_flat_bottom(top, middle, bot, color);
            assert(apply_rows(self.canvas(), self.texture.w as int, self.texture.h as int, Seq::empty(), color) == self.canvas());
        } else {
            let dy_mid = middle.y as i128 - top.y as i128;
            let dy_bot = bot.y as i128 - top.y as i128;
            let v4 = Point {
                x: saturate(lerp_wide_general(top.x, bot.x, dy_mid, dy_bot)),
                y: middle.y,
                z: saturate(lerp_wide_general(top.z, bot.z, dy_mid, dy_bot)),
            };
            assert(v4 == split_vertex(top, middle, bot));
            self.fill_flat_bottom(top, middle, v4, color);
            self.fill_flat_top(middle, v4, bot, color);
        }
    }

    /// Draws the line from `p1` to `p2`, mapped through the current transform,
    /// in the current color. Lines are not depth tested: each of their pixels
    /// takes the color and keeps its depth. Nothing is drawn where an endpoint
    /// has no image.
    pub fn draw_line(&mut self, p1: Point, p2: Point)
        requires
            old(self).wf(),
            p1.wf(),
            p2.wf(),
        ensures
            final(self).wf(),
            final(self).texture.w == old(self).texture.w,
            final(self).texture.h == old(self).texture.h,
            final(self).transform == old(self).transform,
            final(self).color == old(self).color,
            final(self).light == old(self).light,
            final(self).lighting_mode == old(self).lighting_mode,
            final(self).canvas() == line_result(
                old(self).canvas(),
                old(self).texture.w as int,
                old(self).texture.h as int,
                old(self).transform@,
                old(self).color,
                p1,
                p2,
            ),
    {
        let q1 = match p1.mul_transform(&self.transform) {
            Some(q) => q,
            None => {
                return ;
            },
        };
        let q2 = match p2.mul_transform(&self.transform) {
            Some(q) => q,
            None => {
                return ;
            },
        };
        let x1 = pix_of(q1.x as i128) as i64;
        let y1 = pix_of(q1.y as i128) as i64;
        let x2 = pix_of(q2.x as i128) as i64;
        let y2 = pix_of(q2.y as i128) as i64;
        self.draw_segment(x1, y1, x2, y2);
    }

    /// Draws the line from pixel `(x1, y1)` to pixel `(x2, y2)`.
    fn draw_segment(&mut self, x1: i64, y1: i64, x2: i64, y2: i64)
        requires
            old(self).wf(),
            -0x8000 <= x1 < 0x8000,
            -0x8000 <= y1 < 0x8000,
            -0x8000 <= x2 < 0x8000,
            -0x8000 <= y2 < 0x8000,
        ensures
            final(self).wf(),
            final(self).texture.w == old(self).texture.w,
            final(self).texture.h == old(self).texture.h,
            final(self).transform == old(self).transform,
            final(self).color == old(self).color,
            final(self).light == old(self).light,
            final(self).lighting_mode == old(self).lighting_mode,
            final(self).canvas() == segment_canvas(
                old(self).canvas(),
                old(self).texture.w as int,
                old(self).texture.h as int,
                x1 as int,
                y1 as int,
                x2 as int,
                y2 as int,
                old(self).color,
            ),
    {
        let dx = x2 - x1;
        let dy = y2 - y1;
        let adx = if dx >= 0 {
            dx
        } else {
            -dx
        };
        let ady = if dy >= 0 {
            dy
        } else {
            -dy
        };
        let x_step: i64 = if x2 > x1 {
            1
        } else {
            -1
        };
        let y_step: i64 = if y2 > y1 {
            1
        } else {
            -1
        };
        let n = if adx >= ady {
            adx + 1
        } else {
            ady + 1
        };
        let ghost c0 = self.canvas();
        let ghost w = self.texture.w as int;
        let ghost h = self.texture.h as int;
        let color = self.color;
        let mut x = x1;
        let mut y = y1;
        let mut error: i64 = 0;
        let mut k: i64 = 0;
        while k < n
            invariant
                0 <= k <= n,
                n <= 0x10000,
                -0x8000 <= x1 < 0x8000,
                -0x8000 <= y1 < 0x8000,
                adx <= 0xffff,
                ady <= 0xffff,
                n == (if adx >= ady { adx + 1 } else { ady + 1 }),
                adx == abs(x2 - x1),
                ady == abs(y2 - y1),
                x_step == (if x2 > x1 { 1int } else { -1int }),
                y_step == (if y2 > y1 { 1int } else { -1int }),
                (x as int, y as int, error as int) == line_before(
                    k as nat,
                    x1 as int,
                    y1 as int,
                    adx as int,
                    ady as int,
                    x_step as int,
                    y_step as int,
                ),
                x1 - k <= x <= x1 + k,
                y1 - k <= y <= y1 + k,
                -k * 0x40000 <= error <= k * 0x40000,
                self.wf(),
                self.texture.w == w,
                self.texture.h == h,
                self.transform == old(self).transform,
                self.color == color,
                self.light == old(self).light,
                self.lighting_mode == old(self).lighting_mode,
                self.canvas() == line_canvas(
                    c0,
                    w,
                    h,
                    k as nat,
                    x1 as int,
                    y1 as int,
                    adx as int,
                    ady as int,
                    x_step as int,
                    y_step as int,
                    color,
                ),
            decreases n - k,
        {
            if adx >= ady {
                if 2 * error > adx {
                    y += y_step;
                    error -= adx;
                }
                error += ady;
            } else {
                if 2 * error > ady {
                    x += x_step;
                    error -= ady;
                }
                error += adx;
            }
            self.texture.put_pixel(x, y, color);
            if adx >= ady {
                x += x_step;
            } else {
                y += y_step;
            }
            k += 1;
        }
    }

    /// A renderer with a black `w` x `h` texture, the identity transform, a
    /// white draw color, the light at the origin and no shading.
    pub fn new(w: Dimension, h: Dimension) -> (r: Renderer)
        requires
            w * h <= usize::MAX,
        ensures
            r.wf(),
            r.texture.w == w,
            r.texture.h == h,
            forall|i: int| 0 <= i < w * h ==> r.texture.pixels@[i] == background(),
            forall|i: int| 0 <= i < w * h ==> r.texture.depths()[i] == DEPTH_FAR,
            r.transform@ == identity_matrix(),
            r.color == (Pixel { r: 0xff, g: 0xff, b: 0xff }),
            r.light == (Point { x: 0, y: 0, z: 0 }),
            r.lighting_mode == LightingMode::NoShading,
    {
        Renderer {
            texture: Texture::new(w, h),
            transform: Transform::identity(),
            color: white(),
            light: Point { x: 0, y: 0, z: 0 },
            lighting_mode: LightingMode::NoShading,
        }
    }

    /// The texture drawn so far.
    pub fn texture(&self) -> (t: &Texture)
        ensures
            t == &self.texture,
    {
        &self.texture
    }

    /// Draws a small square for `p`, mapped through the current transform, in
    /// the current color and at the nearest depth. Nothing is drawn where `p`
    /// has no image.
    pub fn draw_point(&mut self, p: Point)
        requires
            old(self).wf(),
            p.wf(),
        ensures
            final(self).wf(),
            final(self).texture.w == old(self).texture.w,
            final(self).texture.h == old(self).texture.h,
            final(self).transform == old(self).transform,
            final(self).color == old(self).color,
            final(self).light == old(self).light,
            final(self).lighting_mode == old(self).lighting_mode,
            final(self).canvas() == point_result(
                old(self).canvas(),
                old(self).texture.w as int,
                old(self).texture.h as int,
                old(self).transform@,
                old(self).color,
                p,
            ),
    {
        let q = match p.mul_transform(&self.transform) {
            Some(q) => q,
            None => {
                return ;
            },
        };
        let px = pix_of(q.x as i128) as i64;
        let py = pix_of(q.y as i128) as i64;
        let d = POINT_SIZE;
        let ghost rows = point_rows(px as int, py as int);
        let ghost c0 = self.canvas();
        let ghost w = self.texture.w as int;
        let ghost h = self.texture.h as int;
        let mut row: i64 = 0;
        while row < d
            invariant
                0 <= row <= d,
                d == POINT_SIZE,
                -0x8000 <= px < 0x8000,
                -0x8000 <= py < 0x8000,
                rows == point_rows(px as int, py as int),
                self.wf(),
                self.texture.w == w,
                self.texture.h == h,
                self.transform == old(self).transform,
                self.color == old(self).color,
                self.light == old(self).light,
                self.lighting_mode == old(self).lighting_mode,
                self.canvas() == apply_rows(c0, w, h, rows.take(row as int), self.color),
            decreases d - row,
        {
            let x1 = clamp(px - d / 2, i16::MIN as i64, i16::MAX as i64) as i16;
            let x2 = clamp(px + d / 2, i16::MIN as i64, i16::MAX as i64) as i16;
            let y = clamp(py + row - d / 2, i16::MIN as i64, i16::MAX as i64) as i16;
            proof {
                lemma_apply_rows_step(c0, w, h, rows, row as int, self.color);
            }
            self.texture.set_row(x1, x2, y, DEPTH_NEAR, DEPTH_NEAR, self.color);
            row += 1;
        }
        assert(rows.take(POINT_SIZE as int) =~= rows);
    }

    /// Draws `p` as `draw_point` does, through `transform` in place of the
    /// current one, which stays.
    pub fn draw_point_with_transform(&mut self, p: Point, transform: Transform)
        requires
            old(self).wf(),
            p.wf(),
            transform.wf(),
        ensures
            final(self).wf(),
            final(self).texture.w == old(self).texture.w,
            final(self).texture.h == old(self).texture.h,
            final(self).transform == old(self).transform,
            final(self).color == old(self).color,
            final(self).light == old(self).light,
            final(self).lighting_mode == old(self).lighting_mode,
            final(self).canvas() == point_result(
                old(self).canvas(),
                old(self).texture.w as int,
                old(self).texture.h as int,
                transform@,
                old(self).color,
                p,
            ),
    {
        let old_transform = self.transform;
        self.transform = transform;
        self.draw_point(p);
        self.transform = old_transform;
    }

    /// Draws the line from `p1` to `p2` as `draw_line` does, through
    /// `transform` in place of the current one, which stays.
    pub fn draw_line_with_transform(&mut self, p1: Point, p2: Point, transform: Transform)
        requires
            old(self).wf(),
            p1.wf(),
            p2.wf(),
            transform.wf(),
        ensures
            final(self).wf(),
            final(self).texture.w == old(self).texture.w,
            final(self).texture.h == old(self).texture.h,
            final(self).transform == old(self).transform,
            final(self).color == old(self).color,
            final(self).light == old(self).light,
            final(self).lighting_mode == old(self).lighting_mode,
            final(self).canvas() == line_result(
                old(self).canvas(),
                old(self).texture.w as int,
                old(self).texture.h as int,
                transform@,
                old(self).color,
                p1,
                p2,
            ),
    {
        let old_transform = self.transform;
        self.transform = transform;
        self.draw_line(p1, p2);
        self.transform = old_transform;
    }

    /// Draws the outline of `t`: its three edges as lines.
    pub fn draw_triangle(&mut self, t: Triangle)
        requires
            old(self).wf(),
            t.wf(),
        ensures
            final(self).wf(),
            final(self).texture.w == old(self).texture.w,
            final(self).texture.h == old(self).texture.h,
            final(self).transform == old(self).transform,
            final(self).color == old(self).color,
            final(self).light == old(self).light,
            final(self).lighting_mode == old(self).lighting_mode,
            final(self).canvas() == ({
                let w = old(self).texture.w as int;
                let h = old(self).texture.h as int;
                let m = old(self).transform@;
                let color = old(self).color;
                line_result(
                    line_result(line_result(old(self).canvas(), w, h, m, color, t.p1, t.p2), w, h, m, color, t.p2, t.p3),
                    w,
                    h,
                    m,
                    color,
                    t.p3,
                    t.p1,
                )
            }),
    {
        self.draw_line(t.p1, t.p2);
        self.draw_line(t.p2, t.p3);
        self.draw_line(t.p3, t.p1);
    }

    /// Clears the texture: black everywhere, every depth `DEPTH_FAR`.
    pub fn clear(&mut self)
        requires
            old(self).wf(),
        ensures
            final(self).wf(),
            final(self).texture.w == old(self).texture.w,
            final(self).texture.h == old(self).texture.h,
            forall|i: int|
                0 <= i < final(self).texture.w * final(self).texture.h
                    ==> final(self).texture.pixels@[i] == background(),
            forall|i: int|
                0 <= i < final(self).texture.w * final(self).texture.h
                    ==> final(self).texture.depths()[i] == DEPTH_FAR,
            final(self).transform == old(self).transform,
            final(self).color == old(self).color,
            final(self).light == old(self).light,
            final(self).lighting_mode == old(self).lighting_mode,
    {
        self.texture.clear();
    }

    /// Replaces the current transform.
    pub fn set_transform(&mut self, t: Transform)
        requires
            old(self).wf(),
            t.wf(),
        ensures
            final(self).wf(),
            final(self).transform == t,
            final(self).texture == old(self).texture,
            final(self).color == old(self).color,
            final(self).light == old(self).light,
            final(self).lighting_mode == old(self).lighting_mode,
    {
        self.transform = t;
    }

    /// Resets the current transform to the identity.
    pub fn clear_transform(&mut self)
        requires
            old(self).wf(),
        ensures
            final(self).wf(),
            final(self).transform@ == identity_matrix(),
            final(self).texture == old(self).texture,
            final(self).color == old(self).color,
            final(self).light == old(self).light,
            final(self).lighting_mode == old(self).lighting_mode,
    {
        self.transform = Transform::identity();
    }

    /// Composes a translation by `p` after the current transform.
    pub fn translate(&mut self, p: Point)
        requires
            old(self).wf(),
            p.wf(),
        ensures
            final(self).wf(),
            final(self).transform@ == mat_mul(translate_matrix(p), old(self).transform@),
            final(self).texture == old(self).texture,
            final(self).color == old(self).color,
            final(self).light == old(self).light,
            final(self).lighting_mode == old(self).lighting_mode,
    {
        self.transform = Transform::translate(p).mul(&self.transform);
    }

    /// Composes a rotation about the x axis after the current transform.
    pub fn rotate_x(&mut self, cos: Coord, sin: Coord)
        requires
            old(self).wf(),
            in_range(cos as int),
            in_range(sin as int),
        ensures
            final(self).wf(),
            final(self).transform@ == mat_mul(rotate_x_matrix(cos, sin), old(self).transform@),
            final(self).texture == old(self).texture,
            final(self).color == old(self).color,
            final(self).light == old(self).light,
            final(self).lighting_mode == old(self).lighting_mode,
    {
        self.transform = Transform::rotate_x(cos, sin).mul(&self.transform);
    }

    /// Composes a rotation about the y axis after the current transform.
    pub fn rotate_y(&mut self, cos: Coord, sin: Coord)
        requires
            old(self).wf(),
            in_range(cos as int),
            in_range(sin as int),
        ensures
            final(self).wf(),
            final(self).transform@ == mat_mul(rotate_y_matrix(cos, sin), old(self).transform@),
            final(self).texture == old(self).texture,
            final(self).color == old(self).color,
            final(self).light == old(self).light,
            final(self).lighting_mode == old(self).lighting_mode,
    {
        self.transform = Transform::rotate_y(cos, sin).mul(&self.transform);
    }

    /// Composes a rotation about the z axis after the current transform.
    pub fn rotate_z(&mut self, cos: Coord, sin: Coord)
        requires
            old(self).wf(),
            in_range(cos as int),
            in_range(sin as int),
        ensures
            final(self).wf(),
            final(self).transform@ == mat_mul(rotate_z_matrix(cos, sin), old(self).transform@),
            final(self).texture == old(self).texture,
            final(self).color == old(self).color,
            final(self).light == old(self).light,
            final(self).lighting_mode == old(self).lighting_mode,
    {
        self.transform = Transform::rotate_z(cos, sin).mul(&self.transform);
    }

    /// Composes a scaling after the current transform.
    pub fn scale(&mut self, x: Coord, y: Coord, z: Coord)
        requires
            old(self).wf(),
            in_range(x as int),
            in_range(y as int),
            in_range(z as int),
        ensures
            final(self).wf(),
            final(self).transform@ == mat_mul(scale_matrix(x, y, z), old(self).transform@),
            final(self).texture == old(self).texture,
            final(self).color == old(self).color,
            final(self).light == old(self).light,
            final(self).lighting_mode == old(self).lighting_mode,
    {
        self.transform = Transform::scale(x, y, z).mul(&self.transform);
    }

    /// Composes the perspective projection after the current transform.
    pub fn perspective(&mut self)
        requires
            old(self).wf(),
        ensures
            final(self).wf(),
            final(self).transform@ == mat_mul(perspective_matrix(), old(self).transform@),
            final(self).texture == old(self).texture,
            final(self).color == old(self).color,
            final(self).light == old(self).light,
            final(self).lighting_mode == old(self).lighting_mode,
    {
        self.transform = Transform::perspective().mul(&self.transform);
    }

    pub fn set_color(&mut self, color: Pixel)
        requires
            old(self).wf(),
        ensures
            final(self).wf(),
            final(self).color == color,
            final(self).texture == old(self).texture,
            final(self).transform == old(self).transform,
            final(self).light == old(self).light,
            final(self).lighting_mode == old(self).lighting_mode,
    {
        self.color = color;
    }

    pub fn set_light_pos(&mut self, pos: Point)
        requires
            old(self).wf(),
            pos.wf(),
        ensures
            final(self).wf(),
            final(self).light == pos,
            final(self).texture == old(self).texture,
            final(self).transform == old(self).transform,
            final(self).color == old(self).color,
            final(self).lighting_mode == old(self).lighting_mode,
    {
        self.light = pos;
    }

    pub fn set_lighting_mode(&mut self, lighting_mode: LightingMode)
        requires
            old(self).wf(),
        ensures
            final(self).wf(),
            final(self).lighting_mode == lighting_mode,
            final(self).texture == old(self).texture,
            final(self).transform == old(self).transform,
            final(self).color == old(self).color,
            final(self).light == old(self).light,
    {
        self.lighting_mode = lighting_mode;
    }
}

} // verus!
