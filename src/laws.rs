//! Laws that relate the operations of the library.
use vstd::prelude::*;

use crate::fixed::{in_range, is_isqrt, lemma_root_exists, root, sat, trunc_div, Coord, ONE};
use crate::geometry::{abs_sum, cross_raw, fx_mul, lemma_shrink, lemma_unit_bounds, shrink};
use crate::geometry::{
    apply_matrix, identity_matrix, mat_mul, mul_entry, row_col, row_point, rotate_x_matrix, rotate_y_matrix, rotate_z_matrix,
    wf_matrix, Point,
};
use crate::object::{render_canvas, world_matrix};
use crate::pixel::Pixel;
use crate::renderer::{
    abs, apply_rows, fill_result, line_before, line_pixel, flat_bottom_rows, flat_top_rows, lit_color, sort_by_y, split_vertex,
    triangle_spans, faces_away, LightingMode, Span,
};
use crate::geometry::apply_matrix_tri;
use crate::geometry::Triangle;
use crate::texture::{
    fill_row, lemma_fill_row_no_deeper, lemma_index, no_deeper, plot, plot_span, Canvas, DEPTH_FAR,
};

verus! {

use vstd::arithmetic::mul::{
    lemma_mul_is_associative, lemma_mul_is_distributive_add,
    lemma_mul_is_distributive_add_other_way,
};

/// Entry `(i, j)` of a product with the identity on the left.
proof fn lemma_identity_entry_left(m: Seq<Coord>, i: int, j: int)
    requires
        wf_matrix(m),
        0 <= i < 4,
        0 <= j < 4,
    ensures
        mul_entry(identity_matrix(), m, i, j) == m[4 * i + j],
{
    let id = identity_matrix();
    assert(id[4 * i] == if i == 0 { ONE } else { 0 });
    assert(id[4 * i + 1] == if i == 1 { ONE } else { 0 });
    assert(id[4 * i + 2] == if i == 2 { ONE } else { 0 });
    assert(id[4 * i + 3] == if i == 3 { ONE } else { 0 });
    assert(row_col(id, m, i, j) == ONE * m[4 * i + j]);
    assert(in_range(m[4 * i + j] as int));
}

/// Entry `(i, j)` of a product with the identity on the right.
proof fn lemma_identity_entry_right(m: Seq<Coord>, i: int, j: int)
    requires
        wf_matrix(m),
        0 <= i < 4,
        0 <= j < 4,
    ensures
        mul_entry(m, identity_matrix(), i, j) == m[4 * i + j],
{
    let id = identity_matrix();
    assert(id[j] == if j == 0 { ONE } else { 0 });
    assert(id[4 + j] == if j == 1 { ONE } else { 0 });
    assert(id[8 + j] == if j == 2 { ONE } else { 0 });
    assert(id[12 + j] == if j == 3 { ONE } else { 0 });
    assert(row_col(m, id, i, j) == ONE * m[4 * i + j]);
    assert(in_range(m[4 * i + j] as int));
}

/// The identity is a left and a right identity of the product of transforms.
pub proof fn lemma_identity_mul(m: Seq<Coord>)
    requires
        wf_matrix(m),
    ensures
        mat_mul(identity_matrix(), m) == m,
        mat_mul(m, identity_matrix()) == m,
{
    lemma_identity_mul_left(m);
    lemma_identity_mul_right(m);
}

proof fn lemma_identity_mul_left(m: Seq<Coord>)
    requires
        wf_matrix(m),
    ensures
        mat_mul(identity_matrix(), m) == m,
{
    let id = identity_matrix();
    let r = mat_mul(id, m);
    assert forall|n: int| 0 <= n < 16 implies r[n] == m[n] by {
        let i = n / 4;
        let j = n % 4;
        assert(4 * i + j == n);
        lemma_identity_entry_left(m, i, j);
    }
    assert(r =~= m);
}

proof fn lemma_identity_mul_right(m: Seq<Coord>)
    requires
        wf_matrix(m),
    ensures
        mat_mul(m, identity_matrix()) == m,
{
    let id = identity_matrix();
    let r = mat_mul(m, id);
    assert forall|n: int| 0 <= n < 16 implies r[n] == m[n] by {
        let i = n / 4;
        let j = n % 4;
        assert(4 * i + j == n);
        lemma_identity_entry_right(m, i, j);
    }
    assert(r =~= m);
}

/// `(ONE * v * ONE) / (ONE * ONE)` is `v`.
proof fn lemma_unit_divide(v: int)
    ensures
        ((ONE * v) * ONE) / (ONE * ONE) == v,
{
    assert((65536 * v) * 65536 == 4294967296 * v) by (nonlinear_arith);
    vstd::arithmetic::div_mod::lemma_div_multiples_vanish(v, 4294967296);
}

/// The identity maps every point to itself.
pub proof fn lemma_identity_point(p: Point)
    requires
        p.wf(),
    ensures
        apply_matrix(p, identity_matrix()) == Some(p),
{
    let id = identity_matrix();
    assert(id[0] == ONE && id[1] == 0 && id[2] == 0 && id[3] == 0);
    assert(id[4] == 0 && id[5] == ONE && id[6] == 0 && id[7] == 0);
    assert(id[8] == 0 && id[9] == 0 && id[10] == ONE && id[11] == 0);
    assert(id[12] == 0 && id[13] == 0 && id[14] == 0 && id[15] == ONE);
    assert(row_point(id, 0, p) == ONE * p.x);
    assert(row_point(id, 1, p) == ONE * p.y);
    assert(row_point(id, 2, p) == ONE * p.z);
    assert(row_point(id, 3, p) == ONE * ONE);
    lemma_unit_divide(p.x as int);
    lemma_unit_divide(p.y as int);
    lemma_unit_divide(p.z as int);
}

/// Rounding `y` down to a multiple of 65536 and weighting by `w` errs by
/// less than `65536 * |w|`.
proof fn lemma_round_term(y: int, w: int)
    ensures
        65536 * ((y / 65536) * w) == y * w - (y % 65536) * w,
        65536 * (w * (y / 65536)) == w * y - w * (y % 65536),
        -(65536 * abs(w)) <= (y % 65536) * w <= 65536 * abs(w),
        -(65536 * abs(w)) <= w * (y % 65536) <= 65536 * abs(w),
{
    let q = y / 65536;
    let r = y % 65536;
    assert(y == 65536 * q + r);
    assert(0 <= r < 65536);
    assert(65536 * (q * w) == y * w - r * w && 65536 * (w * q) == w * y - w * r) by (nonlinear_arith)
        requires
            y == 65536 * q + r,
    ;
    assert(-(65536 * abs(w)) <= r * w <= 65536 * abs(w)) by (nonlinear_arith)
        requires
            0 <= r < 65536,
    {
        if w >= 0 {
            assert(r * w <= 65536 * w);
        } else {
            assert(r * w >= 65536 * w);
        }
    }
    assert(w * r == r * w) by (nonlinear_arith);
}

/// The sum `a . (B c)` equals `(a B) . c` for a row `a`, a 4x4 `B` and a
/// column `c`.
proof fn lemma_triple_sum(
    a0: int, a1: int, a2: int, a3: int,
    b: Seq<Coord>,
    c0: int, c1: int, c2: int, c3: int,
)
    requires
        b.len() == 16,
    ensures
        (a0 * b[0] + a1 * b[4] + a2 * b[8] + a3 * b[12]) * c0
            + (a0 * b[1] + a1 * b[5] + a2 * b[9] + a3 * b[13]) * c1
            + (a0 * b[2] + a1 * b[6] + a2 * b[10] + a3 * b[14]) * c2
            + (a0 * b[3] + a1 * b[7] + a2 * b[11] + a3 * b[15]) * c3
        == a0 * (b[0] * c0 + b[1] * c1 + b[2] * c2 + b[3] * c3)
            + a1 * (b[4] * c0 + b[5] * c1 + b[6] * c2 + b[7] * c3)
            + a2 * (b[8] * c0 + b[9] * c1 + b[10] * c2 + b[11] * c3)
            + a3 * (b[12] * c0 + b[13] * c1 + b[14] * c2 + b[15] * c3),
{
    let bb = |n: int| b[n] as int;
    lemma_spread(a0, a1, a2, a3, bb(0), bb(4), bb(8), bb(12), c0);
    lemma_spread(a0, a1, a2, a3, bb(1), bb(5), bb(9), bb(13), c1);
    lemma_spread(a0, a1, a2, a3, bb(2), bb(6), bb(10), bb(14), c2);
    lemma_spread(a0, a1, a2, a3, bb(3), bb(7), bb(11), bb(15), c3);
    lemma_gather(a0, bb(0), bb(1), bb(2), bb(3), c0, c1, c2, c3);
    lemma_gather(a1, bb(4), bb(5), bb(6), bb(7), c0, c1, c2, c3);
    lemma_gather(a2, bb(8), bb(9), bb(10), bb(11), c0, c1, c2, c3);
    lemma_gather(a3, bb(12), bb(13), bb(14), bb(15), c0, c1, c2, c3);
}

/// `(a0 b0 + a1 b1 + a2 b2 + a3 b3) c` spread over the terms.
proof fn lemma_spread(a0: int, a1: int, a2: int, a3: int, b0: int, b1: int, b2: int, b3: int, c: int)
    ensures
        (a0 * b0 + a1 * b1 + a2 * b2 + a3 * b3) * c == a0 * (b0 * c) + a1 * (b1 * c) + a2 * (b2 * c) + a3 * (b3 * c),
{
    lemma_mul_is_distributive_add_other_way(c, a0 * b0 + a1 * b1 + a2 * b2, a3 * b3);
    lemma_mul_is_distributive_add_other_way(c, a0 * b0 + a1 * b1, a2 * b2);
    lemma_mul_is_distributive_add_other_way(c, a0 * b0, a1 * b1);
    lemma_mul_is_associative(a0, b0, c);
    lemma_mul_is_associative(a1, b1, c);
    lemma_mul_is_associative(a2, b2, c);
    lemma_mul_is_associative(a3, b3, c);
}

/// `a (b0 c0 + b1 c1 + b2 c2 + b3 c3)` spread over the terms.
proof fn lemma_gather(a: int, b0: int, b1: int, b2: int, b3: int, c0: int, c1: int, c2: int, c3: int)
    ensures
        a * (b0 * c0 + b1 * c1 + b2 * c2 + b3 * c3) == a * (b0 * c0) + a * (b1 * c1) + a * (b2 * c2) + a * (b3 * c3),
{
    lemma_mul_is_distributive_add(a, b0 * c0 + b1 * c1 + b2 * c2, b3 * c3);
    lemma_mul_is_distributive_add(a, b0 * c0 + b1 * c1, b2 * c2);
    lemma_mul_is_distributive_add(a, b0 * c0, b1 * c1);
}

/// The sum of the magnitudes of row `i` of `m`.
pub open spec fn row_abs(m: Seq<Coord>, i: int) -> int {
    abs(m[4 * i] as int) + abs(m[4 * i + 1] as int) + abs(m[4 * i + 2] as int) + abs(m[4 * i + 3] as int)
}

/// The sum of the magnitudes of column `j` of `m`.
pub open spec fn col_abs(m: Seq<Coord>, j: int) -> int {
    abs(m[j] as int) + abs(m[4 + j] as int) + abs(m[8 + j] as int) + abs(m[12 + j] as int)
}

/// No entry of the product of `a` and `b` saturates.
pub open spec fn product_in_range(a: Seq<Coord>, b: Seq<Coord>) -> bool {
    forall|i: int, j: int| 0 <= i < 4 && 0 <= j < 4 ==> in_range(#[trigger] row_col(a, b, i, j) / (ONE as int))
}

/// Entry `(i, j)` of the associativity bound.
proof fn lemma_assoc_entry(a: Seq<Coord>, b: Seq<Coord>, c: Seq<Coord>, i: int, j: int)
    requires
        wf_matrix(a),
        wf_matrix(b),
        wf_matrix(c),
        0 <= i < 4,
        0 <= j < 4,
        product_in_range(a, b),
        product_in_range(b, c),
        product_in_range(mat_mul(a, b), c),
        product_in_range(a, mat_mul(b, c)),
    ensures
        ONE * abs(mat_mul(mat_mul(a, b), c)[4 * i + j] - mat_mul(a, mat_mul(b, c))[4 * i + j])
            <= row_abs(a, i) + col_abs(c, j) + ONE,
{
    assert(ONE == 65536);
    let ab = mat_mul(a, b);
    let bc = mat_mul(b, c);
    let (a0, a1, a2, a3) = (a[4 * i] as int, a[4 * i + 1] as int, a[4 * i + 2] as int, a[4 * i + 3] as int);
    let (c0, c1, c2, c3) = (c[j] as int, c[4 + j] as int, c[8 + j] as int, c[12 + j] as int);
    let p0 = row_col(a, b, i, 0);
    let p1 = row_col(a, b, i, 1);
    let p2 = row_col(a, b, i, 2);
    let p3 = row_col(a, b, i, 3);
    let q0 = row_col(b, c, 0, j);
    let q1 = row_col(b, c, 1, j);
    let q2 = row_col(b, c, 2, j);
    let q3 = row_col(b, c, 3, j);
    assert(ab[4 * i] == p0 / 65536);
    assert(ab[4 * i + 1] == p1 / 65536);
    assert(ab[4 * i + 2] == p2 / 65536);
    assert(ab[4 * i + 3] == p3 / 65536);
    assert(bc[j] == q0 / 65536);
    assert(bc[4 + j] == q1 / 65536);
    assert(bc[8 + j] == q2 / 65536);
    assert(bc[12 + j] == q3 / 65536);
    let u = row_col(ab, c, i, j);
    let v = row_col(a, bc, i, j);
    assert(u == (p0 / 65536) * c0 + (p1 / 65536) * c1 + (p2 / 65536) * c2 + (p3 / 65536) * c3);
    assert(v == a0 * (q0 / 65536) + a1 * (q1 / 65536) + a2 * (q2 / 65536) + a3 * (q3 / 65536));
    lemma_triple_sum(a0, a1, a2, a3, b, c0, c1, c2, c3);
    assert(p0 * c0 + p1 * c1 + p2 * c2 + p3 * c3 == a0 * q0 + a1 * q1 + a2 * q2 + a3 * q3);
    lemma_round_term(p0, c0);
    lemma_round_term(p1, c1);
    lemma_round_term(p2, c2);
    lemma_round_term(p3, c3);
    lemma_round_term(q0, a0);
    lemma_round_term(q1, a1);
    lemma_round_term(q2, a2);
    lemma_round_term(q3, a3);
    let l = mat_mul(ab, c)[4 * i + j];
    let r = mat_mul(a, bc)[4 * i + j];
    assert(l == u / 65536);
    assert(r == v / 65536);
}

/// The product of transforms is associative up to rounding: where no product
/// saturates, the two ways of grouping `a * b * c` differ in entry `(i, j)`
/// by at most `(row_abs(a, i) + col_abs(c, j)) / ONE + 1` raw units.
pub proof fn lemma_mul_assoc_within_tolerance(a: Seq<Coord>, b: Seq<Coord>, c: Seq<Coord>)
    requires
        wf_matrix(a),
        wf_matrix(b),
        wf_matrix(c),
        product_in_range(a, b),
        product_in_range(b, c),
        product_in_range(mat_mul(a, b), c),
        product_in_range(a, mat_mul(b, c)),
    ensures
        forall|i: int, j: int|
            0 <= i < 4 && 0 <= j < 4 ==> ONE * abs(
                #[trigger] mat_mul(mat_mul(a, b), c)[4 * i + j] - mat_mul(a, mat_mul(b, c))[4 * i + j],
            ) <= row_abs(a, i) + col_abs(c, j) + ONE,
{
    assert forall|i: int, j: int| 0 <= i < 4 && 0 <= j < 4 implies ONE * abs(
        #[trigger] mat_mul(mat_mul(a, b), c)[4 * i + j] - mat_mul(a, mat_mul(b, c))[4 * i + j],
    ) <= row_abs(a, i) + col_abs(c, j) + ONE by {
        lemma_assoc_entry(a, b, c, i, j);
    }
}

/// Cauchy-Schwarz in three dimensions: `(b . d)^2 <= |b|^2 |d|^2`.
proof fn lemma_cauchy_schwarz(b0: int, b1: int, b2: int, d0: int, d1: int, d2: int)
    ensures
        (b0 * d0 + b1 * d1 + b2 * d2) * (b0 * d0 + b1 * d1 + b2 * d2)
            <= (b0 * b0 + b1 * b1 + b2 * b2) * (d0 * d0 + d1 * d1 + d2 * d2),
{
    let (e00, e01, e02) = (b0 * d0, b0 * d1, b0 * d2);
    let (e10, e11, e12) = (b1 * d0, b1 * d1, b1 * d2);
    let (e20, e21, e22) = (b2 * d0, b2 * d1, b2 * d2);
    let dd = d0 * d0 + d1 * d1 + d2 * d2;
    lemma_mul_is_distributive_add_other_way(dd, b0 * b0 + b1 * b1, b2 * b2);
    lemma_mul_is_distributive_add_other_way(dd, b0 * b0, b1 * b1);
    lemma_square_row(b0, d0, d1, d2);
    lemma_square_row(b1, d0, d1, d2);
    lemma_square_row(b2, d0, d1, d2);
    assert(e00 * e11 == e01 * e10) by (nonlinear_arith)
        requires
            e00 == b0 * d0,
            e11 == b1 * d1,
            e01 == b0 * d1,
            e10 == b1 * d0,
    ;
    assert(e00 * e22 == e02 * e20) by (nonlinear_arith)
        requires
            e00 == b0 * d0,
            e22 == b2 * d2,
            e02 == b0 * d2,
            e20 == b2 * d0,
    ;
    assert(e11 * e22 == e12 * e21) by (nonlinear_arith)
        requires
            e11 == b1 * d1,
            e22 == b2 * d2,
            e12 == b1 * d2,
            e21 == b2 * d1,
    ;
    assert((e00 + e11 + e22) * (e00 + e11 + e22) == e00 * e00 + e11 * e11 + e22 * e22 + 2 * (e00 * e11) + 2 * (
    e00 * e22) + 2 * (e11 * e22)) by (nonlinear_arith);
    lemma_square_of_difference(e01, e10);
    lemma_square_of_difference(e02, e20);
    lemma_square_of_difference(e12, e21);
}

/// `(a - b)^2` expanded, and not negative.
proof fn lemma_square_of_difference(a: int, b: int)
    ensures
        (a - b) * (a - b) == a * a - 2 * (a * b) + b * b,
        (a - b) * (a - b) >= 0,
{
    assert((a - b) * (a - b) == a * a - 2 * (a * b) + b * b) by (nonlinear_arith);
    assert((a - b) * (a - b) >= 0) by (nonlinear_arith);
}

/// `b^2 (d0^2 + d1^2 + d2^2)` as a sum of squares of products.
proof fn lemma_square_row(b: int, d0: int, d1: int, d2: int)
    ensures
        (b * b) * (d0 * d0 + d1 * d1 + d2 * d2) == (b * d0) * (b * d0) + (b * d1) * (b * d1) + (b * d2) * (b * d2),
{
    lemma_mul_is_distributive_add(b * b, d0 * d0 + d1 * d1, d2 * d2);
    lemma_mul_is_distributive_add(b * b, d0 * d0, d1 * d1);
    assert((b * b) * (d0 * d0) == (b * d0) * (b * d0)) by (nonlinear_arith);
    assert((b * b) * (d1 * d1) == (b * d1) * (b * d1)) by (nonlinear_arith);
    assert((b * b) * (d2 * d2) == (b * d2) * (b * d2)) by (nonlinear_arith);
}

/// Moving a vector `b` of length at most `w` by `d`, each coordinate of `d`
/// less than 65536 in magnitude, gives a length less than `w + 131072`.
proof fn lemma_norm_shift(b0: int, b1: int, b2: int, d0: int, d1: int, d2: int, w: int)
    requires
        w >= 0,
        b0 * b0 + b1 * b1 + b2 * b2 <= w * w,
        -65536 < d0 < 65536,
        -65536 < d1 < 65536,
        -65536 < d2 < 65536,
    ensures
        (b0 + d0) * (b0 + d0) + (b1 + d1) * (b1 + d1) + (b2 + d2) * (b2 + d2) < (w + 131072) * (w + 131072),
{
    let nb = b0 * b0 + b1 * b1 + b2 * b2;
    let nd = d0 * d0 + d1 * d1 + d2 * d2;
    let dot = b0 * d0 + b1 * d1 + b2 * d2;
    lemma_cauchy_schwarz(b0, b1, b2, d0, d1, d2);
    assert(0 <= nd <= 3 * 65536 * 65536) by (nonlinear_arith)
        requires
            nd == d0 * d0 + d1 * d1 + d2 * d2,
            -65536 < d0 < 65536,
            -65536 < d1 < 65536,
            -65536 < d2 < 65536,
    {
        assert(d0 * d0 <= 65536 * 65536);
        assert(d1 * d1 <= 65536 * 65536);
        assert(d2 * d2 <= 65536 * 65536);
    }
    assert(nb >= 0) by (nonlinear_arith)
        requires
            nb == b0 * b0 + b1 * b1 + b2 * b2,
    ;
    assert(dot * dot <= (131072 * w) * (131072 * w)) by (nonlinear_arith)
        requires
            dot * dot <= nb * nd,
            0 <= nb <= w * w,
            0 <= nd <= 3 * 65536 * 65536,
            w >= 0,
    {
        assert(nb * nd <= (w * w) * nd);
        assert((w * w) * nd <= (w * w) * (4 * 65536 * 65536));
    }
    assert(-(131072 * w) <= dot <= 131072 * w) by (nonlinear_arith)
        requires
            dot * dot <= (131072 * w) * (131072 * w),
            w >= 0,
    {
        if dot > 131072 * w {
            assert(dot * dot > (131072 * w) * (131072 * w));
        }
        if dot < -(131072 * w) {
            assert(dot * dot > (131072 * w) * (131072 * w));
        }
    }
    assert((b0 + d0) * (b0 + d0) + (b1 + d1) * (b1 + d1) + (b2 + d2) * (b2 + d2) == nb + 2 * dot + nd)
        by (nonlinear_arith)
        requires
            nb == b0 * b0 + b1 * b1 + b2 * b2,
            nd == d0 * d0 + d1 * d1 + d2 * d2,
            dot == b0 * d0 + b1 * d1 + b2 * d2,
    ;
    assert((w + 131072) * (w + 131072) == w * w + 262144 * w + 131072 * 131072) by (nonlinear_arith);
}

/// `u < w` for nonnegative `u` and `w` with `u^2 < w^2`.
proof fn lemma_lt_from_squares(u: int, w: int)
    requires
        u >= 0,
        w >= 0,
        u * u < w * w,
    ensures
        u < w,
{
    assert(u < w) by (nonlinear_arith)
        requires
            u >= 0,
            w >= 0,
            u * u < w * w,
    {
        if u >= w {
            assert(u * u >= w * w);
        }
    }
}

/// `f * f * n` between the squares of `f * m` and `f * (m + 1)` for the
/// integer square root `m` of `n`.
proof fn lemma_scaled_root_squares(n: int, m: int, f: int)
    requires
        f >= 0,
        is_isqrt(n, m),
    ensures
        (f * m) * (f * m) <= (f * f) * n,
        (f * f) * n <= (f * m + f) * (f * m + f),
{
    assert((f * m) * (f * m) <= (f * f) * n) by (nonlinear_arith)
        requires
            f >= 0,
            m * m <= n,
    {
        assert((f * m) * (f * m) == (f * f) * (m * m));
    }
    assert((f * f) * n <= (f * m + f) * (f * m + f)) by (nonlinear_arith)
        requires
            f >= 0,
            n < (m + 1) * (m + 1),
    {
        assert((f * m + f) * (f * m + f) == (f * f) * ((m + 1) * (m + 1)));
    }
}

/// The magnitude commutes with scaling by `s` up to rounding: where no
/// coordinate of `p * s` saturates, `ONE * |p * s|` and `|p| * |s|` differ by
/// less than `3 * ONE + |s|` raw units (both sides being `ONE` times a length).
pub proof fn lemma_magnitude_scalar(p: Point, s: int)
    requires
        p.wf(),
        i64::MIN <= s <= i64::MAX,
        in_range((p.x * s) / (ONE as int)),
        in_range((p.y * s) / (ONE as int)),
        in_range((p.z * s) / (ONE as int)),
    ensures
        abs(ONE * p.mul_scalar_spec(s).magnitude_spec() - p.magnitude_spec() * abs(s)) < 3 * ONE + abs(s),
{
    assert(ONE == 65536);
    let q = p.mul_scalar_spec(s);
    let (x, y, z) = (p.x as int, p.y as int, p.z as int);
    let (bx, by, bz) = (x * s, y * s, z * s);
    let (qx, qy, qz) = (q.x as int, q.y as int, q.z as int);
    assert(qx == bx / 65536 && qy == by / 65536 && qz == bz / 65536);
    let (ax, ay, az) = (65536 * qx, 65536 * qy, 65536 * qz);
    assert(-65536 < ax - bx <= 0 && -65536 < ay - by <= 0 && -65536 < az - bz <= 0);
    let sa = abs(s);
    let nq = q.norm_sq();
    let nx = p.norm_sq();
    assert(nq >= 0 && nx >= 0) by (nonlinear_arith)
        requires
            nq == qx * qx + qy * qy + qz * qz,
            nx == x * x + y * y + z * z,
    ;
    lemma_root_exists(nq);
    lemma_root_exists(nx);
    let m1 = root(nq);
    let m0 = root(nx);
    assert(q.magnitude_spec() == m1 && p.magnitude_spec() == m0);
    let u = 65536 * m1;
    let v = m0 * sa;
    // the squared lengths of S q and of s p
    let na = ax * ax + ay * ay + az * az;
    let nb = bx * bx + by * by + bz * bz;
    assert(na == (65536 * 65536) * nq) by (nonlinear_arith)
        requires
            na == ax * ax + ay * ay + az * az,
            nq == qx * qx + qy * qy + qz * qz,
            ax == 65536 * qx,
            ay == 65536 * qy,
            az == 65536 * qz,
    ;
    assert(sa * sa == s * s) by (nonlinear_arith)
        requires
            sa == s || sa == -s,
    ;
    assert((x * s) * (x * s) == (sa * sa) * (x * x)) by (nonlinear_arith)
        requires
            sa * sa == s * s,
    ;
    assert((y * s) * (y * s) == (sa * sa) * (y * y)) by (nonlinear_arith)
        requires
            sa * sa == s * s,
    ;
    assert((z * s) * (z * s) == (sa * sa) * (z * z)) by (nonlinear_arith)
        requires
            sa * sa == s * s,
    ;
    lemma_mul_is_distributive_add(sa * sa, x * x + y * y, z * z);
    lemma_mul_is_distributive_add(sa * sa, x * x, y * y);
    assert(nb == (sa * sa) * nx);
    lemma_scaled_root_squares(nq, m1, 65536);
    lemma_scaled_root_squares(nx, m0, sa);
    assert(m0 * sa == sa * m0) by (nonlinear_arith);
    assert(m1 >= 0 && m0 >= 0);
    assert(v >= 0) by (nonlinear_arith)
        requires
            v == m0 * sa,
            m0 >= 0,
            sa >= 0,
    ;
    // |S q| is below |s p| + |s| + 2 S
    let w = v + sa;
    lemma_norm_shift(bx, by, bz, ax - bx, ay - by, az - bz, w);
    lemma_lt_from_squares(u, w + 131072);
    // |s p| is below |S q| + 3 S
    let w2 = u + 65536;
    lemma_norm_shift(ax, ay, az, bx - ax, by - ay, bz - az, w2);
    lemma_lt_from_squares(v, w2 + 131072);
}

/// Every span of `rows` has depths that fit an `i64`.
pub open spec fn depths_fit(rows: Seq<Span>) -> bool {
    forall|k: int|
        0 <= k < rows.len() ==> i64::MIN <= (#[trigger] rows[k]).3 <= i64::MAX && i64::MIN <= rows[k].4
            <= i64::MAX
}

/// Span fills never make a cell deeper.
pub proof fn lemma_apply_rows_no_deeper(c: Canvas, w: int, h: int, rows: Seq<Span>, color: Pixel)
    requires
        w >= 0,
        h >= 0,
        c.0.len() == w * h,
        c.1.len() == w * h,
        depths_fit(rows),
    ensures
        no_deeper(apply_rows(c, w, h, rows, color), c),
    decreases rows.len(),
{
    if rows.len() > 0 {
        let r = rows.last();
        assert(depths_fit(rows.drop_last()));
        lemma_apply_rows_no_deeper(c, w, h, rows.drop_last(), color);
        let before = apply_rows(c, w, h, rows.drop_last(), color);
        assert(i64::MIN <= r.3 <= i64::MAX && i64::MIN <= r.4 <= i64::MAX);
        lemma_fill_row_no_deeper(before, w, h, r.0, r.1, r.2, r.3, r.4, color);
    }
}

/// Filling a triangle never makes a cell deeper: depths only decrease
/// between clears.
#[verifier::rlimit(50)]
pub proof fn lemma_fill_no_deeper(
    c: Canvas,
    w: int,
    h: int,
    m: Seq<Coord>,
    color: Pixel,
    light: Point,
    mode: LightingMode,
    t: Triangle,
)
    requires
        w >= 0,
        h >= 0,
        c.0.len() == w * h,
        c.1.len() == w * h,
    ensures
        no_deeper(fill_result(c, w, h, m, color, light, mode, t), c),
{
    match apply_matrix_tri(t, m) {
        None => {},
        Some(ct) => {
            let (top, middle, bot) = sort_by_y(ct.p1, ct.p2, ct.p3);
            let (first, second) = triangle_spans(top, middle, bot);
            let shade = lit_color(t, color, light, mode);
            let v4 = split_vertex(top, middle, bot);
            assert(depths_fit(flat_top_rows(top, middle, bot)));
            assert(depths_fit(flat_bottom_rows(top, middle, bot)));
            assert(depths_fit(flat_bottom_rows(top, middle, v4)));
            assert(depths_fit(flat_top_rows(middle, v4, bot)));
            assert(depths_fit(Seq::<Span>::empty()));
            lemma_apply_rows_no_deeper(c, w, h, first, shade);
            let c1 = apply_rows(c, w, h, first, shade);
            lemma_apply_rows_no_deeper(c1, w, h, second, shade);
        },
    }
}

/// Rendering an object never makes a cell deeper.
pub proof fn lemma_render_no_deeper(
    c: Canvas,
    w: int,
    h: int,
    m: Seq<Coord>,
    color: Pixel,
    light: Point,
    mode: LightingMode,
    world: Seq<Coord>,
    tris: Seq<Triangle>,
)
    requires
        w >= 0,
        h >= 0,
        c.0.len() == w * h,
        c.1.len() == w * h,
    ensures
        no_deeper(render_canvas(c, w, h, m, color, light, mode, world, tris), c),
    decreases tris.len(),
{
    if tris.len() > 0 {
        lemma_render_no_deeper(c, w, h, m, color, light, mode, world, tris.drop_last());
        let before = render_canvas(c, w, h, m, color, light, mode, world, tris.drop_last());
        match apply_matrix_tri(tris.last(), world) {
            Some(wt) => lemma_fill_no_deeper(before, w, h, m, color, light, mode, wt),
            None => {},
        }
    }
}

/// Scaling by `-ONE` negates a coordinate, saturated.
proof fn lemma_scale_by_minus_one(x: int)
    ensures
        fx_mul(x, -ONE) == sat(-x),
{
    assert(ONE == 65536);
    assert((x * -65536) / 65536 == -x) by (nonlinear_arith);
}

/// Rounding toward zero commutes with negation.
proof fn lemma_trunc_div_neg(a: int, d: int)
    requires
        d > 0,
    ensures
        trunc_div(-a, d) == -trunc_div(a, d),
{
}

/// `-p`: each coordinate negated (by scaling with `-ONE`).
proof fn lemma_neg_point(p: Point)
    requires
        p.wf(),
    ensures
        p.mul_scalar_spec(-ONE) == (Point { x: -p.x as i64, y: -p.y as i64, z: -p.z as i64 }),
        p.mul_scalar_spec(-ONE).wf(),
{
    lemma_scale_by_minus_one(p.x as int);
    lemma_scale_by_minus_one(p.y as int);
    lemma_scale_by_minus_one(p.z as int);
}

/// The cross product is anticommutative: swapping the operands negates it.
pub proof fn lemma_cross_anticommutative(a: Point, b: Point)
    ensures
        b.cross_spec(a) == a.cross_spec(b).mul_scalar_spec(-ONE),
{
    assert(ONE == 65536);
    let c = a.cross_spec(b);
    let (u, v, w) = (a.y * b.z - a.z * b.y, a.z * b.x - a.x * b.z, a.x * b.y - a.y * b.x);
    assert(b.y * a.z - b.z * a.y == -u && b.z * a.x - b.x * a.z == -v && b.x * a.y - b.y * a.x == -w)
        by (nonlinear_arith)
        requires
            u == a.y * b.z - a.z * b.y,
            v == a.z * b.x - a.x * b.z,
            w == a.x * b.y - a.y * b.x,
    ;
    lemma_trunc_div_neg(u, 65536);
    lemma_trunc_div_neg(v, 65536);
    lemma_trunc_div_neg(w, 65536);
    lemma_neg_point(c);
}

/// Normalizing commutes with negation.
proof fn lemma_unit_neg(v: Point)
    requires
        v.wf(),
    ensures
        v.mul_scalar_spec(-ONE).unit_spec() == v.unit_spec().mul_scalar_spec(-ONE),
{
    lemma_neg_point(v);
    let n = v.mul_scalar_spec(-ONE);
    let (x, y, z) = (v.x as int, v.y as int, v.z as int);
    assert(n.norm_sq() == v.norm_sq()) by (nonlinear_arith)
        requires
            n.x == -x,
            n.y == -y,
            n.z == -z,
            n.norm_sq() == n.x * n.x + n.y * n.y + n.z * n.z,
            v.norm_sq() == x * x + y * y + z * z,
    ;
    if v.norm_sq() == 0 {
        assert(x == 0 && y == 0 && z == 0) by (nonlinear_arith)
            requires
                x * x + y * y + z * z == 0,
        ;
        lemma_neg_point(v);
    } else {
        lemma_unit_bounds(v);
        let f = v.fine_magnitude();
        assert(n.fine_magnitude() == f);
        assert((-x) * 4294967296 == -(x * 4294967296) && (-y) * 4294967296 == -(y * 4294967296) && (-z)
            * 4294967296 == -(z * 4294967296)) by (nonlinear_arith);
        lemma_trunc_div_neg(x * 4294967296, f);
        lemma_trunc_div_neg(y * 4294967296, f);
        lemma_trunc_div_neg(z * 4294967296, f);
        lemma_neg_point(v.unit_spec());
    }
}

/// Bringing a vector into range commutes with negation.
proof fn lemma_shrink_neg(v: (int, int, int))
    ensures
        shrink((-v.0, -v.1, -v.2)) == shrink(v).mul_scalar_spec(-ONE),
    decreases abs_sum(v),
{
    lemma_shrink(v);
    if in_range(v.0) && in_range(v.1) && in_range(v.2) {
        lemma_neg_point(shrink(v));
    } else {
        let h = (trunc_div(v.0, 2), trunc_div(v.1, 2), trunc_div(v.2, 2));
        lemma_trunc_div_neg(v.0, 2);
        lemma_trunc_div_neg(v.1, 2);
        lemma_trunc_div_neg(v.2, 2);
        lemma_shrink_neg(h);
    }
}

/// Reversing the winding of a triangle negates its normal.
pub proof fn lemma_reversed_winding_normal(t: Triangle)
    ensures
        (Triangle { p1: t.p1, p2: t.p3, p3: t.p2 }).normal_spec() == t.normal_spec().mul_scalar_spec(-ONE),
{
    let d1 = t.p2.sub_spec(t.p1);
    let d2 = t.p3.sub_spec(t.p1);
    let c = cross_raw(d1, d2);
    assert(cross_raw(d2, d1) == (-c.0, -c.1, -c.2)) by (nonlinear_arith)
        requires
            c == cross_raw(d1, d2),
    ;
    lemma_shrink_neg(c);
    lemma_shrink(c);
    lemma_unit_neg(shrink(c));
}

/// A triangle whose vertices do not lie on one line has a normal of unit
/// length, up to rounding.
pub proof fn lemma_normal_unit_length(t: Triangle)
    requires
        cross_raw(t.p2.sub_spec(t.p1), t.p3.sub_spec(t.p1)) != (0int, 0int, 0int),
    ensures
        ONE * ONE - 6 * ONE - 3 < t.normal_spec().norm_sq() < (ONE + 1) * (ONE + 1),
{
    let c = cross_raw(t.p2.sub_spec(t.p1), t.p3.sub_spec(t.p1));
    lemma_shrink(c);
    let v = shrink(c);
    let (x, y, z) = (v.x as int, v.y as int, v.z as int);
    assert(v.norm_sq() != 0) by (nonlinear_arith)
        requires
            v.norm_sq() == x * x + y * y + z * z,
            x != 0 || y != 0 || z != 0,
    {
        if x != 0 {
            assert(x * x > 0);
        } else if y != 0 {
            assert(y * y > 0);
        } else {
            assert(z * z > 0);
        }
        assert(y * y >= 0 && z * z >= 0 && x * x >= 0);
    }
    lemma_unit_bounds(v);
}

/// The number of minor steps a walk has made from `v0` to `v` in the direction `step`.
pub open spec fn steps_made(v: int, v0: int, step: int) -> int {
    if step == 1 {
        v - v0
    } else {
        v0 - v
    }
}

/// `v0` moved `k` steps in the direction `step`.
pub open spec fn moved(v0: int, k: int, step: int) -> int {
    if step == 1 {
        v0 + k
    } else {
        v0 - k
    }
}

/// The state of an x-major walk before pixel `k`: the major coordinate has
/// moved `k` pixels, and the error is `k * ady - c * adx` for the `c` minor
/// steps made.
proof fn lemma_x_major_before(k: nat, x0: int, y0: int, adx: int, ady: int, xs: int, ys: int)
    requires
        0 <= ady <= adx,
        xs == 1 || xs == -1,
        ys == 1 || ys == -1,
    ensures
        ({
            let s = line_before(k, x0, y0, adx, ady, xs, ys);
            let c = steps_made(s.1, y0, ys);
            &&& s.0 == moved(x0, k as int, xs)
            &&& c >= 0
            &&& s.2 == k * ady - c * adx
            &&& k == 0 ==> s.2 == 0 && c == 0
            &&& k > 0 ==> -adx <= 2 * (s.2 - ady) <= adx
        }),
    decreases k,
{
    if k > 0 {
        let k1 = (k - 1) as nat;
        lemma_x_major_before(k1, x0, y0, adx, ady, xs, ys);
        let s = line_before(k1, x0, y0, adx, ady, xs, ys);
        let c = steps_made(s.1, y0, ys);
        assert(k * ady == k1 * ady + ady) by (nonlinear_arith)
            requires
                k == k1 + 1,
        ;
        assert((c + 1) * adx == c * adx + adx) by (nonlinear_arith);
    }
}

/// Pixel `k` of an x-major walk: the major coordinate has moved `k` pixels,
/// and the minor one, `c` pixels, is nearest the true line:
/// `|2 (k * ady - c * adx)| <= adx`.
pub proof fn lemma_x_major_pixel(k: nat, x0: int, y0: int, adx: int, ady: int, xs: int, ys: int)
    requires
        0 <= ady <= adx,
        xs == 1 || xs == -1,
        ys == 1 || ys == -1,
    ensures
        ({
            let p = line_pixel(k, x0, y0, adx, ady, xs, ys);
            let c = steps_made(p.1, y0, ys);
            &&& p.0 == moved(x0, k as int, xs)
            &&& -adx <= 2 * (k * ady - c * adx) <= adx
        }),
{
    lemma_x_major_before(k, x0, y0, adx, ady, xs, ys);
    let s = line_before(k, x0, y0, adx, ady, xs, ys);
    let c = steps_made(s.1, y0, ys);
    assert((c + 1) * adx == c * adx + adx) by (nonlinear_arith);
}

/// The state of a y-major walk before pixel `k` (the walk with the roles of
/// the axes exchanged).
proof fn lemma_y_major_before(k: nat, x0: int, y0: int, adx: int, ady: int, xs: int, ys: int)
    requires
        0 <= adx < ady,
        xs == 1 || xs == -1,
        ys == 1 || ys == -1,
    ensures
        ({
            let s = line_before(k, x0, y0, adx, ady, xs, ys);
            let c = steps_made(s.0, x0, xs);
            &&& s.1 == moved(y0, k as int, ys)
            &&& c >= 0
            &&& s.2 == k * adx - c * ady
            &&& k == 0 ==> s.2 == 0 && c == 0
            &&& k > 0 ==> -ady <= 2 * (s.2 - adx) <= ady
        }),
    decreases k,
{
    if k > 0 {
        let k1 = (k - 1) as nat;
        lemma_y_major_before(k1, x0, y0, adx, ady, xs, ys);
        let s = line_before(k1, x0, y0, adx, ady, xs, ys);
        let c = steps_made(s.0, x0, xs);
        assert(k * adx == k1 * adx + adx) by (nonlinear_arith)
            requires
                k == k1 + 1,
        ;
        assert((c + 1) * ady == c * ady + ady) by (nonlinear_arith);
    }
}

/// Pixel `k` of a y-major walk: `y` has moved `k` pixels, and `x`, `c`
/// pixels, is nearest the true line: `|2 (k * adx - c * ady)| <= ady`.
pub proof fn lemma_y_major_pixel(k: nat, x0: int, y0: int, adx: int, ady: int, xs: int, ys: int)
    requires
        0 <= adx < ady,
        xs == 1 || xs == -1,
        ys == 1 || ys == -1,
    ensures
        ({
            let p = line_pixel(k, x0, y0, adx, ady, xs, ys);
            let c = steps_made(p.0, x0, xs);
            &&& p.1 == moved(y0, k as int, ys)
            &&& -ady <= 2 * (k * adx - c * ady) <= ady
        }),
{
    lemma_y_major_before(k, x0, y0, adx, ady, xs, ys);
    let s = line_before(k, x0, y0, adx, ady, xs, ys);
    let c = steps_made(s.0, x0, xs);
    assert((c + 1) * ady == c * ady + ady) by (nonlinear_arith);
}

/// The last pixel of the line from `(x1, y1)` to `(x2, y2)` is `(x2, y2)`.
pub proof fn lemma_line_ends_on_endpoint(x1: int, y1: int, x2: int, y2: int)
    ensures
        ({
            let adx = abs(x2 - x1);
            let ady = abs(y2 - y1);
            let xs = if x2 > x1 { 1int } else { -1int };
            let ys = if y2 > y1 { 1int } else { -1int };
            let last: nat = if adx >= ady { adx as nat } else { ady as nat };
            let p = line_pixel(last, x1, y1, adx, ady, xs, ys);
            p.0 == x2 && p.1 == y2
        }),
{
    let adx = abs(x2 - x1);
    let ady = abs(y2 - y1);
    let xs = if x2 > x1 { 1int } else { -1int };
    let ys = if y2 > y1 { 1int } else { -1int };
    if adx >= ady {
        lemma_x_major_pixel(adx as nat, x1, y1, adx, ady, xs, ys);
        let p = line_pixel(adx as nat, x1, y1, adx, ady, xs, ys);
        let c = steps_made(p.1, y1, ys);
        if adx == 0 {
            assert(line_before(0, x1, y1, adx, ady, xs, ys) == (x1, y1, 0int));
        } else {
            assert(c == ady) by (nonlinear_arith)
                requires
                    -adx <= 2 * (adx * ady - c * adx) <= adx,
                    adx >= ady >= 0,
                    adx > 0,
            {
                if c < ady {
                    assert(adx * ady - c * adx >= adx) by {
                        assert(adx * ady - c * adx == adx * (ady - c));
                        assert(adx * (ady - c) >= adx * 1);
                    }
                }
                if c > ady {
                    assert(adx * ady - c * adx <= -adx) by {
                        assert(adx * ady - c * adx == adx * (ady - c));
                        assert(adx * (c - ady) >= adx * 1);
                    }
                }
            }
        }
    } else {
        lemma_y_major_pixel(ady as nat, x1, y1, adx, ady, xs, ys);
        let p = line_pixel(ady as nat, x1, y1, adx, ady, xs, ys);
        let c = steps_made(p.0, x1, xs);
        assert(c == adx) by (nonlinear_arith)
            requires
                -ady <= 2 * (ady * adx - c * ady) <= ady,
                ady > adx >= 0,
        {
            if c < adx {
                assert(ady * adx - c * ady >= ady) by {
                    assert(ady * adx - c * ady == ady * (adx - c));
                    assert(ady * (adx - c) >= ady * 1);
                }
            }
            if c > adx {
                assert(ady * adx - c * ady <= -ady) by {
                    assert(ady * adx - c * ady == ady * (adx - c));
                    assert(ady * (c - adx) >= ady * 1);
                }
            }
        }
    }
}

/// `c` with `color` at depth `z` written, depth tested, into each cell that
/// `cov` holds.
pub open spec fn const_fill(c: Canvas, cov: spec_fn(int) -> bool, z: int, color: Pixel) -> Canvas {
    (
        Seq::new(c.0.len(), |i: int| if cov(i) && z < c.1[i] { color } else { c.0[i] }),
        Seq::new(c.1.len(), |i: int| if cov(i) && z < c.1[i] { z as Coord } else { c.1[i] }),
    )
}

/// Two fills at one depth in one color make one fill of the cells of both.
proof fn lemma_const_fill_merge(
    c: Canvas,
    a: spec_fn(int) -> bool,
    b: spec_fn(int) -> bool,
    d: spec_fn(int) -> bool,
    z: int,
    color: Pixel,
)
    requires
        c.0.len() == c.1.len(),
        i64::MIN <= z <= i64::MAX,
        forall|i: int| #[trigger] d(i) == (a(i) || b(i)),
    ensures
        const_fill(const_fill(c, a, z, color), b, z, color) == const_fill(c, d, z, color),
{
    let l = const_fill(const_fill(c, a, z, color), b, z, color);
    let r = const_fill(c, d, z, color);
    assert(l.0 =~= r.0);
    assert(l.1 =~= r.1);
}

/// The cells of row `y` from column `from` up to, not including, `to`.
pub open spec fn run_cells(w: int, y: int, from: int, to: int) -> spec_fn(int) -> bool {
    |i: int| y * w + from <= i < y * w + to
}

/// A span of one depth fills its cells as one constant fill.
proof fn lemma_plot_span_const(
    c: Canvas,
    w: int,
    h: int,
    y: int,
    x1: int,
    x2: int,
    z: int,
    color: Pixel,
    from: int,
    to: int,
)
    requires
        c.0.len() == w * h,
        c.1.len() == w * h,
        0 <= y < h,
        0 <= from,
        to <= w,
        x1 < x2,
        i64::MIN <= z <= i64::MAX,
    ensures
        plot_span(c, w, y, x1, x2, z, z, color, from, to) == const_fill(c, run_cells(w, y, from, to), z, color),
    decreases to - from,
{
    let r = const_fill(c, run_cells(w, y, from, to), z, color);
    if from >= to {
        assert forall|i: int| !(#[trigger] run_cells(w, y, from, to)(i)) by {}
        assert(r.0 =~= c.0);
        assert(r.1 =~= c.1);
    } else {
        let j = y * w + from;
        lemma_index(from, y, w, h);
        assert((z - z) * (from - x1) == 0);
        let c1 = plot(c, j, z, color);
        lemma_plot_span_const(c1, w, h, y, x1, x2, z, color, from + 1, to);
        let l = const_fill(c1, run_cells(w, y, from + 1, to), z, color);
        assert forall|i: int| 0 <= i < w * h implies l.0[i] == r.0[i] && l.1[i] == r.1[i] by {
            assert(run_cells(w, y, from, to)(i) == (i == j || run_cells(w, y, from + 1, to)(i)));
        }
        assert(l.0 =~= r.0);
        assert(l.1 =~= r.1);
    }
}

/// The cells that the span `r` fills in a `w` x `h` texture.
pub open spec fn span_cells(w: int, h: int, r: Span) -> spec_fn(int) -> bool {
    if r.2 < 0 || r.2 >= h || r.1 <= r.0 || r.1 < 0 || r.0 >= w {
        |i: int| false
    } else {
        let start = if r.0 < 0 { 0 } else { r.0 };
        let end = if r.1 > w - 1 { w - 1 } else { r.1 };
        run_cells(w, r.2, start, end + 1)
    }
}

/// The cells that the spans `rows` fill.
pub open spec fn rows_cells(w: int, h: int, rows: Seq<Span>) -> spec_fn(int) -> bool {
    |i: int| exists|k: int| 0 <= k < rows.len() && (#[trigger] span_cells(w, h, rows[k]))(i)
}

/// Every span of `rows` has the depth `z` at both ends.
pub open spec fn rows_at_depth(rows: Seq<Span>, z: int) -> bool {
    forall|k: int| 0 <= k < rows.len() ==> (#[trigger] rows[k]).3 == z && rows[k].4 == z
}

/// Spans of one depth fill their cells as one constant fill.
proof fn lemma_apply_rows_const(c: Canvas, w: int, h: int, rows: Seq<Span>, z: int, color: Pixel)
    requires
        w >= 0,
        h >= 0,
        c.0.len() == w * h,
        c.1.len() == w * h,
        rows_at_depth(rows, z),
        i64::MIN <= z <= i64::MAX,
    ensures
        apply_rows(c, w, h, rows, color) == const_fill(c, rows_cells(w, h, rows), z, color),
    decreases rows.len(),
{
    let r = const_fill(c, rows_cells(w, h, rows), z, color);
    if rows.len() == 0 {
        assert forall|i: int| !(#[trigger] rows_cells(w, h, rows)(i)) by {}
        assert(r.0 =~= c.0);
        assert(r.1 =~= c.1);
    } else {
        let pre = rows.drop_last();
        let last = rows.last();
        assert(rows_at_depth(pre, z));
        lemma_apply_rows_const(c, w, h, pre, z, color);
        let c1 = const_fill(c, rows_cells(w, h, pre), z, color);
        assert(last.3 == z && last.4 == z);
        if !(last.2 < 0 || last.2 >= h || last.1 <= last.0 || last.1 < 0 || last.0 >= w) {
            let start = if last.0 < 0 { 0 } else { last.0 };
            let end = if last.1 > w - 1 { w - 1 } else { last.1 };
            lemma_plot_span_const(c1, w, h, last.2, last.0, last.1, z, color, start, end + 1);
        } else {
            let e = const_fill(c1, span_cells(w, h, last), z, color);
            assert(e.0 =~= c1.0);
            assert(e.1 =~= c1.1);
        }
        assert forall|i: int| #[trigger] rows_cells(w, h, rows)(i) == (rows_cells(w, h, pre)(i) || span_cells(w, h, last)(i)) by {
            if rows_cells(w, h, rows)(i) {
                let k = choose|k: int| 0 <= k < rows.len() && (#[trigger] span_cells(w, h, rows[k]))(i);
                if k < rows.len() - 1 {
                    assert(pre[k] == rows[k]);
                }
            }
            if rows_cells(w, h, pre)(i) {
                let k = choose|k: int| 0 <= k < pre.len() && (#[trigger] span_cells(w, h, pre[k]))(i);
                assert(rows[k] == pre[k]);
            }
            if span_cells(w, h, last)(i) {
                assert(span_cells(w, h, rows[rows.len() - 1])(i));
            }
        }
        lemma_const_fill_merge(c, rows_cells(w, h, pre), span_cells(w, h, last), rows_cells(w, h, rows), z, color);
    }
}

/// Two constant fills at different depths give the same result in either
/// order.
proof fn lemma_const_fills_commute(
    c: Canvas,
    a: spec_fn(int) -> bool,
    za: int,
    ca: Pixel,
    b: spec_fn(int) -> bool,
    zb: int,
    cb: Pixel,
)
    requires
        c.0.len() == c.1.len(),
        za != zb,
        i64::MIN <= za <= i64::MAX,
        i64::MIN <= zb <= i64::MAX,
    ensures
        const_fill(const_fill(c, a, za, ca), b, zb, cb) == const_fill(const_fill(c, b, zb, cb), a, za, ca),
{
    let l = const_fill(const_fill(c, a, za, ca), b, zb, cb);
    let r = const_fill(const_fill(c, b, zb, cb), a, za, ca);
    assert(l.0 =~= r.0);
    assert(l.1 =~= r.1);
}

/// Every vertex of the image of `t` under `m`, where it has one, lies at
/// depth `z`.
pub open spec fn image_at_depth(t: Triangle, m: Seq<Coord>, z: int) -> bool {
    apply_matrix_tri(t, m) matches Some(a) ==> a.p1.z == z && a.p2.z == z && a.p3.z == z
}

/// The cells that filling `t` through `m` writes to (before the depth
/// test): none where it has no image or faces away, else those of its spans.
pub open spec fn fill_cells(w: int, h: int, m: Seq<Coord>, t: Triangle) -> spec_fn(int) -> bool {
    match apply_matrix_tri(t, m) {
        None => |i: int| false,
        Some(ct) => if faces_away(t, ct) {
            |i: int| false
        } else {
            let (top, middle, bot) = sort_by_y(ct.p1, ct.p2, ct.p3);
            let (first, second) = triangle_spans(top, middle, bot);
            |i: int| rows_cells(w, h, first)(i) || rows_cells(w, h, second)(i)
        },
    }
}

/// The spans of a triangle with all vertices at depth `z` lie at depth `z`.
proof fn lemma_spans_at_depth(top: Point, middle: Point, bot: Point, z: int)
    requires
        top.z == z,
        middle.z == z,
        bot.z == z,
        in_range(z),
    ensures
        rows_at_depth(triangle_spans(top, middle, bot).0, z),
        rows_at_depth(triangle_spans(top, middle, bot).1, z),
{
    assert forall|a: Point, b: Point, c: Point| a.z == z && b.z == z && c.z == z implies rows_at_depth(
        #[trigger] flat_top_rows(a, b, c),
        z,
    ) && rows_at_depth(flat_bottom_rows(a, b, c), z) by {
        assert forall|n: int| #![trigger (z - z) * n] (z - z) * n == 0 by {}
    }
    assert(split_vertex(top, middle, bot).z == z) by {
        assert((z - z) * (middle.y - top.y) == 0);
    }
    assert(rows_at_depth(Seq::<Span>::empty(), z));
}

/// Filling a triangle whose image lies at one depth `z` is a constant fill
/// of its cells.
proof fn lemma_fill_const(
    c: Canvas,
    w: int,
    h: int,
    m: Seq<Coord>,
    color: Pixel,
    light: Point,
    mode: LightingMode,
    t: Triangle,
    z: int,
)
    requires
        w >= 0,
        h >= 0,
        c.0.len() == w * h,
        c.1.len() == w * h,
        image_at_depth(t, m, z),
        in_range(z),
    ensures
        fill_result(c, w, h, m, color, light, mode, t) == const_fill(
            c,
            fill_cells(w, h, m, t),
            z,
            lit_color(t, color, light, mode),
        ),
{
    let shade = lit_color(t, color, light, mode);
    let r = const_fill(c, fill_cells(w, h, m, t), z, shade);
    match apply_matrix_tri(t, m) {
        None => {
            assert(r.0 =~= c.0);
            assert(r.1 =~= c.1);
        },
        Some(ct) => {
            if faces_away(t, ct) {
                assert(r.0 =~= c.0);
                assert(r.1 =~= c.1);
            } else {
                let (top, middle, bot) = sort_by_y(ct.p1, ct.p2, ct.p3);
                let (first, second) = triangle_spans(top, middle, bot);
                lemma_spans_at_depth(top, middle, bot, z);
                lemma_apply_rows_const(c, w, h, first, z, shade);
                let c1 = apply_rows(c, w, h, first, shade);
                lemma_apply_rows_const(c1, w, h, second, z, shade);
                lemma_const_fill_merge(c, rows_cells(w, h, first), rows_cells(w, h, second), fill_cells(w, h, m, t), z, shade);
            }
        },
    }
}

/// The depth test makes the image independent of drawing order: two
/// triangles whose images lie at different depths `z1` and `z2` give the same
/// canvas drawn either way round, and where their cells overlap on a cell
/// that either could take, the nearer one's color and depth show.
pub proof fn lemma_fill_order_independent(
    c: Canvas,
    w: int,
    h: int,
    m: Seq<Coord>,
    light: Point,
    mode: LightingMode,
    t1: Triangle,
    color1: Pixel,
    z1: int,
    t2: Triangle,
    color2: Pixel,
    z2: int,
)
    requires
        w >= 0,
        h >= 0,
        c.0.len() == w * h,
        c.1.len() == w * h,
        image_at_depth(t1, m, z1),
        image_at_depth(t2, m, z2),
        in_range(z1),
        in_range(z2),
        z1 != z2,
    ensures
        ({
            let a = fill_result(fill_result(c, w, h, m, color1, light, mode, t1), w, h, m, color2, light, mode, t2);
            let b = fill_result(fill_result(c, w, h, m, color2, light, mode, t2), w, h, m, color1, light, mode, t1);
            &&& a == b
            &&& forall|i: int|
                0 <= i < w * h && fill_cells(w, h, m, t1)(i) && z1 < z2 && z1 < c.1[i] ==> a.0[i]
                    == lit_color(t1, color1, light, mode) && #[trigger] a.1[i] == z1
        }),
{
    let s1 = lit_color(t1, color1, light, mode);
    let s2 = lit_color(t2, color2, light, mode);
    let f1 = fill_cells(w, h, m, t1);
    let f2 = fill_cells(w, h, m, t2);
    lemma_fill_const(c, w, h, m, color1, light, mode, t1, z1);
    let a1 = fill_result(c, w, h, m, color1, light, mode, t1);
    lemma_fill_const(a1, w, h, m, color2, light, mode, t2, z2);
    lemma_fill_const(c, w, h, m, color2, light, mode, t2, z2);
    let b1 = fill_result(c, w, h, m, color2, light, mode, t2);
    lemma_fill_const(b1, w, h, m, color1, light, mode, t1, z1);
    lemma_const_fills_commute(c, f1, z1, s1, f2, z2, s2);
}

/// A rotation by a full turn, whose cosine is one and sine zero, is the
/// identity, about each axis.
pub proof fn lemma_full_turn_is_identity()
    ensures
        rotate_x_matrix(ONE, 0) == identity_matrix(),
        rotate_y_matrix(ONE, 0) == identity_matrix(),
        rotate_z_matrix(ONE, 0) == identity_matrix(),
{
    assert(rotate_x_matrix(ONE, 0) =~= identity_matrix());
    assert(rotate_y_matrix(ONE, 0) =~= identity_matrix());
    assert(rotate_z_matrix(ONE, 0) =~= identity_matrix());
}

/// Rotating an object by a full turn, about any axis, leaves the image that
/// rendering it produces unchanged.
pub proof fn lemma_full_turn_renders_same(
    c: Canvas,
    w: int,
    h: int,
    m: Seq<Coord>,
    color: Pixel,
    light: Point,
    mode: LightingMode,
    translation: Seq<Coord>,
    rotation: Seq<Coord>,
    scaling: Seq<Coord>,
    tris: Seq<Triangle>,
)
    requires
        wf_matrix(rotation),
    ensures
        ({
            let before = render_canvas(c, w, h, m, color, light, mode, world_matrix(translation, rotation, scaling), tris);
            &&& render_canvas(
                c,
                w,
                h,
                m,
                color,
                light,
                mode,
                world_matrix(translation, mat_mul(rotate_x_matrix(ONE, 0), rotation), scaling),
                tris,
            ) == before
            &&& render_canvas(
                c,
                w,
                h,
                m,
                color,
                light,
                mode,
                world_matrix(translation, mat_mul(rotate_y_matrix(ONE, 0), rotation), scaling),
                tris,
            ) == before
            &&& render_canvas(
                c,
                w,
                h,
                m,
                color,
                light,
                mode,
                world_matrix(translation, mat_mul(rotate_z_matrix(ONE, 0), rotation), scaling),
                tris,
            ) == before
        }),
{
    lemma_full_turn_is_identity();
    lemma_identity_mul(rotation);
}

/// After a clear, a cell shows the background and takes the next depth-tested
/// write at any depth short of `DEPTH_FAR`.
pub proof fn lemma_cleared_cell_takes_next_draw(c: Canvas, i: int, z: int, color: Pixel)
    requires
        0 <= i < c.1.len(),
        c.0.len() == c.1.len(),
        c.1[i] == DEPTH_FAR,
        i64::MIN <= z < DEPTH_FAR,
    ensures
        plot(c, i, z, color).0[i] == color,
        plot(c, i, z, color).1[i] == z,
{
}

/// Two depth-tested writes of different depths to one cell give the same
/// result in either order: the nearer one shows.
pub proof fn lemma_depth_writes_commute(c: Canvas, i: int, z1: int, c1: Pixel, z2: int, c2: Pixel)
    requires
        0 <= i < c.0.len(),
        c.0.len() == c.1.len(),
        z1 != z2,
        i64::MIN <= z1 <= i64::MAX,
        i64::MIN <= z2 <= i64::MAX,
    ensures
        plot(plot(c, i, z1, c1), i, z2, c2) == plot(plot(c, i, z2, c2), i, z1, c1),
{
    let a = plot(plot(c, i, z1, c1), i, z2, c2);
    let b = plot(plot(c, i, z2, c2), i, z1, c1);
    assert(a.0 =~= b.0);
    assert(a.1 =~= b.1);
}

/// A span whose end lies left of, or at, its start writes nothing.
pub proof fn lemma_reversed_span_writes_nothing(
    c: Canvas,
    w: int,
    h: int,
    x1: int,
    x2: int,
    y: int,
    z1: int,
    z2: int,
    color: Pixel,
)
    requires
        x2 <= x1,
    ensures
        fill_row(c, w, h, x1, x2, y, z1, z2, color) == c,
{
}

/// A triangle whose top two vertices share their `y` is filled as one
/// flat-top triangle, without a split vertex.
pub proof fn lemma_flat_top_not_split(top: Point, middle: Point, bot: Point)
    requires
        top.y == middle.y,
    ensures
        triangle_spans(top, middle, bot) == (flat_top_rows(top, middle, bot), Seq::<(int, int, int, int, int)>::empty()),
{
}

} // verus!
