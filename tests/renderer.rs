use rusterize::fixed::ONE;
use rusterize::geometry::{Point, Transform, Triangle};
use rusterize::pixel::{black, blue, red, white, Pixel};
use rusterize::renderer::{LightingMode, Renderer};
use rusterize::texture::DEPTH_FAR;

fn pt(x: i64, y: i64, z: i64) -> Point {
    Point { x, y, z }
}

fn lit(r: &Renderer) -> Vec<(u32, u32)> {
    let t = r.texture();
    let mut v = Vec::new();
    for y in 0..t.h {
        for x in 0..t.w {
            if t.pixel_at(x, y) != black() {
                v.push((x, y));
            }
        }
    }
    v
}

#[test]
fn front_facing_triangle_is_drawn() {
    let mut r = Renderer::new(4, 4);
    r.fill_triangle(Triangle::new(pt(0, 0, -ONE), pt(ONE, 0, -ONE), pt(0, ONE, -ONE)));
    assert_eq!(lit(&r), vec![(0, 0), (1, 0)]);
    assert_eq!(r.texture().depth_at(0, 0), -ONE);
}

#[test]
fn back_facing_triangle_is_culled() {
    let mut r = Renderer::new(4, 4);
    r.fill_triangle(Triangle::new(pt(0, 0, -ONE), pt(0, ONE, -ONE), pt(ONE, 0, -ONE)));
    assert!(lit(&r).is_empty());
    for y in 0..4 {
        for x in 0..4 {
            assert_eq!(r.texture().depth_at(x, y), DEPTH_FAR);
        }
    }
}

#[test]
fn flat_top_triangle_rows() {
    let mut r = Renderer::new(8, 8);
    r.fill_triangle(Triangle::new(pt(0, 0, -ONE), pt(4 * ONE, 0, -ONE), pt(0, 4 * ONE, -ONE)));
    let mut expected = Vec::new();
    for y in 0..4u32 {
        for x in 0..(5 - y) {
            expected.push((x, y));
        }
    }
    assert_eq!(lit(&r), expected);
}

#[test]
fn split_triangle_covers_both_halves() {
    let mut r = Renderer::new(10, 10);
    r.fill_triangle(Triangle::new(pt(ONE, ONE, -ONE), pt(8 * ONE, 4 * ONE, -ONE), pt(2 * ONE, 8 * ONE, -ONE)));
    let v = lit(&r);
    assert!(v.contains(&(2, 2)));
    assert!(!v.contains(&(1, 1)));
    assert!(v.contains(&(5, 4)));
    assert!(v.contains(&(2, 7)));
    assert!(!v.contains(&(9, 9)));
}

fn near_and_far(near_first: bool) -> Vec<Pixel> {
    let mut r = Renderer::new(10, 10);
    let near = Triangle::new(pt(0, 0, ONE), pt(0, 8 * ONE, ONE), pt(8 * ONE, 0, ONE));
    let far = Triangle::new(pt(0, 0, 5 * ONE), pt(0, 8 * ONE, 5 * ONE), pt(8 * ONE, 0, 5 * ONE));
    let order = if near_first { [(near, red()), (far, blue())] } else { [(far, blue()), (near, red())] };
    for (t, c) in order {
        r.set_color(c);
        r.fill_triangle(t);
    }
    r.texture().pixels.clone()
}

#[test]
fn depth_test_is_order_independent() {
    let a = near_and_far(true);
    let b = near_and_far(false);
    assert_eq!(a, b);
    assert_eq!(a[1 * 10 + 1], red());
    assert!(!a.contains(&blue()));
}

#[test]
fn flat_shading_scales_color() {
    let t = Triangle::new(pt(0, 0, -ONE), pt(ONE, 0, -ONE), pt(0, ONE, -ONE));
    let mut r = Renderer::new(4, 4);
    r.set_lighting_mode(LightingMode::FlatShading);
    r.set_light_pos(pt(21845, 21845, 10 * ONE));
    r.fill_triangle(t);
    assert_eq!(r.texture().pixel_at(0, 0), white());
    assert_eq!(r.color, white());
    let mut r = Renderer::new(4, 4);
    r.set_lighting_mode(LightingMode::FlatShading);
    r.set_light_pos(pt(21845, 21845, -10 * ONE));
    r.fill_triangle(t);
    assert_eq!(r.texture().pixel_at(0, 0), black());
    assert_eq!(r.texture().depth_at(0, 0), -ONE);
}

#[test]
fn draw_line_diagonal_and_horizontal() {
    let mut r = Renderer::new(5, 5);
    r.draw_line(pt(0, 0, 0), pt(3 * ONE, 3 * ONE, 0));
    assert_eq!(lit(&r), vec![(0, 0), (1, 1), (2, 2), (3, 3)]);
    assert_eq!(r.texture().depth_at(2, 2), DEPTH_FAR);
    let mut r = Renderer::new(5, 5);
    r.draw_line(pt(3 * ONE, 4 * ONE, 0), pt(0, 4 * ONE, 0));
    assert_eq!(lit(&r), vec![(0, 4), (1, 4), (2, 4), (3, 4)]);
}

#[test]
fn lines_ignore_depth() {
    let mut r = Renderer::new(5, 5);
    r.fill_triangle(Triangle::new(pt(0, 0, -ONE), pt(4 * ONE, 0, -ONE), pt(0, 4 * ONE, -ONE)));
    r.set_color(red());
    r.draw_line(pt(0, 0, 0), pt(2 * ONE, 0, 0));
    assert_eq!(r.texture().pixel_at(1, 0), red());
    assert_eq!(r.texture().depth_at(1, 0), -ONE);
}

#[test]
fn draw_triangle_outline() {
    let mut r = Renderer::new(6, 6);
    r.draw_triangle(Triangle::new(pt(0, 0, 0), pt(4 * ONE, 0, 0), pt(0, 4 * ONE, 0)));
    let v = lit(&r);
    assert!(v.contains(&(0, 0)) && v.contains(&(4, 0)) && v.contains(&(0, 4)) && v.contains(&(2, 2)));
    assert!(!v.contains(&(1, 1)));
}

#[test]
fn draw_point_square() {
    let mut r = Renderer::new(12, 12);
    r.draw_point(pt(5 * ONE, 5 * ONE, 0));
    let v = lit(&r);
    assert_eq!(v.len(), 49);
    assert!(v.contains(&(2, 2)) && v.contains(&(8, 8)));
    assert_eq!(r.texture().depth_at(5, 5), i64::MIN);
}

#[test]
fn point_and_line_with_transform_restore() {
    let mut r = Renderer::new(12, 12);
    let shift = Transform::translate(pt(2 * ONE, 0, 0));
    r.draw_point_with_transform(pt(3 * ONE, 5 * ONE, 0), shift);
    assert_eq!(r.texture().pixel_at(8, 5), white());
    assert_eq!(r.texture().pixel_at(1, 5), black());
    r.draw_line_with_transform(pt(0, 11 * ONE, 0), pt(ONE, 11 * ONE, 0), shift);
    assert_eq!(r.texture().pixel_at(2, 11), white());
    assert_eq!(r.texture().pixel_at(0, 11), black());
    assert_eq!(Some(pt(ONE, ONE, 0)), pt(ONE, ONE, 0).mul_transform(&r.transform));
}

#[test]
fn transform_mutators_compose() {
    let mut r = Renderer::new(2, 2);
    r.translate(pt(ONE, 0, 0));
    r.scale(2 * ONE, 2 * ONE, 2 * ONE);
    assert_eq!(pt(ONE, 0, 0).mul_transform(&r.transform), Some(pt(4 * ONE, 0, 0)));
    r.rotate_z(0, ONE);
    assert_eq!(pt(ONE, 0, 0).mul_transform(&r.transform), Some(pt(0, -4 * ONE, 0)));
    r.rotate_x(ONE, 0);
    r.rotate_y(ONE, 0);
    assert_eq!(pt(ONE, 0, 0).mul_transform(&r.transform), Some(pt(0, -4 * ONE, 0)));
    r.clear_transform();
    r.perspective();
    assert_eq!(pt(2 * ONE, 0, -2 * ONE).mul_transform(&r.transform), Some(pt(ONE, 0, ONE)));
    r.set_transform(Transform::identity());
    assert_eq!(pt(2 * ONE, 0, -2 * ONE).mul_transform(&r.transform), Some(pt(2 * ONE, 0, -2 * ONE)));
}

#[test]
fn renderer_clear_resets_texture() {
    let mut r = Renderer::new(4, 4);
    r.draw_point(pt(ONE, ONE, 0));
    r.clear();
    assert!(lit(&r).is_empty());
    assert_eq!(r.texture().depth_at(1, 1), DEPTH_FAR);
}
