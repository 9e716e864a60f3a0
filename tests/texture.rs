use rusterize::fixed::ONE;
use rusterize::pixel::{black, red, white, Pixel};
use rusterize::texture::{clamp, Texture, DEPTH_FAR};

#[test]
fn new_texture_is_black_and_far() {
    let t = Texture::new(3, 2);
    assert_eq!(t.pixels.len(), 6);
    for y in 0..2 {
        for x in 0..3 {
            assert_eq!(t.pixel_at(x, y), black());
            assert_eq!(t.depth_at(x, y), DEPTH_FAR);
        }
    }
}

#[test]
fn set_pixel_depth_test_is_strict() {
    let mut t = Texture::new(4, 4);
    t.set_pixel(1, 2, 5 * ONE, red());
    assert_eq!(t.pixel_at(1, 2), red());
    assert_eq!(t.depth_at(1, 2), 5 * ONE);
    t.set_pixel(1, 2, 5 * ONE, white());
    assert_eq!(t.pixel_at(1, 2), red());
    t.set_pixel(1, 2, 6 * ONE, white());
    assert_eq!(t.pixel_at(1, 2), red());
    t.set_pixel(1, 2, 4 * ONE, white());
    assert_eq!(t.pixel_at(1, 2), white());
    assert_eq!(t.depth_at(1, 2), 4 * ONE);
}

#[test]
fn set_pixel_outside_is_ignored() {
    let mut t = Texture::new(4, 4);
    t.set_pixel(-1, 0, 0, red());
    t.set_pixel(0, -1, 0, red());
    t.set_pixel(4, 0, 0, red());
    t.set_pixel(0, 4, 0, red());
    assert!(t.pixels.iter().all(|p| *p == black()));
}

#[test]
fn set_row_interpolates_depth() {
    let mut t = Texture::new(6, 2);
    t.set_row(0, 4, 1, 0, 4 * ONE, red());
    for x in 0..5 {
        assert_eq!(t.pixel_at(x, 1), red());
        assert_eq!(t.depth_at(x, 1), x as i64 * ONE);
    }
    assert_eq!(t.pixel_at(5, 1), black());
    for x in 0..6 {
        assert_eq!(t.pixel_at(x, 0), black());
    }
}

#[test]
fn set_row_clips_to_width() {
    let mut t = Texture::new(4, 1);
    t.set_row(-2, 10, 0, 0, 12 * ONE, red());
    for x in 0..4 {
        assert_eq!(t.pixel_at(x, 0), red());
    }
    assert_eq!(t.depth_at(0, 0), 2 * ONE);
    assert_eq!(t.depth_at(3, 0), 5 * ONE);
}

#[test]
fn set_row_reversed_span_is_noop() {
    let mut t = Texture::new(8, 8);
    t.set_row(5, 2, 3, 0, 0, red());
    t.set_row(4, 4, 3, 0, 0, red());
    assert!(t.pixels.iter().all(|p| *p == black()));
    for x in 0..8 {
        assert_eq!(t.depth_at(x, 3), DEPTH_FAR);
    }
}

#[test]
fn set_row_outside_rows_is_noop() {
    let mut t = Texture::new(4, 4);
    t.set_row(0, 3, -1, 0, 0, red());
    t.set_row(0, 3, 4, 0, 0, red());
    t.set_row(-5, -1, 0, 0, 0, red());
    t.set_row(4, 9, 0, 0, 0, red());
    assert!(t.pixels.iter().all(|p| *p == black()));
}

#[test]
fn clear_resets_colors_and_depths() {
    let mut t = Texture::new(3, 3);
    t.set_row(0, 2, 1, -ONE, -ONE, red());
    t.set_pixel(0, 0, i64::MIN, white());
    t.clear();
    for y in 0..3 {
        for x in 0..3 {
            assert_eq!(t.pixel_at(x, y), black());
            assert_eq!(t.depth_at(x, y), DEPTH_FAR);
        }
    }
    t.set_pixel(1, 1, DEPTH_FAR - 1, red());
    assert_eq!(t.pixel_at(1, 1), red());
}

#[test]
fn put_pixel_skips_depth_test() {
    let mut t = Texture::new(2, 2);
    t.set_pixel(0, 0, i64::MIN, red());
    t.put_pixel(0, 0, white());
    assert_eq!(t.pixel_at(0, 0), white());
    assert_eq!(t.depth_at(0, 0), i64::MIN);
    t.put_pixel(2, 0, white());
    assert_eq!(t.pixel_at(1, 0), black());
}

#[test]
fn set_all_pixels_keeps_depths() {
    let mut t = Texture::new(2, 2);
    t.set_pixel(1, 1, ONE, red());
    let c = Pixel { r: 1, g: 2, b: 3 };
    t.set_all_pixels(c);
    assert!(t.pixels.iter().all(|p| *p == c));
    assert_eq!(t.depth_at(1, 1), ONE);
    assert_eq!(t.depth_at(0, 0), DEPTH_FAR);
}

#[test]
fn clamp_limits() {
    assert_eq!(clamp(5, 0, 3), 3);
    assert_eq!(clamp(-5, 0, 3), 0);
    assert_eq!(clamp(2, 0, 3), 2);
}

#[test]
fn texture_as_text() {
    let mut t = Texture::new(2, 1);
    t.set_pixel(1, 0, 0, white());
    let text: String = t.to_text().iter().collect();
    assert_eq!(text, "-------\n|   X |\n-------\n");
    let e = Texture::new(1, 2);
    let text: String = e.to_text().iter().collect();
    assert_eq!(text, "-----\n|   |\n|   |\n-----\n");
}
