use rusterize::fixed::{Coord, ONE};
use rusterize::geometry::{Point, Transform};
use rusterize::mesh::{group_triangles, parse_coord, parse_count, parse_mesh, parse_vertex, split_bytes, split_fields, MeshError};
use rusterize::object::Object;
use rusterize::pixel::Pixel;
use rusterize::renderer::Renderer;

fn pt(x: i64, y: i64, z: i64) -> Point {
    Point { x, y, z }
}

fn to_fixed(v: f64) -> Coord {
    (v * ONE as f64) as Coord
}

fn unit_cube_vertices() -> Vec<Point> {
    let h = ONE / 2;
    let c = |i: usize| pt(if i & 1 == 0 { -h } else { h }, if i & 2 == 0 { -h } else { h }, if i & 4 == 0 { -h } else { h });
    let faces: [[usize; 4]; 6] = [[0, 2, 3, 1], [4, 5, 7, 6], [0, 1, 5, 4], [2, 6, 7, 3], [0, 4, 6, 2], [1, 3, 7, 5]];
    let mut v = Vec::new();
    for f in faces.iter() {
        v.extend_from_slice(&[c(f[0]), c(f[1]), c(f[2]), c(f[0]), c(f[2]), c(f[3])]);
    }
    v
}

fn screen() -> Renderer {
    let mut r = Renderer::new(40, 40);
    r.set_transform(
        Transform::translate(pt(20 * ONE, 20 * ONE, 0))
            .mul(&Transform::scale(20 * ONE, 20 * ONE, ONE))
            .mul(&Transform::perspective()),
    );
    r
}

fn image(o: &Object) -> Vec<Pixel> {
    let mut r = screen();
    o.render(&mut r);
    r.texture().pixels.clone()
}

#[test]
fn group_triangles_by_three() {
    let v: Vec<Point> = (0..7).map(|i| pt(i, 0, 0)).collect();
    let t = group_triangles(2, &v).unwrap();
    assert_eq!(t.len(), 2);
    assert_eq!(t[1].p1, pt(3, 0, 0));
    assert_eq!(t[1].p3, pt(5, 0, 0));
    assert_eq!(group_triangles(3, &v), Err(MeshError::CountMismatch { expected: 3, found: 2 }));
}

#[test]
fn cube_renders_something() {
    let tris = group_triangles(12, &unit_cube_vertices()).unwrap();
    let o = Object::new(tris).translated(pt(0, 0, -3 * ONE));
    let img = image(&o);
    assert!(img.iter().any(|p| *p != rusterize::pixel::black()));
}

#[test]
fn full_turn_renders_same_image() {
    let tris = group_triangles(12, &unit_cube_vertices()).unwrap();
    let o = Object::new(tris).translated(pt(0, 0, -3 * ONE)).rotated_x(to_fixed(0.4f64.cos()), to_fixed(0.4f64.sin()));
    let before = image(&o);
    let turn = 2.0 * std::f64::consts::PI;
    let (c, s) = (to_fixed(turn.cos()), to_fixed(turn.sin()));
    let mut a = Object::new(o.triangles.clone()).translated(pt(0, 0, -3 * ONE)).rotated_x(to_fixed(0.4f64.cos()), to_fixed(0.4f64.sin()));
    a.rotate_y(c, s);
    assert_eq!(image(&a), before);
    let b = Object::new(o.triangles.clone()).translated(pt(0, 0, -3 * ONE)).rotated_x(to_fixed(0.4f64.cos()), to_fixed(0.4f64.sin())).rotated_x(c, s).rotated_z(c, s);
    assert_eq!(image(&b), before);
}

#[test]
fn sub_transforms_accumulate_apart() {
    let o = Object::new(vec![])
        .translated(pt(ONE, 0, 0))
        .scaled(2 * ONE, 2 * ONE, 2 * ONE)
        .rotated_z(0, ONE)
        .translated(pt(0, ONE, 0));
    let w = o.world_transform();
    assert_eq!(pt(ONE, 0, 0).mul_transform(&w), Some(pt(ONE, -ONE, 0)));
    let mut m = Object::new(vec![]);
    m.scale(3 * ONE, ONE, ONE);
    m.scale(2 * ONE, ONE, ONE);
    m.rotate_x(ONE, 0);
    m.rotate_y(ONE, 0);
    m.rotate_z(ONE, 0);
    m.translate(pt(ONE, 0, 0));
    assert_eq!(pt(ONE, 0, 0).mul_transform(&m.world_transform()), Some(pt(7 * ONE, 0, 0)));
}

fn fields(line: &str) -> Vec<Vec<u8>> {
    line.split_whitespace().map(|f| f.as_bytes().to_vec()).collect()
}

#[test]
fn parse_coord_values() {
    assert_eq!(parse_coord(b"1.5"), Some(98304));
    assert_eq!(parse_coord(b"-0.25"), Some(-16384));
    assert_eq!(parse_coord(b"+2"), Some(2 * ONE));
    assert_eq!(parse_coord(b".5"), Some(ONE / 2));
    assert_eq!(parse_coord(b"3."), Some(3 * ONE));
    assert_eq!(parse_coord(b"0.1"), Some(6553));
    assert_eq!(parse_coord(b"-0.1"), Some(-6553));
    assert_eq!(parse_coord(b"."), None);
    assert_eq!(parse_coord(b"-"), None);
    assert_eq!(parse_coord(b"1e3"), Some(1000 * ONE));
    assert_eq!(parse_coord(b"1e0"), Some(ONE));
    assert_eq!(parse_coord(b"2.5E-3"), Some(163));
    assert_eq!(parse_coord(b"-1.5e+2"), Some(-150 * ONE));
    assert_eq!(parse_coord(b"1e"), None);
    assert_eq!(parse_coord(b"e5"), None);
    assert_eq!(parse_coord(b"1e4x"), None);
    assert_eq!(parse_coord(b"1e400"), Some(rusterize::fixed::COORD_MAX));
    assert_eq!(parse_coord(b"-1e400"), Some(-rusterize::fixed::COORD_MAX));
    assert_eq!(parse_coord(b"1e-400"), Some(0));
    assert_eq!(parse_coord(b"000000000000000000000001.5"), Some(98304));
    assert_eq!(parse_coord(b"0.1234567890123456789012345"), Some(8090));
    assert_eq!(parse_coord(b"1.2.3"), None);
    assert_eq!(parse_coord(b""), None);
    assert_eq!(parse_coord(b"1234567890123456789012345678901"), Some(rusterize::fixed::COORD_MAX));
    assert_eq!(parse_coord(b"99999999999999"), Some(rusterize::fixed::COORD_MAX));
}

#[test]
fn parse_count_values() {
    assert_eq!(parse_count(b"12"), Some(12));
    assert_eq!(parse_count(b"0003"), Some(3));
    assert_eq!(parse_count(b"+12"), Some(12));
    assert_eq!(parse_count(b"+"), None);
    assert_eq!(parse_count(b"12a"), None);
    assert_eq!(parse_count(b""), None);
    assert_eq!(parse_count(b"-1"), None);
    assert_eq!(parse_count(b"99999999999999999999999"), None);
}

#[test]
fn parse_vertex_lines() {
    assert_eq!(parse_vertex(&fields("1 2 3")), Ok(Some(pt(ONE, 2 * ONE, 3 * ONE))));
    assert_eq!(parse_vertex(&fields("1 2")), Ok(Some(pt(ONE, 2 * ONE, 0))));
    assert_eq!(parse_vertex(&fields("2 4 6 2")), Ok(Some(pt(ONE, 2 * ONE, 3 * ONE))));
    assert_eq!(parse_vertex(&fields("   ")), Ok(None));
    assert_eq!(parse_vertex(&fields("1 x 3")), Err(MeshError::BadCoordinate));
    assert_eq!(parse_vertex(&fields("1 1 1 0")), Err(MeshError::ZeroWeight));
}

#[test]
fn mesh_text_to_triangles() {
    let text = "1\n0 0 -1 # first\n\n1 0 -1\n0 1 -1\n";
    let mut lines = text.lines();
    let n = parse_count(lines.next().unwrap().as_bytes()).unwrap();
    let mut v = Vec::new();
    for line in lines {
        let content = line.split('#').next().unwrap();
        if let Some(p) = parse_vertex(&fields(content)).unwrap() {
            v.push(p);
        }
    }
    let t = group_triangles(n, &v).unwrap();
    assert_eq!(t[0].p2, pt(ONE, 0, -ONE));
    assert_eq!(group_triangles(2, &v), Err(MeshError::CountMismatch { expected: 2, found: 1 }));
}

#[test]
fn parse_mesh_text() {
    let text = b"2 # two triangles\n0 0 -1 # first\n\n1 0 -1\r\n  0 1 -1\n# only a comment\n0 0 0\n1\t1 1\n2 2 2 2\n";
    let t = parse_mesh(text).unwrap();
    assert_eq!(t.len(), 2);
    assert_eq!(t[0].p2, pt(ONE, 0, -ONE));
    assert_eq!(t[0].p3, pt(0, ONE, -ONE));
    assert_eq!(t[1].p2, pt(ONE, ONE, ONE));
    assert_eq!(t[1].p3, pt(ONE, ONE, ONE));
}

#[test]
fn parse_mesh_errors() {
    assert_eq!(parse_mesh(b""), Err(MeshError::MissingCount));
    assert_eq!(parse_mesh(b"x\n1 2 3\n"), Err(MeshError::MissingCount));
    assert_eq!(parse_mesh(b"1 2\n"), Err(MeshError::MissingCount));
    assert_eq!(parse_mesh(b"1\n1 2 3\n1 a 3\n"), Err(MeshError::BadCoordinate));
    assert_eq!(parse_mesh(b"1\n1 2 3 0\n"), Err(MeshError::ZeroWeight));
    assert_eq!(parse_mesh(b"2\n0 0 0\n1 0 0\n0 1 0\n"), Err(MeshError::CountMismatch { expected: 2, found: 1 }));
    assert_eq!(parse_mesh(b"0\n"), Ok(vec![]));
}

#[test]
fn split_lines_and_fields() {
    let parts = split_bytes(b"a#b##", b'#');
    assert_eq!(parts, vec![b"a".to_vec(), b"b".to_vec(), vec![], vec![]]);
    let f = split_fields(b"  12 \t-3.5\r");
    assert_eq!(f, vec![b"12".to_vec(), b"-3.5".to_vec()]);
    assert!(split_fields(b" \t ").is_empty());
}
