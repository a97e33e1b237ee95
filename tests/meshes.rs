use engrave_stl::height::HeightField;
use engrave_stl::mesh::{build_mesh, cell_triangles, Triangle, Vertex};

fn v(x: u32, y: u32, z: u64) -> Vertex {
    Vertex { x, y, z }
}

fn t(a: Vertex, b: Vertex, c: Vertex) -> Triangle {
    Triangle { a, b, c }
}

fn field(width: u32, height: u32, plate: bool, cells: &[u64]) -> HeightField {
    HeightField { width, height, plate, cells: cells.to_vec() }
}

#[test]
fn low_diagonal_split() {
    let f = field(2, 2, false, &[0, 10, 10, 0]);
    let r = cell_triangles(&f, 0, 0);
    let (p1, p2, p3, p4) = (v(0, 0, 0), v(1, 0, 10), v(0, 1, 10), v(1, 1, 0));
    assert_eq!(r.len(), 4);
    assert_eq!(r[0], t(p1, p2, p3));
    assert_eq!(r[1], t(p2, p4, p3));
    assert_eq!(r[2], t(v(0, 0, 0), v(1, 0, 0), v(0, 1, 0)));
    assert_eq!(r[3], t(v(1, 0, 0), v(1, 1, 0), v(0, 1, 0)));
}

#[test]
fn tie_uses_other_diagonal() {
    let f = field(2, 2, true, &[0, 0, 10, 10]);
    let r = cell_triangles(&f, 0, 0);
    let (p1, p2, p3, p4) = (v(0, 0, 0), v(1, 0, 0), v(0, 1, 10), v(1, 1, 10));
    assert_eq!(r, vec![t(p1, p4, p3), t(p1, p2, p4)]);
}

#[test]
fn empty_cell_has_no_triangles() {
    for plate in [false, true] {
        let f = field(2, 2, plate, &[0, 0, 0, 0]);
        assert!(cell_triangles(&f, 0, 0).is_empty());
    }
}

#[test]
fn flat_field_without_plate_is_empty() {
    let f = field(3, 2, false, &[0; 6]);
    assert!(build_mesh(&f).is_empty());
}

#[test]
fn single_raised_pixel_mesh() {
    // 2x1 grid: no cells, walls along the rows only.
    let f = field(2, 1, false, &[5, 0]);
    let m = build_mesh(&f);
    let expected = vec![
        t(v(0, 0, 5), v(1, 0, 0), v(0, 0, 0)),
        t(v(0, 0, 5), v(1, 0, 0), v(0, 0, 0)),
    ];
    assert_eq!(m, expected);
}

#[test]
fn side_wall_is_one_triangle_per_pair() {
    let f = field(2, 1, false, &[5, 7]);
    let m = build_mesh(&f);
    assert_eq!(m.len(), 2);
    assert_eq!(m[0], t(v(0, 0, 5), v(1, 0, 0), v(0, 0, 0)));
    assert_eq!(m[1], t(v(0, 0, 5), v(1, 0, 0), v(0, 0, 0)));
}

#[test]
fn side_wall_rises_at_the_raised_neighbour() {
    let f = field(2, 1, false, &[0, 7]);
    let m = build_mesh(&f);
    assert_eq!(m, vec![t(v(1, 0, 7), v(0, 0, 0), v(1, 0, 0)); 2]);
    let f = field(1, 2, false, &[0, 7]);
    let m = build_mesh(&f);
    assert_eq!(m, vec![t(v(0, 1, 7), v(0, 0, 0), v(0, 1, 0)); 2]);
}

#[test]
fn raised_square_has_one_wall_per_border_pair() {
    let f = field(2, 2, false, &[1, 2, 3, 4]);
    let m = build_mesh(&f);
    // Two top and two bottom triangles, then one wall for each of the four
    // border pairs.
    assert_eq!(m.len(), 4 + 4);
    assert_eq!(m[4], t(v(0, 0, 1), v(0, 1, 0), v(0, 0, 0)));
    assert_eq!(m[5], t(v(1, 0, 2), v(1, 1, 0), v(1, 0, 0)));
    assert_eq!(m[6], t(v(0, 0, 1), v(1, 0, 0), v(0, 0, 0)));
    assert_eq!(m[7], t(v(0, 1, 3), v(1, 1, 0), v(0, 1, 0)));
}

#[test]
fn plate_adds_base_once() {
    let f = field(3, 2, true, &[1, 1, 1, 1, 4000, 1]);
    let m = build_mesh(&f);
    let n = m.len();
    assert!(n >= 2);
    assert_eq!(m[n - 2], t(v(0, 0, 0), v(0, 1, 0), v(2, 1, 0)));
    assert_eq!(m[n - 1], t(v(0, 0, 0), v(2, 1, 0), v(2, 0, 0)));
    let flat = m.iter().filter(|t| t.a.z == 0 && t.b.z == 0 && t.c.z == 0).count();
    assert_eq!(flat, 2);
    // Two cells, two top triangles each; walls: 2 along the columns, 4 along the rows.
    assert_eq!(n, 4 + 2 + 4 + 2);
}

#[test]
fn plate_on_single_pixel() {
    let f = field(1, 1, true, &[1]);
    let m = build_mesh(&f);
    assert_eq!(m.len(), 2);
    assert_eq!(m[0], t(v(0, 0, 0), v(0, 0, 0), v(0, 0, 0)));
}

#[test]
fn cells_come_row_by_row() {
    let f = field(3, 2, false, &[1, 0, 2, 0, 0, 0]);
    let m = build_mesh(&f);
    // First cell: h1 + h4 = 1 is not below h2 + h3 = 0, so p1-p4 is shared.
    assert_eq!(m[0], t(v(0, 0, 1), v(1, 1, 0), v(0, 1, 0)));
    // Second cell: h1 + h4 = 0 < h2 + h3 = 2.
    assert_eq!(m[4], t(v(1, 0, 0), v(2, 0, 2), v(1, 1, 0)));
}
