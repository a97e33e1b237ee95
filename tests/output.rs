use engrave_stl::mesh::{Triangle, Vertex};
use engrave_stl::relief::{relief_stl, ReliefError};
use engrave_stl::stl::{normal, stl_text, Normal};

fn v(x: u32, y: u32, z: u64) -> Vertex {
    Vertex { x, y, z }
}

#[test]
fn empty_mesh_text() {
    assert_eq!(stl_text(&vec![]), "solid surface\nendsolid surface\n");
}

#[test]
fn normal_keeps_winding() {
    let up = Triangle { a: v(0, 0, 0), b: v(1, 0, 0), c: v(0, 1, 0) };
    assert_eq!(normal(&up), Normal { x: 0, y: 0, z: 1000 });
    let down = Triangle { a: v(0, 0, 0), b: v(0, 1, 0), c: v(1, 0, 0) };
    assert_eq!(normal(&down), Normal { x: 0, y: 0, z: -1000 });
    let slope = Triangle { a: v(0, 0, 2500), b: v(1, 0, 0), c: v(0, 1, 0) };
    assert_eq!(normal(&slope), Normal { x: 2500, y: 2500, z: 1000 });
}

#[test]
fn one_facet_text() {
    let tri = Triangle { a: v(0, 0, 2500), b: v(1, 0, 1), c: v(0, 1, 8000) };
    let text = stl_text(&vec![tri]);
    let expected = "solid surface\n  facet normal 2.499 -5.5 1\n    outer loop\n      vertex 0 0 2.5\n      vertex 1 0 0.001\n      vertex 0 1 8\n    endloop\n  endfacet\nendsolid surface\n";
    assert_eq!(text, expected);
}

#[test]
fn facet_count_matches_triangles() {
    let tris: Vec<Triangle> = (0..5u32)
        .map(|i| Triangle { a: v(i, 0, 10 * i as u64), b: v(i + 1, 0, 0), c: v(i, 1, 0) })
        .collect();
    let text = stl_text(&tris);
    assert!(text.starts_with("solid surface\n"));
    assert!(text.ends_with("endsolid surface\n"));
    assert_eq!(text.matches("  facet normal").count(), 5);
    assert_eq!(text.matches("  endfacet\n").count(), 5);
}

#[test]
fn relief_rejects_bad_buffer() {
    assert_eq!(relief_stl(2, 2, &vec![0u8; 6], 8, false), Err(ReliefError::BufferSize));
}

#[test]
fn relief_rejects_empty_image() {
    assert_eq!(relief_stl(0, 3, &vec![], 8, false), Err(ReliefError::EmptyImage));
}

#[test]
fn relief_accepts_large_radius() {
    let text = relief_stl(1, 1, &vec![0u8, 255], 1001, false).unwrap();
    assert_eq!(text, "solid surface\nendsolid surface\n");
}

#[test]
fn normal_of_tall_vertices() {
    let tall = Triangle { a: v(0, 0, 0), b: v(1, 0, u64::MAX), c: v(0, 1, 0) };
    let n = normal(&tall);
    assert_eq!(n, Normal { x: -(u64::MAX as i128), y: 0, z: 1000 });
}

#[test]
fn relief_of_dark_block() {
    // 3x3 dark opaque image, radius 1: only the centre is fully surrounded.
    let raw: Vec<u8> = [0u8, 255].repeat(9);
    let text = relief_stl(3, 3, &raw, 1, false).unwrap();
    assert!(text.starts_with("solid surface\n"));
    assert!(text.ends_with("endsolid surface\n"));
    // Four active cells with four triangles each; walls: the centre of each
    // border is raised, giving one triangle per border pair next to it.
    assert_eq!(text.matches("facet normal").count(), 16 + 8);
    assert!(text.contains("      vertex 1 1 8\n"));
}

#[test]
fn relief_with_plate_has_base() {
    let raw: Vec<u8> = [255u8, 255].repeat(4);
    let text = relief_stl(2, 2, &raw, 1, true).unwrap();
    // Every height is the plate offset: the top of the single cell, one wall
    // triangle for each of the four border pairs, and the base.
    assert_eq!(text.matches("facet normal").count(), 2 + 4 + 2);
    assert!(text.contains("      vertex 0 0 0.001\n"));
}
