use atlas::mesh::{Mesh, Triangle};
use atlas::renderer::Color;
use atlas::vector::Vector;

type V3 = Vector<i64, 3>;

fn v(x: i64, y: i64, z: i64) -> V3 {
    Vector::new([x, y, z])
}

fn corners(t: &Triangle<V3>) -> Vec<[i64; 3]> {
    t.vertices.iter().map(|p| p.data).collect()
}

fn sample_mesh() -> Mesh<V3> {
    let gray = Color::new(128, 128, 128, 255);
    let white = Color::new(255, 255, 255, 255);
    Mesh {
        triangles: vec![
            Triangle::new(v(0, 0, 0), v(0, 1, 0), v(1, 1, 0), &gray),
            Triangle::new(v(0, 1, 0), v(1, 1, 1), v(1, 1, 0), &white),
        ],
    }
}

#[test]
fn triangle_new_keeps_vertices_and_color() {
    let c = Color::new(1, 2, 3, 4);
    let t = Triangle::new(v(1, 2, 3), v(4, 5, 6), v(7, 8, 9), &c);
    assert_eq!(corners(&t), vec![[1, 2, 3], [4, 5, 6], [7, 8, 9]]);
    assert_eq!(t.color, c);
}

#[test]
fn map_vertices_translates_every_vertex() {
    let mesh = sample_mesh();
    let t = v(2, 0, 3);
    let moved = mesh.map_vertices(|p| p.add(&t));
    assert_eq!(moved.triangles.len(), 2);
    assert_eq!(corners(&moved.triangles[0]), vec![[2, 0, 3], [2, 1, 3], [3, 1, 3]]);
    assert_eq!(corners(&moved.triangles[1]), vec![[2, 1, 3], [3, 1, 4], [3, 1, 3]]);
    assert_eq!(moved.triangles[1].color, Color::new(255, 255, 255, 255));
}

#[test]
fn map_vertices_leaves_the_source_mesh_unchanged() {
    let mesh = sample_mesh();
    let t = v(-5, 7, 1);
    let _moved = mesh.map_vertices(|p| p.add(&t));
    assert_eq!(corners(&mesh.triangles[0]), vec![[0, 0, 0], [0, 1, 0], [1, 1, 0]]);
    assert_eq!(corners(&mesh.triangles[1]), vec![[0, 1, 0], [1, 1, 1], [1, 1, 0]]);
}

#[test]
fn filter_map_vertices_drops_rejected_faces() {
    let mesh = sample_mesh();
    let out = mesh.filter_map_vertices(|p| if p.data[1] == 1 { None } else { Some(*p) });
    assert_eq!(out.triangles.len(), 0);
}

#[test]
fn filter_map_vertices_drops_a_face_with_two_survivors() {
    let mesh = sample_mesh();
    let kept = mesh.filter_map_vertices(|p| if p.data[2] == 0 { Some(*p) } else { None });
    assert_eq!(kept.triangles.len(), 1);
    assert_eq!(corners(&kept.triangles[0]), vec![[0, 0, 0], [0, 1, 0], [1, 1, 0]]);
    assert_eq!(kept.triangles[0].color, Color::new(128, 128, 128, 255));
}

#[test]
fn filter_map_vertices_keeps_order_and_maps_values() {
    let mesh = sample_mesh();
    let out = mesh.filter_map_vertices(|p| Some(p.add(&v(1, 1, 1))));
    assert_eq!(out.triangles.len(), 2);
    assert_eq!(corners(&out.triangles[0]), vec![[1, 1, 1], [1, 2, 1], [2, 2, 1]]);
    assert_eq!(corners(&out.triangles[1]), vec![[1, 2, 1], [2, 2, 2], [2, 2, 1]]);
}

#[test]
fn filter_map_vertices_keeps_a_face_with_three_survivors_of_four() {
    let c = Color::new(5, 6, 7, 8);
    let mut t = Triangle::new(v(0, 0, 0), v(1, 0, 0), v(0, 1, 0), &c);
    t.vertices.push(v(9, 9, -1));
    let mesh = Mesh { triangles: vec![t] };
    let out = mesh.filter_map_vertices(|p| if p.data[2] >= 0 { Some(*p) } else { None });
    assert_eq!(out.triangles.len(), 1);
    assert_eq!(corners(&out.triangles[0]), vec![[0, 0, 0], [1, 0, 0], [0, 1, 0]]);
}
