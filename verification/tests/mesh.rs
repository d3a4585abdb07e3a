use rust_raytracer::error::ConfigError;
use rust_raytracer::mesh::{Mesh, Triangle};
use rust_raytracer::obj::load_obj;

fn mesh_of(lines: &[&str]) -> Result<Mesh, ConfigError> {
    Mesh::new(&load_obj(lines).ok().unwrap())
}

#[test]
fn triangle_with_vertices_only() {
    let mesh = mesh_of(&["v 0 0 0", "v 1 0 0", "v 0 1 0", "f 1 2 3"]).ok().unwrap();
    assert_eq!(mesh.triangles, vec![Triangle { vs: (0, 1, 2), normals: None, uvs: None }]);
}

#[test]
fn triangle_with_uvs_and_normals() {
    let mesh = mesh_of(&[
        "v 0 0 0", "v 1 0 0", "v 0 1 0", "v 1 1 0",
        "vt 0 0", "vt 1 0", "vt 0 1",
        "vn 0 0 1", "vn 0 0 -1",
        "f 4/3/2 2/1/1 3/2/2",
    ])
    .ok()
    .unwrap();
    assert_eq!(
        mesh.triangles,
        vec![Triangle { vs: (3, 1, 2), normals: Some((1, 0, 1)), uvs: Some((2, 0, 1)) }]
    );
}

#[test]
fn triangle_with_normals_without_uvs() {
    let mesh = mesh_of(&["v 0 0 0", "v 1 0 0", "v 0 1 0", "vn 0 0 1", "f 1//1 2//1 3//1"])
        .ok()
        .unwrap();
    assert_eq!(
        mesh.triangles,
        vec![Triangle { vs: (0, 1, 2), normals: Some((0, 0, 0)), uvs: None }]
    );
}

#[test]
fn first_corner_decides_whether_uvs_are_read() {
    // The first corner gives no texture coordinate, so those of the others
    // are not looked at, not even where they name nothing.
    let mesh = mesh_of(&["v 0 0 0", "v 1 0 0", "v 0 1 0", "f 1 2/9 3/9"]).ok().unwrap();
    assert_eq!(mesh.triangles, vec![Triangle { vs: (0, 1, 2), normals: None, uvs: None }]);
}

#[test]
fn triangles_keep_the_order_of_the_faces() {
    let mesh = mesh_of(&["v 0 0 0", "v 1 0 0", "v 0 1 0", "v 1 1 0", "f 1 2 3", "f 2 4 3"])
        .ok()
        .unwrap();
    assert_eq!(
        mesh.triangles,
        vec![
            Triangle { vs: (0, 1, 2), normals: None, uvs: None },
            Triangle { vs: (1, 3, 2), normals: None, uvs: None },
        ]
    );
}

#[test]
fn mesh_without_faces_is_empty() {
    let mesh = mesh_of(&["v 0 0 0"]).ok().unwrap();
    assert!(mesh.triangles.is_empty());
}

#[test]
fn face_with_four_corners_is_refused() {
    let r = mesh_of(&["v 0 0 0", "v 1 0 0", "v 0 1 0", "v 1 1 0", "f 1 2 3", "f 1 2 3 4"]);
    assert_eq!(r.err(), Some(ConfigError::NonTriangularFace(1)));
}

#[test]
fn face_with_two_corners_is_refused() {
    let r = mesh_of(&["v 0 0 0", "v 1 0 0", "f 1 2"]);
    assert_eq!(r.err(), Some(ConfigError::NonTriangularFace(0)));
}

#[test]
fn face_that_names_a_missing_vertex_is_refused() {
    let r = mesh_of(&["v 0 0 0", "v 1 0 0", "v 0 1 0", "f 1 2 4"]);
    assert_eq!(r.err(), Some(ConfigError::DanglingIndex(0)));
}

#[test]
fn face_with_a_vertex_left_out_is_refused() {
    let r = mesh_of(&["v 0 0 0", "v 1 0 0", "v 0 1 0", "f 1 2 x"]);
    assert_eq!(r.err(), Some(ConfigError::DanglingIndex(0)));
}

#[test]
fn face_that_names_a_missing_uv_is_refused() {
    let r = mesh_of(&["v 0 0 0", "v 1 0 0", "v 0 1 0", "vt 0 0", "f 1/1 2/1 3/2"]);
    assert_eq!(r.err(), Some(ConfigError::DanglingIndex(0)));
}

#[test]
fn face_that_names_a_missing_normal_is_refused() {
    let r = mesh_of(&["v 0 0 0", "v 1 0 0", "v 0 1 0", "f 1 2 3", "f 1//1 2//1 3//1"]);
    assert_eq!(r.err(), Some(ConfigError::DanglingIndex(1)));
}

#[test]
fn the_first_fault_is_reported() {
    let r = mesh_of(&["v 0 0 0", "v 1 0 0", "v 0 1 0", "f 1 2 9", "f 1 2"]);
    assert_eq!(r.err(), Some(ConfigError::DanglingIndex(0)));
}
