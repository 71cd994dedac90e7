use soft_renderer::staticmesh::{MeshError, StaticMesh};

fn push_i32(b: &mut Vec<u8>, v: i32) {
    b.extend_from_slice(&v.to_le_bytes());
}

fn sample_bytes() -> Vec<u8> {
    let mut b = Vec::new();
    push_i32(&mut b, 2);
    for v in 0..2u32 {
        for k in 0..16u32 {
            b.extend_from_slice(&(100 * v + k).to_le_bytes());
        }
    }
    push_i32(&mut b, 3);
    b.extend_from_slice(b"abc");
    push_i32(&mut b, 3);
    for i in [0u32, 1, 1] {
        b.extend_from_slice(&i.to_le_bytes());
    }
    b
}

#[test]
fn reads_vertices_and_indices() {
    let b = sample_bytes();
    assert!(StaticMesh::counts_are_nonnegative(&b));
    let mesh = StaticMesh::from_bytes(&b).unwrap();
    assert_eq!(mesh.vertices().len(), 2);
    assert_eq!(mesh.vertices()[1].position, [100, 101, 102, 103]);
    assert_eq!(mesh.vertices()[1].tangent, [112, 113, 114, 115]);
    assert_eq!(mesh.vertices()[0].tex_coord, [4, 5, 6, 7]);
    assert_eq!(mesh.vertices()[0].normal, [8, 9, 10, 11]);
    assert_eq!(mesh.indices(), &vec![0, 1, 1]);
    assert_eq!(mesh.triangles(), Some(vec![[0, 1, 1]]));
}

#[test]
fn float_components_round_trip_through_bits() {
    let mut b = Vec::new();
    push_i32(&mut b, 1);
    for k in 0..16 {
        b.extend_from_slice(&(k as f32 * 0.5).to_le_bytes());
    }
    push_i32(&mut b, 0);
    push_i32(&mut b, 0);
    let mesh = StaticMesh::from_bytes(&b).unwrap();
    assert_eq!(f32::from_bits(mesh.vertices()[0].position[3]), 1.5);
    assert_eq!(f32::from_bits(mesh.vertices()[0].tangent[0]), 6.0);
    assert!(mesh.indices().is_empty());
}

#[test]
fn trailing_bytes_are_ignored() {
    let mut b = sample_bytes();
    b.extend_from_slice(&[1, 2, 3]);
    let mesh = StaticMesh::from_bytes(&b).unwrap();
    assert_eq!(mesh.indices().len(), 3);
}

#[test]
fn every_truncation_is_an_unexpected_end() {
    let b = sample_bytes();
    for n in 0..b.len() {
        assert!(StaticMesh::counts_are_nonnegative(&b[..n]));
        assert_eq!(StaticMesh::from_bytes(&b[..n]).err(), Some(MeshError::UnexpectedEof), "length {}", n);
    }
}

#[test]
fn negative_counts_are_detected() {
    let mut b = Vec::new();
    push_i32(&mut b, -1);
    assert!(!StaticMesh::counts_are_nonnegative(&b));
    let mut c = Vec::new();
    push_i32(&mut c, 0);
    push_i32(&mut c, -3);
    assert!(!StaticMesh::counts_are_nonnegative(&c));
    let mut d = Vec::new();
    push_i32(&mut d, 0);
    push_i32(&mut d, 0);
    push_i32(&mut d, -2);
    assert!(!StaticMesh::counts_are_nonnegative(&d));
}

#[test]
fn new_mesh_is_empty() {
    let mesh = StaticMesh::new();
    assert!(mesh.vertices().is_empty());
    assert!(mesh.indices().is_empty());
    assert_eq!(mesh.triangles(), Some(vec![]));
}

#[test]
fn triangles_need_whole_in_range_triples() {
    let mut b = Vec::new();
    push_i32(&mut b, 1);
    b.extend_from_slice(&[0u8; 64]);
    push_i32(&mut b, 0);
    push_i32(&mut b, 2);
    b.extend_from_slice(&0u32.to_le_bytes());
    b.extend_from_slice(&0u32.to_le_bytes());
    let mesh = StaticMesh::from_bytes(&b).unwrap();
    assert_eq!(mesh.triangles(), None);

    let mut c = Vec::new();
    push_i32(&mut c, 1);
    c.extend_from_slice(&[0u8; 64]);
    push_i32(&mut c, 0);
    push_i32(&mut c, 3);
    for i in [0u32, 0, 1] {
        c.extend_from_slice(&i.to_le_bytes());
    }
    let mesh = StaticMesh::from_bytes(&c).unwrap();
    assert_eq!(mesh.triangles(), None);
}
