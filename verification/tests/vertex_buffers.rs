use glam::{Vec2, Vec4};
use lyon::tessellation::VertexBuffers;
use renderer::render::vector::vertex_buffers::VertexBufferUtils;
use renderer::render::vertex::VertexUV;

fn vertex(x: f32) -> VertexUV {
    VertexUV { position: Vec2::new(x, 0.0), uv: Vec2::ZERO, color: Vec4::ONE }
}

fn buffer(xs: &[f32], indices: &[u32]) -> VertexBuffers<VertexUV, u32> {
    let mut b = VertexBuffers::new();
    b.vertices.extend(xs.iter().map(|x| vertex(*x)));
    b.indices.extend_from_slice(indices);
    b
}

#[test]
fn extend_shifts_indices_past_existing_vertices() {
    let mut a = buffer(&[0.0, 1.0, 2.0], &[0, 1, 2]);
    let b = buffer(&[10.0, 11.0, 12.0, 13.0], &[0, 1, 2, 2, 3, 0]);
    a.extend(b);
    assert_eq!(a.vertices.len(), 7);
    assert_eq!(a.vertices[3].position.x, 10.0);
    assert_eq!(a.indices, vec![0, 1, 2, 3, 4, 5, 5, 6, 3]);
}

#[test]
fn extend_into_empty_keeps_indices() {
    let mut a = buffer(&[], &[]);
    a.extend(buffer(&[1.0, 2.0, 3.0], &[2, 1, 0]));
    assert_eq!(a.indices, vec![2, 1, 0]);
    assert_eq!(a.vertices.len(), 3);
}

#[test]
fn join_concatenates_in_order() {
    let joined = VertexBuffers::join(vec![
        buffer(&[0.0, 1.0, 2.0], &[0, 1, 2]),
        buffer(&[5.0, 6.0, 7.0], &[2, 1, 0]),
        buffer(&[9.0, 9.5, 9.75], &[0, 2, 1]),
    ]);
    let xs: Vec<f32> = joined.vertices.iter().map(|v| v.position.x).collect();
    assert_eq!(xs, [0.0, 1.0, 2.0, 5.0, 6.0, 7.0, 9.0, 9.5, 9.75]);
    assert_eq!(joined.indices, vec![0, 1, 2, 5, 4, 3, 6, 8, 7]);
    // Each joined triangle names the vertex it named before joining.
    assert_eq!(joined.vertices[joined.indices[3] as usize].position.x, 7.0);
}

#[test]
fn join_of_nothing_is_empty() {
    let joined: VertexBuffers<VertexUV, u32> = VertexBuffers::join(Vec::new());
    assert!(joined.vertices.is_empty());
    assert!(joined.indices.is_empty());
}

#[test]
fn appended_indices_stay_below_the_vertex_count() {
    let mut a: VertexBuffers<VertexUV, u32> = VertexBuffers::new();
    a.vertices.extend([vertex(0.0), vertex(1.0), vertex(2.0)]);
    a.indices.extend([0, 1, 2]);
    let mut b: VertexBuffers<VertexUV, u32> = VertexBuffers::new();
    b.vertices.extend([vertex(3.0), vertex(4.0)]);
    b.indices.extend([1, 0, 1]);
    a.extend(b);
    assert!(a.indices.iter().all(|i| (*i as usize) < a.vertices.len()));
    assert_eq!(a.indices, vec![0, 1, 2, 4, 3, 4]);
}
