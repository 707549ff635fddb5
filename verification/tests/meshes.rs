use glam::Vec2;
use renderer::render::basic_mesh::BasicMesh;
use renderer::render::quad::Quad;
use renderer::render::scene::Scene;
use renderer::render::vertex::Vertex;

#[test]
fn quad_triangles_share_the_diagonal() {
    let quad = Quad::new(Vertex(Vec2::new(0.0, 0.0)), Vertex(Vec2::new(1.0, 2.0)));
    let tris = quad.triangles();
    assert_eq!(tris.len(), 2);
    let p = |v: Vertex| v.0;
    assert_eq!(p(tris[0][0]), Vec2::new(1.0, 0.0));
    assert_eq!(p(tris[0][1]), Vec2::new(0.0, 2.0));
    assert_eq!(p(tris[0][2]), Vec2::new(1.0, 2.0));
    assert_eq!(p(tris[1][0]), Vec2::new(0.0, 0.0));
    assert_eq!(p(tris[1][1]), Vec2::new(0.0, 2.0));
    assert_eq!(p(tris[1][2]), Vec2::new(1.0, 0.0));
}

#[test]
fn scene_counts_three_vertices_per_triangle() {
    let mut scene = Scene { triangles: Vec::new() };
    assert_eq!(scene.size(), 0);
    let quad = Quad::new(Vertex(Vec2::ZERO), Vertex(Vec2::ONE));
    scene.add_mesh(&quad.triangles());
    scene.add_mesh(&quad.triangles());
    assert_eq!(scene.triangles.len(), 4);
    assert_eq!(scene.size(), 12);
}

#[test]
fn basic_mesh_vertex_count() {
    assert_eq!(BasicMesh::<5>::vert_count(), 15);
    assert_eq!(BasicMesh::<0>::vert_count(), 0);
}
