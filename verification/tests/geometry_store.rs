use glam::{Vec2, Vec4};
use lyon::tessellation::VertexBuffers;
use renderer::render::vector::draw_call_ordering::{
    create_render_request, group_instance, GroupedInstances,
};
use renderer::render::vector::renderer::{GeometryStore, SVGSourceId};
use renderer::render::vector::svg_geometry::{SVGGeometry, SVGSource};
use renderer::render::vector::vertex::SVGVertex;
use renderer::render::vector::VectorInstance;
use renderer::util::bounds::Bounds;
use renderer::util::handle::Handle;

fn geometry(vertex_count: usize, indices: &[u32]) -> SVGGeometry {
    let mut vertex_buffers = VertexBuffers::new();
    for i in 0..vertex_count {
        vertex_buffers.vertices.push(SVGVertex::new(Vec2::splat(i as f32), Vec4::ONE));
    }
    vertex_buffers.indices.extend_from_slice(indices);
    SVGGeometry {
        source: SVGSource(String::new()),
        vertex_buffers,
        hit_box: Bounds::new(Vec2::ZERO, Vec2::ONE),
    }
}

#[test]
fn added_geometry_is_found_by_source() {
    let mut store = GeometryStore::new();
    assert!(store.get_vector(SVGSourceId(100)).is_none());
    let a = store.add_vector_object(SVGSourceId(100), geometry(3, &[0, 1, 2]));
    let b = store.add_vector_object(SVGSourceId(200), geometry(4, &[0, 1, 2, 2, 3, 0]));
    assert_eq!(a.index, 0);
    assert_eq!(b.index, 1);
    assert_eq!(store.get_vector(SVGSourceId(100)).map(|h| h.index), Some(0));
    assert_eq!(store.get_vector(SVGSourceId(200)).map(|h| h.index), Some(1));
    assert_eq!(store.len(), 2);
}

#[test]
fn geometries_occupy_consecutive_ranges() {
    let mut store = GeometryStore::new();
    let a = store.add_vector_object(SVGSourceId(1), geometry(3, &[0, 1, 2]));
    let b = store.add_vector_object(SVGSourceId(2), geometry(4, &[0, 1, 2, 2, 3, 0]));
    assert_eq!(store.meta(a).vertex_range, 0..3);
    assert_eq!(store.meta(a).index_range, 0..3);
    assert_eq!(store.meta(b).vertex_range, 3..7);
    assert_eq!(store.meta(b).index_range, 3..9);
    let next = store.next_vector_object_meta(&geometry(2, &[1, 0]));
    assert_eq!(next.vertex_range, 7..9);
    assert_eq!(next.index_range, 9..11);
    let (vertices, indices) = store.geometry_data();
    assert_eq!(vertices.len(), 7);
    assert_eq!(vertices[3].position, Vec2::splat(0.0));
    assert_eq!(indices, vec![0, 1, 2, 0, 1, 2, 2, 3, 0]);
}

#[test]
fn grouped_instances_become_draw_calls() {
    let mut groups = GroupedInstances::new();
    let id: Handle<SVGGeometry> = Handle::new(2);
    let mut on_top = VectorInstance::new(id).with_transform(Vec2::splat(1.0));
    on_top.z_index = 4;
    let below = VectorInstance::new(id).with_transform(Vec2::splat(2.0));
    group_instance(&mut groups, 2, on_top);
    group_instance(&mut groups, 2, below);
    group_instance(&mut groups, 2, below);
    assert_eq!(groups[&0][&2].len(), 2);
    assert_eq!(groups[&4][&2].len(), 1);
    let request = create_render_request(groups);
    assert_eq!(request.draw_calls.len(), 2);
    assert_eq!(request.draw_calls[0].range, 0..2);
    assert_eq!(request.draw_calls[1].range, 2..3);
    assert_eq!(request.instances_buf[2].transform, Vec2::splat(1.0));
}

fn leaked_source(text: &str) -> &'static SVGSource {
    Box::leak(Box::new(SVGSource(String::from(text))))
}

fn lazy(
    source: &'static SVGSource,
    z_index: u16,
    tag: f32,
) -> renderer::render::vector::lazy_instance::LazyVectorInstance<'static> {
    renderer::render::vector::lazy_instance::LazyVectorInstance {
        source,
        transform: Vec2::splat(tag),
        scale: Vec2::ONE,
        color: Vec4::ONE,
        z_index,
    }
}

#[test]
fn lazy_instances_tessellate_each_source_once_and_group_by_layer() {
    let a = leaked_source("a");
    let b = leaked_source("b");
    let instances = vec![lazy(a, 1, 1.0), lazy(b, 0, 2.0), lazy(a, 1, 3.0), lazy(a, 0, 4.0)];
    let ids = vec![SVGSourceId(10), SVGSourceId(20), SVGSourceId(10), SVGSourceId(10)];
    let calls = std::cell::Cell::new(0);
    let mut store = GeometryStore::new();
    let groups = store
        .convert_lazy_instances(&instances, &ids, |s: &SVGSource| {
            calls.set(calls.get() + 1);
            let n = if s.0 == "a" { 3 } else { 4 };
            geometry(n, &[0, 1, 2])
        })
        .unwrap();
    assert_eq!(calls.get(), 2);
    assert_eq!(store.len(), 2);
    assert_eq!(store.get_vector(SVGSourceId(10)).map(|h| h.index), Some(0));
    assert_eq!(store.get_vector(SVGSourceId(20)).map(|h| h.index), Some(1));
    assert_eq!(store.geometry(Handle::new(1)).vertex_buffers.vertices.len(), 4);
    let tags = |z: u16, h: usize| -> Vec<f32> {
        groups[&z][&h].iter().map(|v| v.transform.x).collect()
    };
    assert_eq!(tags(1, 0), vec![1.0, 3.0]);
    assert_eq!(tags(0, 1), vec![2.0]);
    assert_eq!(tags(0, 0), vec![4.0]);
    assert_eq!(groups.len(), 2);
    assert_eq!(groups[&0].len(), 2);
    assert_eq!(groups[&1].len(), 1);
    assert_eq!(groups[&1][&0][1].id.index, 0);
    assert_eq!(groups[&1][&0][1].z_index, 1);
}

#[test]
fn known_sources_are_not_tessellated_again() {
    let a = leaked_source("a");
    let mut store = GeometryStore::new();
    store.add_vector_object(SVGSourceId(7), geometry(3, &[0, 1, 2]));
    let groups = store
        .convert_lazy_instances(&[lazy(a, 2, 5.0)], &[SVGSourceId(7)], |_: &SVGSource| {
            panic!("a known source was tessellated")
        })
        .unwrap();
    assert_eq!(store.len(), 1);
    assert_eq!(groups[&2][&0][0].transform.x, 5.0);
}

#[test]
fn geometry_that_fits_is_added_after_the_others() {
    let mut store = GeometryStore::new();
    let a = store.try_add_vector_object(SVGSourceId(2), geometry(3, &[0, 1, 2]));
    let b = store.try_add_vector_object(SVGSourceId(4), geometry(5, &[0, 1, 2, 3, 4, 0]));
    assert_eq!(a.map(|h| h.index), Some(0));
    assert_eq!(b.map(|h| h.index), Some(1));
    assert_eq!(store.meta(Handle::new(1)).vertex_range, 3..8);
    assert_eq!(store.meta(Handle::new(1)).index_range, 3..9);
}

#[test]
fn grouping_eager_instances_appends_in_order() {
    let mut groups = GroupedInstances::new();
    group_instance(&mut groups, 3, VectorInstance::new(Handle::new(3)).with_transform(Vec2::splat(1.0)));
    let more = [
        VectorInstance::new(Handle::new(3)).with_transform(Vec2::splat(2.0)),
        VectorInstance::new(Handle::new(5)).with_transform(Vec2::splat(3.0)),
        VectorInstance::new(Handle::new(3)).with_transform(Vec2::splat(4.0)),
    ];
    renderer::render::vector::draw_call_ordering::group_instances(&mut groups, &more);
    let xs: Vec<f32> = groups[&0][&3].iter().map(|v| v.transform.x).collect();
    assert_eq!(xs, vec![1.0, 2.0, 4.0]);
    assert_eq!(groups[&0][&5].len(), 1);
}

#[test]
fn new_sources_are_numbered_in_first_appearance_order() {
    let a = leaked_source("a");
    let mut store = GeometryStore::new();
    store.add_vector_object(SVGSourceId(7), geometry(3, &[0, 1, 2]));
    let instances = vec![lazy(a, 0, 1.0), lazy(a, 0, 2.0), lazy(a, 0, 3.0), lazy(a, 0, 4.0)];
    let ids = vec![SVGSourceId(30), SVGSourceId(7), SVGSourceId(20), SVGSourceId(30)];
    let first = store
        .convert_lazy_instances(&instances, &ids, |_: &SVGSource| geometry(3, &[0, 1, 2]))
        .unwrap();
    assert_eq!(store.len(), 3);
    assert_eq!(store.get_vector(SVGSourceId(30)).map(|h| h.index), Some(1));
    assert_eq!(store.get_vector(SVGSourceId(20)).map(|h| h.index), Some(2));
    let again = store
        .convert_lazy_instances(&instances, &ids, |_: &SVGSource| panic!("tessellated twice"))
        .unwrap();
    assert_eq!(store.len(), 3);
    let tags = |g: &GroupedInstances, h: usize| -> Vec<f32> {
        g[&0][&h].iter().map(|v| v.transform.x).collect()
    };
    assert_eq!(tags(&first, 1), vec![1.0, 4.0]);
    assert_eq!(tags(&again, 1), tags(&first, 1));
    assert_eq!(tags(&again, 0), vec![2.0]);
    assert_eq!(tags(&again, 2), vec![3.0]);
}

#[test]
fn svg_sources_parse_only_when_they_are_svg() {
    let good = SVGSource(String::from(
        "<svg xmlns=\"http://www.w3.org/2000/svg\" width=\"10\" height=\"10\"><rect width=\"5\" height=\"5\"/></svg>",
    ));
    let tree = good.parse().unwrap();
    assert_eq!(tree.size().width(), 10.0);
    assert!(SVGSource(String::from("not an svg document")).parse().is_err());
}
