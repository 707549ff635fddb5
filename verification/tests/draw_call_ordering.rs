use glam::{Vec2, Vec4};
use renderer::render::vector::instance::RawInstance;
use renderer::render::vector::draw_call_ordering::{
    create_render_request, GroupedInstances, VectorRenderRequest,
};
use renderer::render::vector::instance::ZIndex;
use renderer::render::vector::svg_geometry::SVGGeometry;
use renderer::render::vector::VectorInstance;
use renderer::util::handle::Handle;

// `transform.x` is used as a tag so instances can be identified in the
// flattened output buffer.
fn instance(id: Handle<SVGGeometry>, z_index: ZIndex, tag: f32) -> VectorInstance {
    let mut instance = VectorInstance::new(id).with_transform(Vec2::splat(tag));
    instance.z_index = z_index;
    instance
}

fn request_of(map: GroupedInstances) -> VectorRenderRequest {
    create_render_request(map)
}

#[test]
fn every_geometry_in_a_layer_gets_a_draw_call() {
    let mut map = GroupedInstances::new();
    let layer = map.entry(0).or_default();
    for index in 0..32 {
        let id = Handle::new(index);
        layer.insert(id.index, vec![instance(id, 0, index as f32)]);
    }

    let request = request_of(map);

    assert_eq!(request.draw_calls.len(), 32);
    assert_eq!(request.instances_buf.len(), 32);
    assert_eq!(
        request
            .draw_calls
            .iter()
            .map(|call| call.id.index)
            .collect::<Vec<_>>(),
        (0..32).collect::<Vec<_>>()
    );
}

#[test]
fn draw_calls_are_ordered_by_z_index_then_geometry() {
    let mut map = GroupedInstances::new();
    for (z_index, handle) in [(2, 5), (0, 9), (0, 4), (1, 8)] {
        let id = Handle::new(handle);
        map.entry(z_index)
            .or_default()
            .insert(id.index, vec![instance(id, z_index, 0.0)]);
    }

    let ids: Vec<usize> = request_of(map)
        .draw_calls
        .iter()
        .map(|call| call.id.index)
        .collect();

    // z 0 first (handles ascending), then z 1, then z 2
    assert_eq!(ids, [4, 9, 8, 5]);
}

#[test]
fn ranges_tile_the_buffer_and_keep_every_instance() {
    let mut map = GroupedInstances::new();
    for (z_index, handle, tags) in [
        (1u16, 7usize, vec![1.0f32, 2.0]),
        (0, 3, vec![3.0]),
        (0, 9, vec![4.0, 5.0, 6.0]),
    ] {
        let id = Handle::new(handle);
        let instances = tags
            .iter()
            .map(|tag| instance(id, z_index, *tag))
            .collect::<Vec<_>>();
        map.entry(z_index).or_default().insert(id.index, instances);
    }

    let request = request_of(map);

    let mut next = 0;
    for call in request.draw_calls.iter() {
        assert_eq!(
            call.range.start, next,
            "draw call ranges must be contiguous"
        );
        next = call.range.end;
    }
    assert_eq!(next as usize, request.instances_buf.len());

    let mut tags: Vec<f32> = request
        .instances_buf
        .iter()
        .map(|raw| raw.transform.x)
        .collect();
    tags.sort_by(f32::total_cmp);
    assert_eq!(tags, [1.0, 2.0, 3.0, 4.0, 5.0, 6.0]);
}

#[test]
fn empty_input_gives_an_empty_request() {
    let request = create_render_request(GroupedInstances::new());
    assert!(request.draw_calls.is_empty());
    assert!(request.instances_buf.is_empty());
}

#[test]
fn same_geometry_in_two_layers_gets_two_calls_in_layer_order() {
    let mut map = GroupedInstances::new();
    let id: Handle<SVGGeometry> = Handle::new(3);
    map.entry(5).or_default().insert(3, vec![instance(id, 5, 10.0)]);
    map.entry(1)
        .or_default()
        .insert(3, vec![instance(id, 1, 20.0), instance(id, 1, 21.0)]);
    let request = create_render_request(map);
    assert_eq!(request.draw_calls.len(), 2);
    assert_eq!(request.draw_calls[0].range, 0..2);
    assert_eq!(request.draw_calls[1].range, 2..3);
    let tags: Vec<f32> = request.instances_buf.iter().map(|r| r.transform.x).collect();
    assert_eq!(tags, [20.0, 21.0, 10.0]);
}

#[test]
fn instances_keep_their_order_inside_a_group() {
    let mut map = GroupedInstances::new();
    let id: Handle<SVGGeometry> = Handle::new(0);
    let group: Vec<VectorInstance> = (0..5).map(|t| instance(id, 0, t as f32)).collect();
    map.entry(0).or_default().insert(0, group);
    let request = create_render_request(map);
    let tags: Vec<f32> = request.instances_buf.iter().map(|r| r.transform.x).collect();
    assert_eq!(tags, [0.0, 1.0, 2.0, 3.0, 4.0]);
    assert_eq!(request.draw_calls[0].range, 0..5);
}

#[test]
fn raw_instance_keeps_transform_scale_and_color() {
    let id: Handle<SVGGeometry> = Handle::new(1);
    let v = VectorInstance::new(id)
        .with_transform(Vec2::new(1.0, 2.0))
        .with_scale(Vec2::new(3.0, 4.0))
        .with_color(Vec4::new(0.1, 0.2, 0.3, 0.4));
    let raw = RawInstance::from(v);
    assert_eq!(raw.transform, Vec2::new(1.0, 2.0));
    assert_eq!(raw.scale, Vec2::new(3.0, 4.0));
    assert_eq!(raw.color, Vec4::new(0.1, 0.2, 0.3, 0.4));
}

#[test]
fn new_vector_instance_defaults() {
    let id: Handle<SVGGeometry> = Handle::new(7);
    let v = VectorInstance::new(id);
    assert_eq!(v.id.index, 7);
    assert_eq!(v.z_index, 0);
    assert_eq!(v.transform, Vec2::ZERO);
    assert_eq!(v.scale, Vec2::ONE);
    assert_eq!(v.color, Vec4::ONE);
}

#[test]
fn the_request_does_not_depend_on_insertion_order() {
    let entries = [(2u16, 5usize, 1.0f32), (0, 9, 2.0), (0, 4, 3.0), (1, 8, 4.0), (0, 7, 5.0)];
    let mut forward = GroupedInstances::new();
    for (z, h, tag) in entries {
        forward.entry(z).or_default().insert(h, vec![instance(Handle::new(h), z, tag)]);
    }
    let mut backward = GroupedInstances::new();
    for (z, h, tag) in entries.iter().rev().copied() {
        backward.entry(z).or_default().insert(h, vec![instance(Handle::new(h), z, tag)]);
    }
    let a = request_of(forward);
    let b = request_of(backward);
    let calls = |r: &VectorRenderRequest| -> Vec<(usize, u32, u32)> {
        r.draw_calls.iter().map(|c| (c.id.index, c.range.start, c.range.end)).collect()
    };
    assert_eq!(calls(&a), calls(&b));
    let tags = |r: &VectorRenderRequest| -> Vec<f32> { r.instances_buf.iter().map(|i| i.transform.x).collect() };
    assert_eq!(tags(&a), tags(&b));
    assert_eq!(tags(&a), vec![3.0, 5.0, 2.0, 4.0, 1.0]);
}
