use glam::{Vec2, Vec4};
use renderer::render::geometry::TexturedQuad;
use renderer::render::msdf::sprite_renderer::{
    batch_sprite_quads, SpriteHandle, SpriteRendererReference,
};
use renderer::render::vertex::VertexUV;

fn vertex(x: f32, y: f32, u: f32, v: f32) -> VertexUV {
    VertexUV { position: Vec2::new(x, y), uv: Vec2::new(u, v), color: Vec4::new(1.0, 0.5, 0.25, 1.0) }
}

#[test]
fn sprite_handle_names_sheet_and_sprite() {
    let h = SpriteHandle::new(2, 7);
    assert_eq!(h.sheet.idx, 2);
    assert_eq!(h.sprite.idx, 7);
    assert_eq!(h, SpriteHandle::new(2, 7));
    assert_ne!(h, SpriteHandle::new(7, 2));
}

fn reference() -> SpriteRendererReference {
    SpriteRendererReference {
        sheets: vec![
            (
                String::from("ui"),
                vec![
                    (String::from("button"), SpriteHandle::new(0, 0)),
                    (String::from("cursor"), SpriteHandle::new(0, 1)),
                ],
            ),
            (String::from("tiles"), vec![(String::from("grass"), SpriteHandle::new(1, 0))]),
        ],
    }
}

#[test]
fn get_sprite_finds_sprites_by_sheet_and_name() {
    let r = reference();
    assert_eq!(r.get_sprite("ui", "cursor"), Some(&SpriteHandle::new(0, 1)));
    assert_eq!(r.get_sprite("tiles", "grass"), Some(&SpriteHandle::new(1, 0)));
}

#[test]
fn get_sprite_misses_unknown_names() {
    let r = reference();
    assert_eq!(r.get_sprite("ui", "grass"), None);
    assert_eq!(r.get_sprite("fonts", "a"), None);
}

#[test]
fn textured_quad_spans_two_corners() {
    let quad = TexturedQuad::new(vertex(0.0, 0.0, 0.0, 0.0), vertex(2.0, 3.0, 1.0, 1.0));
    assert_eq!(quad.indices, [0, 1, 2, 3, 1, 0]);
    assert_eq!(quad.vertices[0].position, Vec2::new(2.0, 0.0));
    assert_eq!(quad.vertices[0].uv, Vec2::new(1.0, 0.0));
    assert_eq!(quad.vertices[1].position, Vec2::new(0.0, 3.0));
    assert_eq!(quad.vertices[1].uv, Vec2::new(0.0, 1.0));
    assert_eq!(quad.vertices[2].position, Vec2::new(2.0, 3.0));
    assert_eq!(quad.vertices[3].position, Vec2::new(0.0, 0.0));
    assert_eq!(quad.vertices[0].color, Vec4::new(1.0, 0.5, 0.25, 1.0));
}

fn quad(x: f32) -> TexturedQuad {
    TexturedQuad::new(vertex(x, 0.0, 0.0, 0.0), vertex(x + 1.0, 1.0, 1.0, 1.0))
}

#[test]
fn batches_group_quads_by_sheet() {
    let quads = vec![(1, quad(10.0)), (0, quad(20.0)), (1, quad(30.0))];
    let batches = batch_sprite_quads(3, &quads);
    assert_eq!(batches.ranges.len(), 3);
    assert_eq!(batches.ranges[0].verts, 0..4);
    assert_eq!(batches.ranges[0].indices, 0..6);
    assert_eq!(batches.ranges[1].verts, 4..12);
    assert_eq!(batches.ranges[1].indices, 6..18);
    assert_eq!(batches.ranges[2].verts, 12..12);
    assert_eq!(batches.ranges[2].indices, 18..18);
    assert_eq!(batches.verts.len(), 12);
    assert_eq!(batches.verts[3].position.x, 20.0);
    assert_eq!(batches.verts[7].position.x, 10.0);
    assert_eq!(batches.verts[11].position.x, 30.0);
    // Indices are relative to the first vertex of their sheet.
    assert_eq!(&batches.indices[0..6], &[0, 1, 2, 3, 1, 0]);
    assert_eq!(&batches.indices[6..12], &[0, 1, 2, 3, 1, 0]);
    assert_eq!(&batches.indices[12..18], &[4, 5, 6, 7, 5, 4]);
}

#[test]
fn batches_of_no_quads_are_empty_ranges() {
    let batches = batch_sprite_quads(2, &[]);
    assert_eq!(batches.ranges.len(), 2);
    assert_eq!(batches.ranges[1].verts, 0..0);
    assert!(batches.verts.is_empty());
    assert!(batches.indices.is_empty());
}

#[test]
fn reference_hands_out_sheet_position_and_sprite_index() {
    let sheets = vec![
        (String::from("ui"), vec![(String::from("button"), 3), (String::from("cursor"), 0)]),
        (String::from("tiles"), vec![(String::from("grass"), 5)]),
    ];
    let r = SpriteRendererReference::from_sheets(&sheets);
    assert_eq!(r.sheets.len(), 2);
    assert_eq!(r.get_sprite("ui", "button"), Some(&SpriteHandle::new(0, 3)));
    assert_eq!(r.get_sprite("ui", "cursor"), Some(&SpriteHandle::new(0, 0)));
    assert_eq!(r.get_sprite("tiles", "grass"), Some(&SpriteHandle::new(1, 5)));
    assert_eq!(r.get_sprite("tiles", "button"), None);
}

#[test]
fn reference_of_no_sheets_finds_nothing() {
    let r = SpriteRendererReference::from_sheets(&[]);
    assert!(r.sheets.is_empty());
    assert_eq!(r.get_sprite("ui", "button"), None);
}

#[test]
fn the_last_of_two_equal_names_wins() {
    let sheets = vec![
        (String::from("ui"), vec![(String::from("button"), 1), (String::from("button"), 2)]),
        (String::from("ui"), vec![(String::from("cursor"), 3)]),
    ];
    let r = SpriteRendererReference::from_sheets(&sheets);
    assert_eq!(r.get_sprite("ui", "cursor"), Some(&SpriteHandle::new(1, 3)));
    assert_eq!(r.get_sprite("ui", "button"), None);
    let first = SpriteRendererReference::from_sheets(&sheets[..1]);
    assert_eq!(first.get_sprite("ui", "button"), Some(&SpriteHandle::new(0, 2)));
}

#[test]
fn sprites_are_numbered_in_storage_order() {
    let names = vec![String::from("b"), String::from("a"), String::from("c")];
    let numbered = renderer::render::msdf::sprite_renderer::number_sprites(&names);
    assert_eq!(
        numbered,
        vec![(String::from("b"), 0), (String::from("a"), 1), (String::from("c"), 2)]
    );
}
