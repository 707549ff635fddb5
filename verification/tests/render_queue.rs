use glam::{Vec2, Vec4};
use lyon::tessellation::VertexBuffers;
use renderer::render::vertex::VertexUV;
use renderer::render::frame::RenderQueue;
use renderer::render::vector::lazy_instance::LazyVectorInstance;
use renderer::render::vector::svg_geometry::SVGSource;
use renderer::render::vector::VectorInstance;
use renderer::util::handle::Handle;

#[derive(Clone, Copy, Debug, PartialEq)]
struct Sprite(u32);

type Queue = RenderQueue<Sprite, &'static str>;

#[test]
fn enqueued_sprites_are_found_by_their_handles() {
    let mut queue = Queue::default();
    let a = queue.enqueue_sprite(Sprite(1));
    let b = queue.enqueue_sprite(Sprite(2));
    let c = queue.enqueue_sprite(Sprite(3));
    assert_eq!((a.index, b.index, c.index), (0, 1, 2));
    assert_eq!(queue[a], Sprite(1));
    assert_eq!(queue[b], Sprite(2));
    assert_eq!(queue[c], Sprite(3));
    assert_eq!(queue.sprites(), &[Sprite(1), Sprite(2), Sprite(3)]);
}

#[test]
fn vector_instances_are_numbered_in_order() {
    let mut queue = Queue::default();
    let first = queue.enqueue_vector(VectorInstance::new(Handle::new(9)));
    let second = queue.enqueue_vector(VectorInstance::new(Handle::new(4)));
    assert_eq!(first.index, 0);
    assert_eq!(second.index, 1);
    assert_eq!(queue.vector_instances()[1].id.index, 4);
    assert!(queue.sprites().is_empty());
}

static SOURCE: std::sync::OnceLock<SVGSource> = std::sync::OnceLock::new();

#[test]
fn lazy_instances_and_curves_queue_up() {
    let source: &'static SVGSource = SOURCE.get_or_init(|| SVGSource(String::from("<svg/>")));
    let mut queue = Queue::default();
    let h = queue.enqueue_vector_lazy(LazyVectorInstance {
        source,
        transform: Vec2::ZERO,
        scale: Vec2::ONE,
        color: Vec4::ONE,
        z_index: 3,
    });
    assert_eq!(h.index, 0);
    assert_eq!(queue.lazy_vector_instances()[0].z_index, 3);
    queue.enqueue_cubic_bezier("first");
    queue.enqueue_cubic_bezier("second");
    let curves = queue.take_bezier_instances();
    assert_eq!(curves, vec!["first", "second"]);
    assert!(queue.take_bezier_instances().is_empty());
    assert!(queue.lines().vertices.is_empty());
}

fn uv(x: f32) -> VertexUV {
    VertexUV { position: Vec2::new(x, 0.0), uv: Vec2::ZERO, color: Vec4::ONE }
}

fn piece(xs: &[f32], indices: &[u32]) -> VertexBuffers<VertexUV, u32> {
    let mut b = VertexBuffers::new();
    b.vertices.extend(xs.iter().map(|x| uv(*x)));
    b.indices.extend_from_slice(indices);
    b
}

#[test]
fn appended_lines_follow_the_queued_ones() {
    let mut queue = Queue::default();
    queue.lines = piece(&[0.0, 1.0], &[0, 1, 0]);
    queue.append_lines(vec![piece(&[2.0, 3.0, 4.0], &[0, 1, 2]), piece(&[5.0, 6.0], &[1, 0, 1])]);
    let xs: Vec<f32> = queue.lines.vertices.iter().map(|v| v.position.x).collect();
    assert_eq!(xs, vec![0.0, 1.0, 2.0, 3.0, 4.0, 5.0, 6.0]);
    assert_eq!(queue.lines.indices, vec![0, 1, 0, 2, 3, 4, 6, 5, 6]);
}

#[test]
fn lines_that_fit_are_appended_by_the_checking_call() {
    let mut queue = Queue::default();
    queue.lines = piece(&[0.0, 1.0], &[0, 1, 0]);
    assert!(queue.try_append_lines(vec![piece(&[2.0, 3.0], &[1, 0, 1]), piece(&[4.0], &[0])]));
    assert_eq!(queue.lines.indices, vec![0, 1, 0, 3, 2, 3, 4]);
    assert_eq!(queue.lines.vertices.len(), 5);
}

#[test]
fn lines_whose_indices_overflow_are_refused_unchanged() {
    let mut queue = Queue::default();
    queue.lines = piece(&[0.0, 1.0], &[0, 1, 0]);
    assert!(!queue.try_append_lines(vec![piece(&[2.0], &[u32::MAX - 1])]));
    assert_eq!(queue.lines.indices, vec![0, 1, 0]);
    assert_eq!(queue.lines.vertices.len(), 2);
    assert!(queue.try_append_lines(vec![piece(&[], &[])]));
}
