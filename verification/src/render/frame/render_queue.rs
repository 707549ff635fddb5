use lyon::tessellation::VertexBuffers;
use std::ops::Index;
use vstd::prelude::*;

use crate::render::vector::lazy_instance::LazyVectorInstance;
use crate::render::vector::vertex_buffers::{
    fits_after, indices_in_range, VertexBufferView, joinable, joined_indices, joined_vertices,
    lemma_append_keeps_indices_in_range, lemma_join_keeps_indices_in_range,
    lemma_joined_lengths_step, lemma_joined_prefix_lengths, lemma_stack_fits, shifted, stack_fits,
    uv_buffers_new, uv_index_slice, uv_indices, uv_vertex_count,
    uv_vertices, VertexBufferUtils,
};
use crate::render::vector::VectorInstance;
use crate::render::vertex::VertexUV;
use crate::util::handle::Handle;

verus! {

/// Everything drawn in one frame, in submission order: sprites, line
/// geometry, vector instances, curves still to be tessellated, and vector
/// art still to be tessellated.
pub struct RenderQueue<Sprite, Curve> {
    pub sprites: Vec<Sprite>,
    pub lines: VertexBuffers<VertexUV, u32>,
    pub vector_instances: Vec<VectorInstance>,
    pub bezier_instances: Vec<Curve>,
    pub lazy_instances: Vec<LazyVectorInstance<'static>>,
}

/// Pieces whose indices, shifted past every vertex there will be, fit a
/// `u32`, and whose counts fit a `usize`, fit after the lines; in
/// particular small pieces fit after no lines at all.
pub proof fn lemma_pieces_within_u32_fit(
    lines: VertexBuffers<VertexUV, u32>,
    pieces: Seq<VertexBuffers<VertexUV, u32>>,
)
    ensures
        (forall|k: int, p: int|
            0 <= k < pieces.len() && 0 <= p < uv_indices(pieces[k]).len() ==> #[trigger] uv_indices(
                pieces[k],
            )[p] + uv_vertices(lines).len() + joined_vertices(pieces).len() <= u32::MAX)
            && uv_vertices(lines).len() + joined_vertices(pieces).len() <= usize::MAX
            && joined_indices(pieces).len() <= usize::MAX ==> lines_fit(lines, pieces),
{
    if (forall|k: int, p: int|
        0 <= k < pieces.len() && 0 <= p < uv_indices(pieces[k]).len() ==> #[trigger] uv_indices(
            pieces[k],
        )[p] + uv_vertices(lines).len() + joined_vertices(pieces).len() <= u32::MAX) {
        lemma_joined_prefix_lengths(pieces);
        let b = uv_vertices(lines).len() as int;
        assert forall|k: int| 0 <= k < pieces.len() implies fits_after(
            b + joined_vertices(pieces.take(k)).len(),
            (#[trigger] pieces[k]).indices_of(),
        ) by {
            assert(joined_vertices(pieces.take(k)).len() <= joined_vertices(pieces).len());
            let idx = uv_indices(pieces[k]);
            if idx.len() > 0 {
                assert(idx[0] + b + joined_vertices(pieces).len() <= u32::MAX);
            }
            assert forall|p: int| 0 <= p < idx.len() implies #[trigger] idx[p] + (b
                + joined_vertices(pieces.take(k)).len()) <= u32::MAX by {
                assert(uv_indices(pieces[k])[p] + b + joined_vertices(pieces).len() <= u32::MAX);
            }
        }
    }
}

/// Pieces that do not fit after the lines overflow: some shifted index is
/// past `u32::MAX`, or a count is past `usize::MAX`.
proof fn lemma_refused_overflows(
    lines: VertexBuffers<VertexUV, u32>,
    pieces: Seq<VertexBuffers<VertexUV, u32>>,
)
    requires
        !lines_fit(lines, pieces),
    ensures
        !((forall|k: int, p: int|
            0 <= k < pieces.len() && 0 <= p < uv_indices(pieces[k]).len() ==> #[trigger] uv_indices(
                pieces[k],
            )[p] + uv_vertices(lines).len() + joined_vertices(pieces).len() <= u32::MAX)
            && uv_vertices(lines).len() + joined_vertices(pieces).len() <= usize::MAX
            && joined_indices(pieces).len() <= usize::MAX),
{
    lemma_pieces_within_u32_fit(lines, pieces);
}

/// Whether `pieces` fit after `lines`.
fn pieces_fit_after(lines: &VertexBuffers<VertexUV, u32>, pieces: &Vec<VertexBuffers<VertexUV, u32>>) -> (r: bool)
    ensures
        r == lines_fit(*lines, pieces@),
{
    let base = uv_vertex_count(lines);
    let ghost ps = pieces@;
    let ghost b = base as int;
    let mut offset: usize = base;
    let mut index_total: usize = 0;
    let mut k: usize = 0;
    assert(ps.take(0) =~= Seq::<VertexBuffers<VertexUV, u32>>::empty());
    while k < pieces.len()
        invariant
            ps == pieces@,
            b == uv_vertices(*lines).len(),
            0 <= k <= ps.len(),
            offset == b + joined_vertices(ps.take(k as int)).len(),
            index_total == joined_indices(ps.take(k as int)).len(),
            forall|j: int|
                0 <= j < k ==> fits_after(
                    b + joined_vertices(ps.take(j)).len(),
                    uv_indices(#[trigger] ps[j]),
                ),
        decreases ps.len() - k,
    {
        let indices = uv_index_slice(&pieces[k]);
        if !fits_after_exec(indices, offset) {
            proof {
                if stack_fits(ps, b) {
                    assert(fits_after(
                        b + joined_vertices(ps.take(k as int)).len(),
                        ps[k as int].indices_of(),
                    ));
                }
            }
            return false;
        }
        proof {
            lemma_joined_lengths_step(ps, k as int);
            lemma_joined_prefix_lengths(ps);
        }
        match offset.checked_add(uv_vertex_count(&pieces[k])) {
            Some(o) => {
                offset = o;
            },
            None => {
                proof {
                    assert(ps.take(k + 1).len() <= ps.len());
                }
                return false;
            },
        }
        match index_total.checked_add(indices.len()) {
            Some(t) => {
                index_total = t;
            },
            None => {
                return false;
            },
        }
        k = k + 1;
    }
    proof {
        assert(ps.take(k as int) =~= ps);
        lemma_stack_fits(ps, b);
    }
    true
}

/// Whether `indices`, shifted past `offset` vertices, all fit a `u32`.
fn fits_after_exec(indices: &[u32], offset: usize) -> (r: bool)
    ensures
        r == fits_after(offset as int, indices@),
{
    let mut m: usize = 0;
    while m < indices.len()
        invariant
            0 <= m <= indices@.len(),
            forall|q: int| 0 <= q < m ==> #[trigger] indices@[q] + offset <= u32::MAX,
        decreases indices@.len() - m,
    {
        if (indices[m] as u128) + (offset as u128) > 0xffff_ffffu128 {
            return false;
        }
        m = m + 1;
    }
    if indices.len() > 0 {
        assert(indices@[0] + offset <= u32::MAX);
    }
    true
}

/// The pieces fit after the lines: stacked after the line vertices every
/// shifted index fits a `u32`, and the vertex and index counts fit a
/// `usize`.
pub open spec fn lines_fit(lines: VertexBuffers<VertexUV, u32>, pieces: Seq<VertexBuffers<VertexUV, u32>>) -> bool {
    &&& stack_fits(pieces, uv_vertices(lines).len() as int)
    &&& uv_vertices(lines).len() + joined_vertices(pieces).len() <= usize::MAX
    &&& joined_indices(pieces).len() <= usize::MAX
}

impl<Sprite, Curve> Default for RenderQueue<Sprite, Curve> {
    fn default() -> (r: Self)
        ensures
            r.sprites@ == Seq::<Sprite>::empty(),
            uv_vertices(r.lines) == Seq::<VertexUV>::empty(),
            uv_indices(r.lines) == Seq::<u32>::empty(),
            r.vector_instances@ == Seq::<VectorInstance>::empty(),
            r.bezier_instances@ == Seq::<Curve>::empty(),
            r.lazy_instances@ == Seq::<LazyVectorInstance<'static>>::empty(),
    {
        Self {
            sprites: Vec::new(),
            lines: uv_buffers_new(),
            vector_instances: Vec::new(),
            bezier_instances: Vec::new(),
            lazy_instances: Vec::new(),
        }
    }
}

impl<Sprite, Curve> RenderQueue<Sprite, Curve> {
    /// Queues a sprite; the handle names it from now on.
    pub fn enqueue_sprite(&mut self, sprite: Sprite) -> (h: Handle<Sprite>)
        ensures
            final(self).sprites@ == old(self).sprites@.push(sprite),
            h.index == old(self).sprites@.len(),
            final(self).lines == old(self).lines,
            final(self).vector_instances == old(self).vector_instances,
            final(self).bezier_instances == old(self).bezier_instances,
            final(self).lazy_instances == old(self).lazy_instances,
    {
        let index = self.sprites.len();
        self.sprites.push(sprite);
        Handle::new(index)
    }

    /// Queues a vector instance; the handle names it from now on.
    pub fn enqueue_vector(&mut self, instance: VectorInstance) -> (h: Handle<VectorInstance>)
        ensures
            final(self).vector_instances@ == old(self).vector_instances@.push(instance),
            h.index == old(self).vector_instances@.len(),
            final(self).sprites == old(self).sprites,
            final(self).lines == old(self).lines,
            final(self).bezier_instances == old(self).bezier_instances,
            final(self).lazy_instances == old(self).lazy_instances,
    {
        let index = self.vector_instances.len();
        self.vector_instances.push(instance);
        Handle::new(index)
    }

    /// Queues vector art to be tessellated when the frame is drawn.
    pub fn enqueue_vector_lazy(&mut self, instance: LazyVectorInstance<'static>) -> (h: Handle<
        LazyVectorInstance<'static>,
    >)
        ensures
            final(self).lazy_instances@ == old(self).lazy_instances@.push(instance),
            h.index == old(self).lazy_instances@.len(),
            final(self).sprites == old(self).sprites,
            final(self).lines == old(self).lines,
            final(self).vector_instances == old(self).vector_instances,
            final(self).bezier_instances == old(self).bezier_instances,
    {
        let index = self.lazy_instances.len();
        self.lazy_instances.push(instance);
        Handle::new(index)
    }

    /// Queues a curve to be tessellated into the line geometry.
    pub fn enqueue_cubic_bezier(&mut self, curve: Curve)
        ensures
            final(self).bezier_instances@ == old(self).bezier_instances@.push(curve),
            final(self).sprites == old(self).sprites,
            final(self).lines == old(self).lines,
            final(self).vector_instances == old(self).vector_instances,
            final(self).lazy_instances == old(self).lazy_instances,
    {
        self.bezier_instances.push(curve);
    }

    /// Removes the queued curves and hands them back, oldest first.
    pub fn take_bezier_instances(&mut self) -> (curves: Vec<Curve>)
        ensures
            curves@ == old(self).bezier_instances@,
            final(self).bezier_instances@ == Seq::<Curve>::empty(),
            final(self).sprites == old(self).sprites,
            final(self).lines == old(self).lines,
            final(self).vector_instances == old(self).vector_instances,
            final(self).lazy_instances == old(self).lazy_instances,
    {
        let mut bezier_instances = Vec::new();
        std::mem::swap(&mut bezier_instances, &mut self.bezier_instances);
        bezier_instances
    }

    /// Appends tessellated line geometry: the pieces joined in order, after
    /// the lines already queued, each index shifted past the vertices
    /// before it.
    pub fn append_lines(&mut self, pieces: Vec<VertexBuffers<VertexUV, u32>>)
        requires
            joinable(pieces@),
            joined_vertices(pieces@).len() <= usize::MAX,
            joined_indices(pieces@).len() <= usize::MAX,
            fits_after(uv_vertices(old(self).lines).len() as int, joined_indices(pieces@)),
        ensures
            uv_vertices(final(self).lines) == uv_vertices(old(self).lines) + joined_vertices(
                pieces@,
            ),
            uv_indices(final(self).lines) == uv_indices(old(self).lines) + shifted(
                joined_indices(pieces@),
                uv_vertices(old(self).lines).len() as int,
            ),
            final(self).sprites == old(self).sprites,
            final(self).vector_instances == old(self).vector_instances,
            final(self).bezier_instances == old(self).bezier_instances,
            final(self).lazy_instances == old(self).lazy_instances,
            indices_in_range(uv_vertices(old(self).lines).len() as int, uv_indices(old(self).lines))
                && (forall|k: int|
                0 <= k < pieces@.len() ==> indices_in_range(
                    uv_vertices(#[trigger] pieces@[k]).len() as int,
                    uv_indices(pieces@[k]),
                )) ==> indices_in_range(
                uv_vertices(final(self).lines).len() as int,
                uv_indices(final(self).lines),
            ),
    {
        proof {
            if forall|k: int|
                0 <= k < pieces@.len() ==> indices_in_range(
                    uv_vertices(#[trigger] pieces@[k]).len() as int,
                    uv_indices(pieces@[k]),
                ) {
                lemma_join_keeps_indices_in_range(pieces@);
                if indices_in_range(uv_vertices(self.lines).len() as int, uv_indices(self.lines)) {
                    lemma_append_keeps_indices_in_range(
                        uv_vertices(self.lines).len() as int,
                        uv_indices(self.lines),
                        joined_vertices(pieces@).len() as int,
                        joined_indices(pieces@),
                    );
                }
            }
        }
        let joined = <VertexBuffers<VertexUV, u32> as VertexBufferUtils>::join(pieces);
        self.lines.extend(joined);
    }

    /// Appends tessellated line geometry as `append_lines` does where every
    /// shifted index fits a `u32` and the counts fit a `usize`; otherwise
    /// changes nothing. Returns whether it appended.
    pub fn try_append_lines(&mut self, pieces: Vec<VertexBuffers<VertexUV, u32>>) -> (appended: bool)
        ensures
            appended <==> lines_fit(old(self).lines, pieces@),
            (forall|k: int, p: int|
                0 <= k < pieces@.len() && 0 <= p < uv_indices(pieces@[k]).len() ==> #[trigger] uv_indices(
                    pieces@[k],
                )[p] + uv_vertices(old(self).lines).len() + joined_vertices(pieces@).len() <= u32::MAX)
                && uv_vertices(old(self).lines).len() + joined_vertices(pieces@).len() <= usize::MAX
                && joined_indices(pieces@).len() <= usize::MAX ==> appended,
            appended ==> uv_vertices(final(self).lines) == uv_vertices(old(self).lines)
                + joined_vertices(pieces@),
            appended ==> uv_indices(final(self).lines) == uv_indices(old(self).lines) + shifted(
                joined_indices(pieces@),
                uv_vertices(old(self).lines).len() as int,
            ),
            !appended ==> final(self).lines == old(self).lines,
            final(self).sprites == old(self).sprites,
            final(self).vector_instances == old(self).vector_instances,
            final(self).bezier_instances == old(self).bezier_instances,
            final(self).lazy_instances == old(self).lazy_instances,
    {
        let fits = pieces_fit_after(&self.lines, &pieces);
        if !fits {
            proof {
                lemma_refused_overflows(self.lines, pieces@);
            }
            return false;
        }
        proof {
            lemma_stack_fits(pieces@, uv_vertices(self.lines).len() as int);
        }
        self.append_lines(pieces);
        true
    }

    pub fn sprites(&self) -> (r: &[Sprite])
        ensures
            r@ == self.sprites@,
    {
        self.sprites.as_slice()
    }

    pub fn lines(&self) -> (r: &VertexBuffers<VertexUV, u32>)
        ensures
            *r == self.lines,
    {
        &self.lines
    }

    pub fn vector_instances(&self) -> (r: &[VectorInstance])
        ensures
            r@ == self.vector_instances@,
    {
        self.vector_instances.as_slice()
    }

    pub fn lazy_vector_instances(&self) -> (r: &[LazyVectorInstance<'static>])
        ensures
            r@ == self.lazy_instances@,
    {
        self.lazy_instances.as_slice()
    }
}

/// A handle that an enqueue returned names the item that was queued, for as
/// long as the queue only grows at its end.
pub proof fn lemma_handle_names_item<T>(
    before: Seq<T>,
    queued: Seq<T>,
    later: Seq<T>,
    item: T,
    h: Handle<T>,
)
    requires
        queued == before.push(item),
        h.index == before.len(),
        queued.len() <= later.len(),
        later.take(queued.len() as int) == queued,
    ensures
        h.index < later.len(),
        later[h.index as int] == item,
{
    assert(later.take(queued.len() as int)[h.index as int] == later[h.index as int]);
}

impl<Sprite, Curve> Index<Handle<Sprite>> for RenderQueue<Sprite, Curve> {
    type Output = Sprite;

    fn index(&self, handle: Handle<Sprite>) -> (r: &Sprite)
        ensures
            *r == self.sprites@[handle.index as int],
    {
        &self.sprites[handle.index]
    }
}

impl<Sprite, Curve> vstd::std_specs::core::IndexSpecImpl<Handle<Sprite>> for RenderQueue<Sprite, Curve> {
    open spec fn index_req(&self, handle: &Handle<Sprite>) -> bool {
        handle.index < self.sprites@.len()
    }
}

} // verus!
