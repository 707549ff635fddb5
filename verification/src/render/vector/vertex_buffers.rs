use lyon::tessellation::VertexBuffers;
use vstd::prelude::*;

use crate::render::vertex::VertexUV;

verus! {

/// lyon's `VertexBuffers`: a list of vertices and a list of triangle
/// indices, both public fields.
#[verifier::external_type_specification]
#[verifier::external_body]
#[verifier::reject_recursive_types(OutputVertex)]
#[verifier::reject_recursive_types(OutputIndex)]
pub struct ExVertexBuffers<OutputVertex, OutputIndex>(VertexBuffers<OutputVertex, OutputIndex>);

/// The vertices held by a line buffer: its field `vertices`.
pub uninterp spec fn uv_vertices(buffers: VertexBuffers<VertexUV, u32>) -> Seq<VertexUV>;

/// The indices held by a line buffer: its field `indices`.
pub uninterp spec fn uv_indices(buffers: VertexBuffers<VertexUV, u32>) -> Seq<u32>;

/// `VertexBuffers::new`: lyon's constructor, which allocates room for 512
/// vertices and 1024 indices and holds none.
#[verifier::external_body]
pub(crate) fn uv_buffers_new() -> (b: VertexBuffers<VertexUV, u32>)
    ensures
        uv_vertices(b) == Seq::<VertexUV>::empty(),
        uv_indices(b) == Seq::<u32>::empty(),
{
    VertexBuffers::new()
}

/// `VertexBuffers::with_capacity`: lyon's constructor, which reserves room
/// and holds no vertex and no index.
#[verifier::external_body]
fn uv_buffers_with_capacity(num_vertices: usize, num_indices: usize) -> (b: VertexBuffers<
    VertexUV,
    u32,
>)
    ensures
        uv_vertices(b) == Seq::<VertexUV>::empty(),
        uv_indices(b) == Seq::<u32>::empty(),
{
    VertexBuffers::with_capacity(num_vertices, num_indices)
}

/// Moves the two public fields `vertices` and `indices` out of a lyon buffer.
#[verifier::external_body]
pub(crate) fn uv_buffers_into_parts(b: VertexBuffers<VertexUV, u32>) -> (parts: (Vec<VertexUV>, Vec<u32>))
    ensures
        parts.0@ == uv_vertices(b),
        parts.1@ == uv_indices(b),
{
    (b.vertices, b.indices)
}

/// Builds a lyon buffer from its two public fields.
#[verifier::external_body]
pub(crate) fn uv_buffers_from_parts(vertices: Vec<VertexUV>, indices: Vec<u32>) -> (b: VertexBuffers<
    VertexUV,
    u32,
>)
    ensures
        uv_vertices(b) == vertices@,
        uv_indices(b) == indices@,
{
    VertexBuffers { vertices, indices }
}

/// The number of vertices of a line buffer (`vertices.len()`).
#[verifier::external_body]
pub(crate) fn uv_vertex_count(b: &VertexBuffers<VertexUV, u32>) -> (n: usize)
    ensures
        n == uv_vertices(*b).len(),
{
    b.vertices.len()
}

/// The public field `indices` of a line buffer.
#[verifier::external_body]
pub(crate) fn uv_index_slice(b: &VertexBuffers<VertexUV, u32>) -> (r: &[u32])
    ensures
        r@ == uv_indices(*b),
{
    b.indices.as_slice()
}

/// The number of indices of a line buffer (`indices.len()`).
#[verifier::external_body]
pub(crate) fn uv_index_count(b: &VertexBuffers<VertexUV, u32>) -> (n: usize)
    ensures
        n == uv_indices(*b).len(),
{
    b.indices.len()
}

/// Every index shifted up by `offset`.
pub open spec fn shifted(indices: Seq<u32>, offset: int) -> Seq<u32> {
    indices.map_values(|i: u32| (i + offset) as u32)
}

/// The vertices of all buffers, one after another.
pub open spec fn joined_vertices<B: VertexBufferView>(buffers: Seq<B>) -> Seq<VertexUV>
    decreases buffers.len(),
{
    if buffers.len() == 0 {
        Seq::empty()
    } else {
        joined_vertices(buffers.drop_last()) + buffers.last().vertices_of()
    }
}

/// The indices of all buffers, one after another, each shifted by the
/// number of vertices of the buffers before it.
pub open spec fn joined_indices<B: VertexBufferView>(buffers: Seq<B>) -> Seq<u32>
    decreases buffers.len(),
{
    if buffers.len() == 0 {
        Seq::empty()
    } else {
        joined_indices(buffers.drop_last()) + shifted(
            buffers.last().indices_of(),
            joined_vertices(buffers.drop_last()).len() as int,
        )
    }
}

/// Indices of `other` shifted past `n` vertices still fit in a `u32`
/// (which holds of no indices at all).
pub open spec fn fits_after(n: int, other: Seq<u32>) -> bool {
    other.len() > 0 ==> {
        &&& n <= u32::MAX
        &&& forall|k: int| 0 <= k < other.len() ==> #[trigger] other[k] + n <= u32::MAX
    }
}

/// No index overflows while the buffers are joined one after another.
pub open spec fn joinable<B: VertexBufferView>(buffers: Seq<B>) -> bool {
    forall|k: int|
        0 <= k < buffers.len() ==> fits_after(
            joined_vertices(buffers.take(k)).len() as int,
            (#[trigger] buffers[k]).indices_of(),
        )
}

/// Stacked after `base` vertices, one after another, the buffers keep
/// every shifted index within a `u32`.
pub open spec fn stack_fits<B: VertexBufferView>(buffers: Seq<B>, base: int) -> bool {
    forall|k: int|
        0 <= k < buffers.len() ==> fits_after(
            base + joined_vertices(buffers.take(k)).len(),
            (#[trigger] buffers[k]).indices_of(),
        )
}

/// The joined lengths grow by the lengths of each buffer in turn.
pub proof fn lemma_joined_lengths_step<B: VertexBufferView>(buffers: Seq<B>, k: int)
    requires
        0 <= k < buffers.len(),
    ensures
        joined_vertices(buffers.take(k + 1)).len() == joined_vertices(buffers.take(k)).len()
            + buffers[k].vertices_of().len(),
        joined_indices(buffers.take(k + 1)).len() == joined_indices(buffers.take(k)).len()
            + buffers[k].indices_of().len(),
{
    assert(buffers.take(k + 1).drop_last() == buffers.take(k));
    assert(buffers.take(k + 1).last() == buffers[k]);
}

/// Buffers that fit when stacked after `base` vertices can be joined, and
/// their joined indices fit after `base` vertices.
pub proof fn lemma_stack_fits<B: VertexBufferView>(buffers: Seq<B>, base: int)
    requires
        stack_fits(buffers, base),
        0 <= base,
    ensures
        joinable(buffers),
        fits_after(base, joined_indices(buffers)),
    decreases buffers.len(),
{
    if buffers.len() > 0 {
        let n = buffers.len() - 1;
        let rest = buffers.drop_last();
        let last = buffers.last();
        assert(buffers.take(n) == rest);
        assert(buffers[n] == last);
        assert forall|k: int| 0 <= k < rest.len() implies fits_after(
            base + joined_vertices(rest.take(k)).len(),
            (#[trigger] rest[k]).indices_of(),
        ) by {
            assert(rest.take(k) == buffers.take(k));
            assert(rest[k] == buffers[k]);
        }
        lemma_stack_fits(rest, base);
        assert forall|k: int| 0 <= k < buffers.len() implies fits_after(
            joined_vertices(buffers.take(k)).len() as int,
            (#[trigger] buffers[k]).indices_of(),
        ) by {
            assert(fits_after(base + joined_vertices(buffers.take(k)).len(), buffers[k].indices_of()));
        }
        let before = joined_vertices(rest).len() as int;
        let a = joined_indices(rest);
        let b = shifted(last.indices_of(), before);
        assert(joined_indices(buffers) == a + b);
        assert(fits_after(base + before, last.indices_of()));
        assert forall|j: int| 0 <= j < (a + b).len() implies #[trigger] (a + b)[j] + base
            <= u32::MAX by {
            if j < a.len() {
                assert((a + b)[j] == a[j]);
            } else {
                let p = j - a.len();
                assert((a + b)[j] == b[p]);
                assert(last.indices_of()[p] + base + before <= u32::MAX);
                assert(b[p] == (last.indices_of()[p] + before) as u32);
            }
        }
        if (a + b).len() > 0 {
            if a.len() > 0 {
                assert(base <= u32::MAX);
            } else {
                assert(last.indices_of().len() > 0);
                assert(base + before <= u32::MAX);
            }
        }
    }
}

/// Every index names one of the first `vertex_count` vertices.
pub open spec fn indices_in_range(vertex_count: int, indices: Seq<u32>) -> bool {
    forall|k: int| 0 <= k < indices.len() ==> #[trigger] indices[k] < vertex_count
}

/// Appending a buffer whose indices name its own vertices to one whose
/// indices name its own keeps every index naming a vertex of the result.
pub proof fn lemma_append_keeps_indices_in_range(n1: int, i1: Seq<u32>, n2: int, i2: Seq<u32>)
    requires
        0 <= n1,
        0 <= n2,
        indices_in_range(n1, i1),
        indices_in_range(n2, i2),
        fits_after(n1, i2),
    ensures
        indices_in_range(n1 + n2, i1 + shifted(i2, n1)),
{
    let all = i1 + shifted(i2, n1);
    assert forall|k: int| 0 <= k < all.len() implies #[trigger] all[k] < n1 + n2 by {
        if k < i1.len() {
            assert(all[k] == i1[k]);
        } else {
            let p = k - i1.len();
            assert(all[k] == shifted(i2, n1)[p]);
            assert(i2[p] < n2);
            assert(i2.len() > 0);
            assert(i2[p] + n1 <= u32::MAX);
            assert(shifted(i2, n1)[p] == (i2[p] + n1) as u32);
        }
    }
}

/// Joining buffers whose indices name their own vertices gives a buffer
/// whose indices name its vertices.
pub proof fn lemma_join_keeps_indices_in_range<B: VertexBufferView>(buffers: Seq<B>)
    requires
        joinable(buffers),
        forall|k: int|
            0 <= k < buffers.len() ==> indices_in_range(
                (#[trigger] buffers[k]).vertices_of().len() as int,
                buffers[k].indices_of(),
            ),
    ensures
        indices_in_range(joined_vertices(buffers).len() as int, joined_indices(buffers)),
    decreases buffers.len(),
{
    if buffers.len() > 0 {
        let rest = buffers.drop_last();
        let last = buffers.last();
        assert forall|k: int| 0 <= k < rest.len() implies fits_after(
            joined_vertices(rest.take(k)).len() as int,
            (#[trigger] rest[k]).indices_of(),
        ) by {
            assert(rest.take(k) == buffers.take(k));
            assert(rest[k] == buffers[k]);
        }
        assert forall|k: int| 0 <= k < rest.len() implies indices_in_range(
            (#[trigger] rest[k]).vertices_of().len() as int,
            rest[k].indices_of(),
        ) by {
            assert(rest[k] == buffers[k]);
        }
        lemma_join_keeps_indices_in_range(rest);
        let n = buffers.len() - 1;
        assert(buffers.take(n) == rest);
        assert(buffers[n] == last);
        lemma_append_keeps_indices_in_range(
            joined_vertices(rest).len() as int,
            joined_indices(rest),
            last.vertices_of().len() as int,
            last.indices_of(),
        );
    }
}

/// What a vertex buffer holds: its vertices and its triangle indices.
pub trait VertexBufferView: Sized {
    spec fn vertices_of(&self) -> Seq<VertexUV>;

    spec fn indices_of(&self) -> Seq<u32>;
}

proof fn lemma_joined_prefix<B: VertexBufferView>(buffers: Seq<B>, j: int)
    requires
        0 <= j <= buffers.len(),
    ensures
        joined_vertices(buffers).take(joined_vertices(buffers.take(j)).len() as int)
            == joined_vertices(buffers.take(j)),
        joined_indices(buffers).take(joined_indices(buffers.take(j)).len() as int) == joined_indices(
            buffers.take(j),
        ),
        joined_vertices(buffers.take(j)).len() <= joined_vertices(buffers).len(),
        joined_indices(buffers.take(j)).len() <= joined_indices(buffers).len(),
    decreases buffers.len() - j,
{
    if j == buffers.len() {
        assert(buffers.take(j) == buffers);
        assert(joined_vertices(buffers).take(joined_vertices(buffers).len() as int)
            =~= joined_vertices(buffers));
        assert(joined_indices(buffers).take(joined_indices(buffers).len() as int)
            =~= joined_indices(buffers));
    } else {
        lemma_joined_prefix(buffers, j + 1);
        assert(buffers.take(j + 1).drop_last() == buffers.take(j));
        let v_small = joined_vertices(buffers.take(j));
        let v_mid = joined_vertices(buffers.take(j + 1));
        let i_small = joined_indices(buffers.take(j));
        let i_mid = joined_indices(buffers.take(j + 1));
        assert(v_mid.take(v_small.len() as int) =~= v_small);
        assert(i_mid.take(i_small.len() as int) =~= i_small);
        assert(joined_vertices(buffers).take(v_small.len() as int) =~= v_small);
        assert(joined_indices(buffers).take(i_small.len() as int) =~= i_small);
    }
}

/// Joining keeps every triangle: an index of buffer `k` reappears in the
/// joined buffer, shifted by the vertices of the buffers before `k`, and
/// still names the same vertex.
#[verifier::rlimit(80)]
pub proof fn lemma_join_keeps_triangles<B: VertexBufferView>(buffers: Seq<B>, k: int, p: int)
    requires
        joinable(buffers),
        0 <= k < buffers.len(),
        0 <= p < buffers[k].indices_of().len(),
        buffers[k].indices_of()[p] < buffers[k].vertices_of().len(),
    ensures
        ({
            let vertex_offset = joined_vertices(buffers.take(k)).len() as int;
            let index_offset = joined_indices(buffers.take(k)).len() as int;
            let joined_index = joined_indices(buffers)[index_offset + p];
            &&& index_offset + p < joined_indices(buffers).len()
            &&& joined_index == buffers[k].indices_of()[p] + vertex_offset
            &&& joined_index < joined_vertices(buffers).len()
            &&& joined_vertices(buffers)[joined_index as int] == buffers[k].vertices_of()[buffers[k].indices_of()[p] as int]
        }),
{
    lemma_joined_prefix(buffers, k + 1);
    let upto = buffers.take(k + 1);
    let before = buffers.take(k);
    let b = buffers[k];
    assert(upto.drop_last() == before);
    assert(upto.last() == b);
    let vertex_offset = joined_vertices(before).len() as int;
    let index_offset = joined_indices(before).len() as int;
    let idx = b.indices_of()[p];
    assert(fits_after(vertex_offset, b.indices_of()));
    assert(idx + vertex_offset <= u32::MAX);
    let ju = joined_indices(upto);
    let vu = joined_vertices(upto);
    assert(ju == joined_indices(before) + shifted(b.indices_of(), vertex_offset));
    assert(vu == joined_vertices(before) + b.vertices_of());
    assert(ju[index_offset + p] == idx + vertex_offset);
    assert(vu[idx + vertex_offset] == b.vertices_of()[idx as int]);
    let ji = joined_indices(buffers);
    let jv = joined_vertices(buffers);
    assert(ji.take(ju.len() as int) == ju);
    assert(jv.take(vu.len() as int) == vu);
    assert(ji.take(ju.len() as int)[index_offset + p] == ji[index_offset + p]);
    assert(jv.take(vu.len() as int)[idx + vertex_offset] == jv[idx + vertex_offset]);
}

pub trait VertexBufferUtils: VertexBufferView {
    /// Appends the vertices of `other`, and its indices shifted past the
    /// vertices already present.
    fn extend(&mut self, other: Self)
        requires
            fits_after(old(self).vertices_of().len() as int, other.indices_of()),
        ensures
            final(self).vertices_of() == old(self).vertices_of() + other.vertices_of(),
            final(self).indices_of() == old(self).indices_of() + shifted(
                other.indices_of(),
                old(self).vertices_of().len() as int,
            ),
    ;

    /// All buffers in one, in order.
    fn join(buffers: Vec<Self>) -> (r: Self)
        requires
            joinable(buffers@),
            joined_vertices(buffers@).len() <= usize::MAX,
            joined_indices(buffers@).len() <= usize::MAX,
        ensures
            r.vertices_of() == joined_vertices(buffers@),
            r.indices_of() == joined_indices(buffers@),
    ;
}

impl VertexBufferView for VertexBuffers<VertexUV, u32> {
    open spec fn vertices_of(&self) -> Seq<VertexUV> {
        uv_vertices(*self)
    }

    open spec fn indices_of(&self) -> Seq<u32> {
        uv_indices(*self)
    }
}

impl VertexBufferUtils for VertexBuffers<VertexUV, u32> {
    fn extend(&mut self, other: Self) {
        let mut mine = uv_buffers_new();
        std::mem::swap(&mut mine, self);
        let (mut vertices, mut indices) = uv_buffers_into_parts(mine);
        let (other_vertices, other_indices) = uv_buffers_into_parts(other);
        let index_offset = vertices.len() as u32;
        let ghost base_vertices = vertices@;
        let ghost base_indices = indices@;
        let mut k: usize = 0;
        while k < other_vertices.len()
            invariant
                0 <= k <= other_vertices@.len(),
                vertices@ == base_vertices + other_vertices@.take(k as int),
            decreases other_vertices@.len() - k,
        {
            vertices.push(other_vertices[k]);
            assert(base_vertices + other_vertices@.take(k + 1) =~= (base_vertices
                + other_vertices@.take(k as int)).push(other_vertices@[k as int]));
            k = k + 1;
        }
        assert(other_vertices@.take(k as int) =~= other_vertices@);
        let mut k: usize = 0;
        if other_indices.len() == 0 {
            assert(shifted(other_indices@, base_vertices.len() as int) =~= Seq::<u32>::empty());
        }
        while k < other_indices.len()
            invariant
                0 <= k <= other_indices@.len(),
                other_indices@.len() > 0 ==> index_offset == base_vertices.len(),
                fits_after(base_vertices.len() as int, other_indices@),
                indices@ == base_indices + shifted(other_indices@.take(k as int), index_offset as int),
            decreases other_indices@.len() - k,
        {
            assert(other_indices@[k as int] + index_offset <= u32::MAX);
            indices.push(other_indices[k] + index_offset);
            assert(base_indices + shifted(other_indices@.take(k + 1), index_offset as int) =~= (
            base_indices + shifted(other_indices@.take(k as int), index_offset as int)).push(
                (other_indices@[k as int] + index_offset) as u32,
            ));
            k = k + 1;
        }
        assert(other_indices@.take(k as int) =~= other_indices@);
        *self = uv_buffers_from_parts(vertices, indices);
    }

    fn join(buffers: Vec<Self>) -> (r: Self) {
        let mut num_vertices: usize = 0;
        let mut num_indices: usize = 0;
        let mut k: usize = 0;
        proof {
            lemma_joined_prefix_lengths(buffers@);
        }
        while k < buffers.len()
            invariant
                0 <= k <= buffers@.len(),
                num_vertices == joined_vertices(buffers@.take(k as int)).len(),
                num_indices == joined_indices(buffers@.take(k as int)).len(),
                joined_vertices(buffers@).len() <= usize::MAX,
                joined_indices(buffers@).len() <= usize::MAX,
                forall|j: int|
                    0 <= j <= buffers@.len() ==> joined_vertices(#[trigger] buffers@.take(j)).len()
                        <= joined_vertices(buffers@).len() && joined_indices(buffers@.take(j)).len()
                        <= joined_indices(buffers@).len(),
            decreases buffers@.len() - k,
        {
            let (v, i) = (uv_vertex_count(&buffers[k]), uv_index_count(&buffers[k]));
            assert(buffers@.take(k + 1).drop_last() == buffers@.take(k as int));
            assert(buffers@.take(k + 1).last() == buffers@[k as int]);
            assert(joined_vertices(buffers@.take(k + 1)).len() <= usize::MAX);
            num_vertices = num_vertices + v;
            num_indices = num_indices + i;
            k = k + 1;
        }
        let mut acc = uv_buffers_with_capacity(num_vertices, num_indices);
        let ghost all = buffers@;
        proof {
            assert(all.len() == buffers.len());
            assert(all.take(0) =~= Seq::<Self>::empty());
        }
        let mut k: usize = 0;
        for buffer in it: buffers
            invariant
                it.seq() == all,
                all.len() <= usize::MAX,
                k == it.index(),
                joinable(all),
                acc.vertices_of() == joined_vertices(all.take(k as int)),
                acc.indices_of() == joined_indices(all.take(k as int)),
        {
            assert(all[k as int] == buffer);
            assert(all.take(k + 1).drop_last() == all.take(k as int));
            assert(all.take(k + 1).last() == buffer);
            acc.extend(buffer);
            k = k + 1;
        }
        assert(all.take(all.len() as int) == all);
        acc
    }
}

proof fn lemma_joined_monotone<B: VertexBufferView>(buffers: Seq<B>, j: int)
    requires
        0 <= j <= buffers.len(),
    ensures
        joined_vertices(buffers.take(j)).len() <= joined_vertices(buffers).len(),
        joined_indices(buffers.take(j)).len() <= joined_indices(buffers).len(),
    decreases buffers.len() - j,
{
    if j == buffers.len() {
        assert(buffers.take(j) == buffers);
    } else {
        lemma_joined_monotone(buffers, j + 1);
        assert(buffers.take(j + 1).drop_last() == buffers.take(j));
    }
}

pub proof fn lemma_joined_prefix_lengths<B: VertexBufferView>(buffers: Seq<B>)
    ensures
        forall|j: int|
            0 <= j <= buffers.len() ==> joined_vertices(#[trigger] buffers.take(j)).len()
                <= joined_vertices(buffers).len() && joined_indices(buffers.take(j)).len()
                <= joined_indices(buffers).len(),
{
    assert forall|j: int| 0 <= j <= buffers.len() implies joined_vertices(
        #[trigger] buffers.take(j),
    ).len() <= joined_vertices(buffers).len() && joined_indices(buffers.take(j)).len()
        <= joined_indices(buffers).len() by {
        lemma_joined_monotone(buffers, j);
    }
}

} // verus!
