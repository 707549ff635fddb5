use std::collections::HashMap;
use std::ops::Range;
use vstd::prelude::*;

use super::svg_geometry::{
    svg_index_slice, svg_indices, svg_vertex_slice, svg_vertices, SVGGeometry,
};
use super::vertex::SVGVertex;
use crate::util::handle::Handle;

verus! {

broadcast use vstd::std_specs::hash::group_hash_axioms;

/// Identifies the source of a piece of vector art by its address.
#[derive(Clone, Copy, PartialEq, Eq, Hash, Debug, Structural)]
pub struct SVGSourceId(pub usize);

/// Where the vertices and indices of one geometry lie in the shared buffers.
#[derive(Debug)]
pub struct VectorInstanceBufferRanges {
    pub vertex_range: Range<u32>,
    pub index_range: Range<u32>,
}

impl Clone for VectorInstanceBufferRanges {
    fn clone(&self) -> (r: Self)
        ensures
            r == *self,
    {
        VectorInstanceBufferRanges {
            vertex_range: self.vertex_range.start..self.vertex_range.end,
            index_range: self.index_range.start..self.index_range.end,
        }
    }
}

impl Default for VectorInstanceBufferRanges {
    fn default() -> (r: Self)
        ensures
            r.vertex_range == (0u32..0u32),
            r.index_range == (0u32..0u32),
    {
        VectorInstanceBufferRanges { vertex_range: 0..0, index_range: 0..0 }
    }
}

/// The vertices of the geometries, one after another.
pub open spec fn all_vertices(objects: Seq<SVGGeometry>) -> Seq<SVGVertex>
    decreases objects.len(),
{
    if objects.len() == 0 {
        Seq::empty()
    } else {
        all_vertices(objects.drop_last()) + svg_vertices(objects.last().vertex_buffers)
    }
}

/// The indices of the geometries, one after another, each relative to the
/// first vertex of its own geometry.
pub open spec fn all_indices(objects: Seq<SVGGeometry>) -> Seq<u32>
    decreases objects.len(),
{
    if objects.len() == 0 {
        Seq::empty()
    } else {
        all_indices(objects.drop_last()) + svg_indices(objects.last().vertex_buffers)
    }
}

/// The ranges of geometry `k` when the geometries are laid out one after
/// another.
pub open spec fn ranges_match(objects: Seq<SVGGeometry>, k: int, r: VectorInstanceBufferRanges) -> bool {
    &&& r.vertex_range.start == all_vertices(objects.take(k)).len()
    &&& r.vertex_range.end == all_vertices(objects.take(k + 1)).len()
    &&& r.index_range.start == all_indices(objects.take(k)).len()
    &&& r.index_range.end == all_indices(objects.take(k + 1)).len()
}

/// A geometry added after `objects` keeps every vertex and index of the
/// shared buffers addressable with `u32`.
pub open spec fn fits_store(objects: Seq<SVGGeometry>, g: SVGGeometry) -> bool {
    &&& all_vertices(objects).len() + svg_vertices(g.vertex_buffers).len() <= u32::MAX
    &&& all_indices(objects).len() + svg_indices(g.vertex_buffers).len() <= u32::MAX
}

proof fn lemma_all_prefix(objects: Seq<SVGGeometry>, j: int)
    requires
        0 <= j <= objects.len(),
    ensures
        all_vertices(objects).take(all_vertices(objects.take(j)).len() as int) == all_vertices(
            objects.take(j),
        ),
        all_indices(objects).take(all_indices(objects.take(j)).len() as int) == all_indices(
            objects.take(j),
        ),
        all_vertices(objects.take(j)).len() <= all_vertices(objects).len(),
        all_indices(objects.take(j)).len() <= all_indices(objects).len(),
    decreases objects.len() - j,
{
    if j == objects.len() {
        assert(objects.take(j) == objects);
        assert(all_vertices(objects).take(all_vertices(objects).len() as int) =~= all_vertices(objects));
        assert(all_indices(objects).take(all_indices(objects).len() as int) =~= all_indices(objects));
    } else {
        lemma_all_prefix(objects, j + 1);
        assert(objects.take(j + 1).drop_last() == objects.take(j));
        let vs = all_vertices(objects.take(j));
        let is = all_indices(objects.take(j));
        assert(all_vertices(objects.take(j + 1)).take(vs.len() as int) =~= vs);
        assert(all_indices(objects.take(j + 1)).take(is.len() as int) =~= is);
        assert(all_vertices(objects).take(vs.len() as int) =~= vs);
        assert(all_indices(objects).take(is.len() as int) =~= is);
    }
}

/// The ranges recorded for a geometry locate exactly its own vertices and
/// indices in the concatenated data that is uploaded.
pub proof fn lemma_ranges_locate_geometry(
    objects: Seq<SVGGeometry>,
    k: int,
    r: VectorInstanceBufferRanges,
)
    requires
        0 <= k < objects.len(),
        ranges_match(objects, k, r),
    ensures
        r.vertex_range.start <= r.vertex_range.end <= all_vertices(objects).len(),
        r.index_range.start <= r.index_range.end <= all_indices(objects).len(),
        all_vertices(objects).subrange(r.vertex_range.start as int, r.vertex_range.end as int)
            == svg_vertices(objects[k].vertex_buffers),
        all_indices(objects).subrange(r.index_range.start as int, r.index_range.end as int)
            == svg_indices(objects[k].vertex_buffers),
{
    lemma_all_prefix(objects, k + 1);
    let upto = objects.take(k + 1);
    assert(upto.drop_last() == objects.take(k));
    assert(upto.last() == objects[k]);
    let av = all_vertices(objects);
    let ai = all_indices(objects);
    let uv = all_vertices(upto);
    let ui = all_indices(upto);
    assert(uv.subrange(r.vertex_range.start as int, r.vertex_range.end as int) =~= svg_vertices(
        objects[k].vertex_buffers,
    ));
    assert(ui.subrange(r.index_range.start as int, r.index_range.end as int) =~= svg_indices(
        objects[k].vertex_buffers,
    ));
    assert forall|t: int| 0 <= t < uv.len() implies av[t] == uv[t] by {
        assert(av.take(uv.len() as int)[t] == av[t]);
    }
    assert forall|t: int| 0 <= t < ui.len() implies ai[t] == ui[t] by {
        assert(ai.take(ui.len() as int)[t] == ai[t]);
    }
    assert(av.subrange(r.vertex_range.start as int, r.vertex_range.end as int) =~= uv.subrange(
        r.vertex_range.start as int,
        r.vertex_range.end as int,
    ));
    assert(ai.subrange(r.index_range.start as int, r.index_range.end as int) =~= ui.subrange(
        r.index_range.start as int,
        r.index_range.end as int,
    ));
}

/// After a geometry is added for a source, looking that source up gives
/// the handle that adding returned, and looking up any other source gives
/// what it gave before.
pub proof fn lemma_lookup_after_add(
    before: GeometryStore,
    after: GeometryStore,
    id: SVGSourceId,
    h: Handle<SVGGeometry>,
    other: SVGSourceId,
)
    requires
        after.lookup() == before.lookup().insert(id.0, h),
    ensures
        after.lookup().contains_key(id.0),
        after.lookup()[id.0] == h,
        other.0 != id.0 ==> after.lookup().contains_key(other.0) == before.lookup().contains_key(
            other.0,
        ),
        other.0 != id.0 && before.lookup().contains_key(other.0) ==> after.lookup()[other.0]
            == before.lookup()[other.0],
{
}

/// The tessellated geometries of a vector renderer, the buffer ranges that
/// each occupies, and which geometry each source was tessellated into.
pub struct GeometryStore {
    vector_objects: Vec<(VectorInstanceBufferRanges, SVGGeometry)>,
    vector_lookup: HashMap<usize, Handle<SVGGeometry>>,
}

impl GeometryStore {
    /// The stored geometries, in the order they were added.
    pub closed spec fn objects(self) -> Seq<SVGGeometry> {
        self.vector_objects@.map_values(|e: (VectorInstanceBufferRanges, SVGGeometry)| e.1)
    }

    /// The buffer ranges of the stored geometries.
    pub closed spec fn ranges(self) -> Seq<VectorInstanceBufferRanges> {
        self.vector_objects@.map_values(|e: (VectorInstanceBufferRanges, SVGGeometry)| e.0)
    }

    /// The handle recorded for each source address.
    pub closed spec fn lookup(self) -> Map<usize, Handle<SVGGeometry>> {
        self.vector_lookup@
    }

    #[verifier::type_invariant]
    spec fn well_formed(self) -> bool {
        &&& forall|k: int|
            0 <= k < self.vector_objects@.len() ==> ranges_match(
                self.objects(),
                k,
                #[trigger] self.vector_objects@[k].0,
            )
        &&& all_vertices(self.objects()).len() <= u32::MAX
        &&& all_indices(self.objects()).len() <= u32::MAX
        &&& forall|id: usize|
            #[trigger] self.vector_lookup@.contains_key(id) ==> self.vector_lookup@[id].index
                < self.vector_objects@.len()
    }

    pub fn new() -> (r: Self)
        ensures
            r.objects() == Seq::<SVGGeometry>::empty(),
            r.lookup() == Map::<usize, Handle<SVGGeometry>>::empty(),
    {
        let r = GeometryStore { vector_objects: Vec::new(), vector_lookup: HashMap::new() };
        assert(r.objects() =~= Seq::<SVGGeometry>::empty());
        r
    }

    /// The ranges a geometry added next would occupy: right after the
    /// geometries already stored.
    pub fn next_vector_object_meta(&self, obj: &SVGGeometry) -> (r: VectorInstanceBufferRanges)
        requires
            all_vertices(self.objects()).len() + svg_vertices(obj.vertex_buffers).len() <= u32::MAX,
            all_indices(self.objects()).len() + svg_indices(obj.vertex_buffers).len() <= u32::MAX,
        ensures
            ranges_match(self.objects().push(*obj), self.objects().len() as int, r),
    {
        proof {
            use_type_invariant(self);
        }
        let ghost objs = self.objects();
        let ghost n = objs.len() as int;
        let n_objects = self.vector_objects.len();
        let previous_meta = if n_objects == 0 {
            VectorInstanceBufferRanges::default()
        } else {
            let last = &self.vector_objects[n_objects - 1].0;
            assert(ranges_match(objs, n - 1, *last));
            last.clone()
        };
        proof {
            assert(objs.take(n) =~= objs);
            if n == 0 {
                assert(objs.take(0) =~= Seq::<SVGGeometry>::empty());
            }
        }
        let vertex_offset = svg_vertex_slice(&obj.vertex_buffers).len() as u32;
        let index_offset = svg_index_slice(&obj.vertex_buffers).len() as u32;
        let vertex_start = previous_meta.vertex_range.end;
        let index_start = previous_meta.index_range.end;
        let r = VectorInstanceBufferRanges {
            vertex_range: vertex_start..vertex_start + vertex_offset,
            index_range: index_start..index_start + index_offset,
        };
        proof {
            let pushed = objs.push(*obj);
            assert(pushed.take(n) =~= objs);
            assert(pushed.take(n + 1) =~= pushed);
            assert(pushed.drop_last() =~= objs);
        }
        r
    }

    /// Stores a tessellated geometry after the others and records it as the
    /// geometry of `id`; the returned handle names it.
    pub fn add_vector_object(&mut self, id: SVGSourceId, vector_object: SVGGeometry) -> (h: Handle<
        SVGGeometry,
    >)
        requires
            fits_store(old(self).objects(), vector_object),
        ensures
            h.index == old(self).objects().len(),
            final(self).objects() == old(self).objects().push(vector_object),
            final(self).lookup() == old(self).lookup().insert(id.0, h),
            final(self).ranges().len() == final(self).objects().len(),
            final(self).ranges().take(old(self).objects().len() as int) == old(self).ranges(),
            ranges_match(final(self).objects(), h.index as int, final(self).ranges()[h.index as int]),
    {
        proof {
            use_type_invariant(&*self);
        }
        let ghost old_objs = self.objects();
        let ghost old_ranges = self.ranges();
        let handle = Handle::new(self.vector_objects.len());
        let meta = self.next_vector_object_meta(&vector_object);
        let ghost new_objs = old_objs.push(vector_object);
        proof {
            let n = old_objs.len() as int;
            assert forall|k: int| 0 <= k <= n implies new_objs.take(k) == old_objs.take(k) by {
                assert(new_objs.take(k) =~= old_objs.take(k));
            }
            assert forall|k: int| 0 <= k < n implies #[trigger] ranges_match(new_objs, k, self.vector_objects@[k].0) by {
                assert(ranges_match(old_objs, k, self.vector_objects@[k].0));
                assert(new_objs.take(k) == old_objs.take(k));
                assert(new_objs.take(k + 1) == old_objs.take(k + 1));
            }
            assert(new_objs.take(n + 1) =~= new_objs);
            assert(new_objs.drop_last() =~= old_objs);
        }
        let mut lookup = HashMap::new();
        std::mem::swap(&mut lookup, &mut self.vector_lookup);
        lookup.insert(id.0, handle);
        let mut objects = Vec::new();
        std::mem::swap(&mut objects, &mut self.vector_objects);
        objects.push((meta, vector_object));
        proof {
            assert(objects@.map_values(|e: (VectorInstanceBufferRanges, SVGGeometry)| e.1) =~= new_objs);
            assert(objects@.map_values(|e: (VectorInstanceBufferRanges, SVGGeometry)| e.0).take(
                old_objs.len() as int,
            ) =~= old_ranges);
        }
        self.vector_objects = objects;
        self.vector_lookup = lookup;
        handle
    }

    /// The geometry `handle` names.
    pub fn geometry(&self, handle: Handle<SVGGeometry>) -> (r: &SVGGeometry)
        requires
            handle.index < self.objects().len(),
        ensures
            *r == self.objects()[handle.index as int],
    {
        &self.vector_objects[handle.index].1
    }

    /// The number of vertices and of indices of all stored geometries.
    fn totals(&self) -> (r: (u32, u32))
        ensures
            r.0 == all_vertices(self.objects()).len(),
            r.1 == all_indices(self.objects()).len(),
    {
        proof {
            use_type_invariant(self);
        }
        let ghost objs = self.objects();
        let n = self.vector_objects.len();
        if n == 0 {
            assert(objs =~= Seq::<SVGGeometry>::empty());
            (0, 0)
        } else {
            let last = &self.vector_objects[n - 1].0;
            assert(ranges_match(objs, n - 1, *last));
            assert(objs.take(n as int) =~= objs);
            (last.vertex_range.end, last.index_range.end)
        }
    }

    /// Stores a tessellated geometry after the others and records it as the
    /// geometry of `id`, where the shared buffers can still address all of
    /// its vertices and indices with `u32`; otherwise changes nothing.
    pub fn try_add_vector_object(&mut self, id: SVGSourceId, vector_object: SVGGeometry) -> (r:
        Option<Handle<SVGGeometry>>)
        ensures
            r is Some <==> fits_store(old(self).objects(), vector_object),
            r is Some ==> {
                &&& r->0.index == old(self).objects().len()
                &&& final(self).objects() == old(self).objects().push(vector_object)
                &&& final(self).lookup() == old(self).lookup().insert(id.0, r->0)
            },
            r is None ==> final(self).objects() == old(self).objects() && final(self).lookup()
                == old(self).lookup(),
    {
        let (vertices, indices) = self.totals();
        let more_vertices = svg_vertex_slice(&vector_object.vertex_buffers).len();
        let more_indices = svg_index_slice(&vector_object.vertex_buffers).len();
        if more_vertices as u64 <= (u32::MAX - vertices) as u64 && more_indices as u64 <= (u32::MAX
            - indices) as u64 {
            Some(self.add_vector_object(id, vector_object))
        } else {
            None
        }
    }

    /// The geometry recorded for `id`, if any.
    pub fn get_vector(&self, id: SVGSourceId) -> (r: Option<Handle<SVGGeometry>>)
        ensures
            r == (if self.lookup().contains_key(id.0) {
                Some(self.lookup()[id.0])
            } else {
                None
            }),
            r is Some ==> r->0.index < self.objects().len(),
    {
        proof {
            use_type_invariant(self);
        }
        match self.vector_lookup.get(&id.0) {
            Some(h) => Some(*h),
            None => None,
        }
    }

    /// The number of stored geometries.
    pub fn len(&self) -> (n: usize)
        ensures
            n == self.objects().len(),
    {
        self.vector_objects.len()
    }

    /// The buffer ranges of the geometry `handle` names.
    pub fn meta(&self, handle: Handle<SVGGeometry>) -> (r: &VectorInstanceBufferRanges)
        requires
            handle.index < self.objects().len(),
        ensures
            *r == self.ranges()[handle.index as int],
            ranges_match(self.objects(), handle.index as int, *r),
    {
        proof {
            use_type_invariant(self);
        }
        &self.vector_objects[handle.index].0
    }

    /// The vertices and indices of all geometries, one after another, as
    /// they are uploaded to the shared buffers.
    pub fn geometry_data(&self) -> (r: (Vec<SVGVertex>, Vec<u32>))
        ensures
            r.0@ == all_vertices(self.objects()),
            r.1@ == all_indices(self.objects()),
    {
        let ghost objs = self.objects();
        let mut vertex_data: Vec<SVGVertex> = Vec::new();
        let mut index_data: Vec<u32> = Vec::new();
        let mut k: usize = 0;
        assert(objs.take(0) =~= Seq::<SVGGeometry>::empty());
        while k < self.vector_objects.len()
            invariant
                0 <= k <= objs.len(),
                objs == self.objects(),
                objs.len() == self.vector_objects@.len(),
                vertex_data@ == all_vertices(objs.take(k as int)),
                index_data@ == all_indices(objs.take(k as int)),
            decreases objs.len() - k,
        {
            let geometry = &self.vector_objects[k].1;
            assert(*geometry == objs[k as int]);
            let vertices = svg_vertex_slice(&geometry.vertex_buffers);
            let indices = svg_index_slice(&geometry.vertex_buffers);
            let ghost vbase = vertex_data@;
            let ghost ibase = index_data@;
            let mut m: usize = 0;
            while m < vertices.len()
                invariant
                    0 <= m <= vertices@.len(),
                    vertex_data@ == vbase + vertices@.take(m as int),
                decreases vertices@.len() - m,
            {
                vertex_data.push(vertices[m]);
                assert(vbase + vertices@.take(m + 1) =~= (vbase + vertices@.take(m as int)).push(vertices@[m as int]));
                m = m + 1;
            }
            let mut m: usize = 0;
            while m < indices.len()
                invariant
                    0 <= m <= indices@.len(),
                    index_data@ == ibase + indices@.take(m as int),
                decreases indices@.len() - m,
            {
                index_data.push(indices[m]);
                assert(ibase + indices@.take(m + 1) =~= (ibase + indices@.take(m as int)).push(indices@[m as int]));
                m = m + 1;
            }
            assert(vertices@.take(vertices@.len() as int) =~= vertices@);
            assert(indices@.take(indices@.len() as int) =~= indices@);
            assert(objs.take(k + 1).drop_last() == objs.take(k as int));
            assert(objs.take(k + 1).last() == objs[k as int]);
            k = k + 1;
        }
        assert(objs.take(objs.len() as int) =~= objs);
        (vertex_data, index_data)
    }
}

} // verus!
