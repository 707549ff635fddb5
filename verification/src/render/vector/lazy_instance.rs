use glam::{Vec2, Vec4};
use std::collections::HashMap;
use vstd::prelude::*;

use super::draw_call_ordering::{bucket, group_instance, GroupedInstances};
use super::instance::{VectorInstance, ZIndex};
use super::renderer::{fits_store, GeometryStore, SVGSourceId};
use super::svg_geometry::{SVGGeometry, SVGSource};
use crate::util::handle::Handle;

verus! {

broadcast use vstd::std_specs::hash::group_hash_axioms;

/// A placement of vector art that is tessellated on first use.
#[derive(Clone, Copy)]
pub struct LazyVectorInstance<'a> {
    pub source: &'a SVGSource,
    pub transform: Vec2,
    pub scale: Vec2,
    pub color: Vec4,
    pub z_index: ZIndex,
}

/// The instance a lazy instance becomes once its art is the geometry `h`.
pub open spec fn resolved(lazy: LazyVectorInstance<'static>, h: Handle<SVGGeometry>) -> VectorInstance {
    VectorInstance {
        id: h,
        transform: lazy.transform,
        scale: lazy.scale,
        color: lazy.color,
        z_index: lazy.z_index,
    }
}

/// The layers of the first `n` instances.
pub open spec fn lazy_layers(instances: Seq<LazyVectorInstance<'static>>, n: int) -> Set<ZIndex>
    decreases n,
{
    if n <= 0 {
        Set::empty()
    } else {
        lazy_layers(instances, n - 1).insert(instances[n - 1].z_index)
    }
}

/// The geometries that the first `n` instances in layer `z` draw, the
/// geometry of an instance being the one `lookup` gives its source.
pub open spec fn lazy_geometries(
    instances: Seq<LazyVectorInstance<'static>>,
    ids: Seq<SVGSourceId>,
    lookup: Map<usize, Handle<SVGGeometry>>,
    n: int,
    z: ZIndex,
) -> Set<usize>
    decreases n,
{
    if n <= 0 {
        Set::empty()
    } else if instances[n - 1].z_index == z {
        lazy_geometries(instances, ids, lookup, n - 1, z).insert(lookup[ids[n - 1].0].index)
    } else {
        lazy_geometries(instances, ids, lookup, n - 1, z)
    }
}

/// Those of the first `n` instances that lie in layer `z` and draw geometry
/// `h`, resolved, in submission order.
pub open spec fn lazy_bucket(
    instances: Seq<LazyVectorInstance<'static>>,
    ids: Seq<SVGSourceId>,
    lookup: Map<usize, Handle<SVGGeometry>>,
    n: int,
    z: ZIndex,
    h: usize,
) -> Seq<VectorInstance>
    decreases n,
{
    if n <= 0 {
        Seq::empty()
    } else {
        let prev = lazy_bucket(instances, ids, lookup, n - 1, z, h);
        let hh = lookup[ids[n - 1].0];
        if instances[n - 1].z_index == z && hh.index == h {
            prev.push(resolved(instances[n - 1], hh))
        } else {
            prev
        }
    }
}

/// Every grouped instance keeps the placement of a lazy instance it was
/// made from: that instance lies in the bucket's layer, its source names the
/// bucket's geometry, and the grouped instance has that geometry's handle and
/// the lazy instance's transform, scale, colour and z-index.
pub proof fn lemma_lazy_bucket_keeps_placement(
    instances: Seq<LazyVectorInstance<'static>>,
    ids: Seq<SVGSourceId>,
    lookup: Map<usize, Handle<SVGGeometry>>,
    n: int,
    z: ZIndex,
    h: usize,
)
    requires
        0 <= n <= instances.len(),
        ids.len() == instances.len(),
    ensures
        forall|j: int|
            #![trigger lazy_bucket(instances, ids, lookup, n, z, h)[j]]
            0 <= j < lazy_bucket(instances, ids, lookup, n, z, h).len() ==> exists|k: int|
                #![trigger instances[k]]
                0 <= k < n && instances[k].z_index == z && lookup[ids[k].0].index == h
                    && lazy_bucket(instances, ids, lookup, n, z, h)[j].id == lookup[ids[k].0]
                    && lazy_bucket(instances, ids, lookup, n, z, h)[j].transform
                    == instances[k].transform && lazy_bucket(instances, ids, lookup, n, z, h)[j].scale
                    == instances[k].scale && lazy_bucket(instances, ids, lookup, n, z, h)[j].color
                    == instances[k].color && lazy_bucket(instances, ids, lookup, n, z, h)[j].z_index
                    == instances[k].z_index,
    decreases n,
{
    if n > 0 {
        lemma_lazy_bucket_keeps_placement(instances, ids, lookup, n - 1, z, h);
        let prev = lazy_bucket(instances, ids, lookup, n - 1, z, h);
        let all = lazy_bucket(instances, ids, lookup, n, z, h);
        assert forall|j: int| #![trigger all[j]] 0 <= j < all.len() implies exists|k: int|
            #![trigger instances[k]]
            0 <= k < n && instances[k].z_index == z && lookup[ids[k].0].index == h && all[j].id
                == lookup[ids[k].0] && all[j].transform == instances[k].transform && all[j].scale
                == instances[k].scale && all[j].color == instances[k].color && all[j].z_index
                == instances[k].z_index by {
            if j < prev.len() {
                assert(all[j] == prev[j]);
                let k = choose|k: int|
                    #![trigger instances[k]]
                    0 <= k < n - 1 && instances[k].z_index == z && lookup[ids[k].0].index == h
                        && prev[j].id == lookup[ids[k].0] && prev[j].transform == instances[k].transform
                        && prev[j].scale == instances[k].scale && prev[j].color == instances[k].color
                        && prev[j].z_index == instances[k].z_index;
                assert(instances[k] == instances[k]);
            } else {
                let k = n - 1;
                assert(instances[k] == instances[k]);
            }
        }
    }
}

/// `lookup` knows the sources of the first `n` instances.
pub open spec fn knows_sources(
    lookup: Map<usize, Handle<SVGGeometry>>,
    ids: Seq<SVGSourceId>,
    n: int,
) -> bool {
    forall|j: int| 0 <= j < n ==> lookup.contains_key(#[trigger] ids[j].0)
}

/// `after` extends `before`: it keeps every entry of `before`.
pub open spec fn extends(
    after: Map<usize, Handle<SVGGeometry>>,
    before: Map<usize, Handle<SVGGeometry>>,
) -> bool {
    forall|id: usize|
        #[trigger] before.contains_key(id) ==> after.contains_key(id) && after[id] == before[id]
}

/// `groups` holds the first `n` instances, resolved with `lookup`, and
/// nothing else.
pub open spec fn groups_lazily(
    groups: GroupedInstances,
    instances: Seq<LazyVectorInstance<'static>>,
    ids: Seq<SVGSourceId>,
    lookup: Map<usize, Handle<SVGGeometry>>,
    n: int,
) -> bool {
    &&& groups@.dom() == lazy_layers(instances, n)
    &&& forall|z: ZIndex|
        #[trigger] groups@.contains_key(z) ==> groups@[z]@.dom() == lazy_geometries(
            instances,
            ids,
            lookup,
            n,
            z,
        )
    &&& forall|z: ZIndex, h: usize|
        #[trigger] bucket(groups, z, h) == lazy_bucket(instances, ids, lookup, n, z, h)
}

proof fn lemma_lazy_agree(
    instances: Seq<LazyVectorInstance<'static>>,
    ids: Seq<SVGSourceId>,
    a: Map<usize, Handle<SVGGeometry>>,
    b: Map<usize, Handle<SVGGeometry>>,
    n: int,
)
    requires
        knows_sources(a, ids, n),
        extends(b, a),
    ensures
        forall|z: ZIndex, h: usize|
            #[trigger] lazy_bucket(instances, ids, b, n, z, h) == lazy_bucket(instances, ids, a, n, z, h),
        forall|z: ZIndex|
            #[trigger] lazy_geometries(instances, ids, b, n, z) == lazy_geometries(instances, ids, a, n, z),
    decreases n,
{
    if n > 0 {
        lemma_lazy_agree(instances, ids, a, b, n - 1);
        assert(a.contains_key(ids[n - 1].0));
        assert forall|z: ZIndex, h: usize|
            #[trigger] lazy_bucket(instances, ids, b, n, z, h) == lazy_bucket(instances, ids, a, n, z, h) by {
            assert(lazy_bucket(instances, ids, b, n - 1, z, h) == lazy_bucket(instances, ids, a, n - 1, z, h));
        }
        assert forall|z: ZIndex|
            #[trigger] lazy_geometries(instances, ids, b, n, z) == lazy_geometries(instances, ids, a, n, z) by {
            assert(lazy_geometries(instances, ids, b, n - 1, z) == lazy_geometries(instances, ids, a, n - 1, z));
        }
    }
}

proof fn lemma_no_layer_no_geometries(
    instances: Seq<LazyVectorInstance<'static>>,
    ids: Seq<SVGSourceId>,
    lookup: Map<usize, Handle<SVGGeometry>>,
    n: int,
    z: ZIndex,
)
    requires
        !lazy_layers(instances, n).contains(z),
    ensures
        lazy_geometries(instances, ids, lookup, n, z) == Set::<usize>::empty(),
    decreases n,
{
    if n > 0 {
        lemma_no_layer_no_geometries(instances, ids, lookup, n - 1, z);
    }
}

/// Geometry `m` of `objects` was tessellated from the source of one of the
/// first `n` instances: a source that `before` did not know and that
/// `lookup` maps to `m`.
pub open spec fn made_from<F: Fn(&SVGSource) -> SVGGeometry>(
    tessellate: F,
    objects: Seq<SVGGeometry>,
    lookup: Map<usize, Handle<SVGGeometry>>,
    before: Map<usize, Handle<SVGGeometry>>,
    instances: Seq<LazyVectorInstance<'static>>,
    ids: Seq<SVGSourceId>,
    n: int,
    m: int,
) -> bool {
    exists|j: int|
        #![trigger ids[j]]
        0 <= j < n && !before.contains_key(ids[j].0) && lookup.contains_key(ids[j].0)
            && lookup[ids[j].0].index == m && call_ensures(tessellate, (instances[j].source,), objects[m])
}

/// The sources among the first `n` instances that `before` does not know,
/// each once, in the order they first appear.
pub open spec fn new_sources(
    ids: Seq<SVGSourceId>,
    before: Map<usize, Handle<SVGGeometry>>,
    n: int,
) -> Seq<usize>
    decreases n,
{
    if n <= 0 {
        Seq::empty()
    } else {
        let prev = new_sources(ids, before, n - 1);
        let id = ids[n - 1].0;
        if before.contains_key(id) || prev.contains(id) {
            prev
        } else {
            prev.push(id)
        }
    }
}

/// The geometries stored past `from` are those of the new sources, in
/// order: new source `j` names geometry `from + j`, and a source is known
/// iff `before` knew it or it is new.
pub open spec fn numbered_in_order(
    objects: Seq<SVGGeometry>,
    lookup: Map<usize, Handle<SVGGeometry>>,
    before: Map<usize, Handle<SVGGeometry>>,
    fresh: Seq<usize>,
    from: int,
) -> bool {
    &&& objects.len() == from + fresh.len()
    &&& forall|j: int|
        0 <= j < fresh.len() ==> lookup.contains_key(#[trigger] fresh[j]) && lookup[fresh[j]].index
            == from + j
    &&& forall|id: usize|
        #[trigger] lookup.contains_key(id) <==> before.contains_key(id) || fresh.contains(id)
}

/// Every geometry of `objects` from position `from` on was tessellated
/// from the source of one of the first `n` instances (see `made_from`).
pub open spec fn all_made_from<F: Fn(&SVGSource) -> SVGGeometry>(
    tessellate: F,
    objects: Seq<SVGGeometry>,
    lookup: Map<usize, Handle<SVGGeometry>>,
    before: Map<usize, Handle<SVGGeometry>>,
    instances: Seq<LazyVectorInstance<'static>>,
    ids: Seq<SVGSourceId>,
    from: int,
    n: int,
) -> bool {
    forall|m: int|
        from <= m < objects.len() ==> #[trigger] made_from(
            tessellate,
            objects,
            lookup,
            before,
            instances,
            ids,
            n,
            m,
        )
}

proof fn lemma_all_made_from_more<F: Fn(&SVGSource) -> SVGGeometry>(
    tessellate: F,
    objects: Seq<SVGGeometry>,
    lookup: Map<usize, Handle<SVGGeometry>>,
    before: Map<usize, Handle<SVGGeometry>>,
    instances: Seq<LazyVectorInstance<'static>>,
    ids: Seq<SVGSourceId>,
    from: int,
    n: int,
    n2: int,
)
    requires
        all_made_from(tessellate, objects, lookup, before, instances, ids, from, n),
        n <= n2,
    ensures
        all_made_from(tessellate, objects, lookup, before, instances, ids, from, n2),
{
    assert forall|m: int| from <= m < objects.len() implies #[trigger] made_from(
        tessellate,
        objects,
        lookup,
        before,
        instances,
        ids,
        n2,
        m,
    ) by {
        assert(made_from(tessellate, objects, lookup, before, instances, ids, n, m));
        let j = choose|j: int|
            #![trigger ids[j]]
            0 <= j < n && !before.contains_key(ids[j].0) && lookup.contains_key(ids[j].0)
                && lookup[ids[j].0].index == m && call_ensures(
                tessellate,
                (instances[j].source,),
                objects[m],
            );
        assert(0 <= j < n2 && ids[j] == ids[j]);
    }
}

/// Storing the tessellation `g` of the source of instance `k`, a source
/// unknown until then, keeps every stored geometry accounted for.
proof fn lemma_all_made_from_add<F: Fn(&SVGSource) -> SVGGeometry>(
    tessellate: F,
    objects: Seq<SVGGeometry>,
    lookup: Map<usize, Handle<SVGGeometry>>,
    before: Map<usize, Handle<SVGGeometry>>,
    instances: Seq<LazyVectorInstance<'static>>,
    ids: Seq<SVGSourceId>,
    from: int,
    k: int,
    g: SVGGeometry,
    h: Handle<SVGGeometry>,
)
    requires
        all_made_from(tessellate, objects, lookup, before, instances, ids, from, k),
        0 <= k < ids.len(),
        k < instances.len(),
        !lookup.contains_key(ids[k].0),
        extends(lookup, before),
        call_ensures(tessellate, (instances[k].source,), g),
        h.index == objects.len(),
    ensures
        all_made_from(
            tessellate,
            objects.push(g),
            lookup.insert(ids[k].0, h),
            before,
            instances,
            ids,
            from,
            k + 1,
        ),
{
    let objects2 = objects.push(g);
    let lookup2 = lookup.insert(ids[k].0, h);
    assert forall|m: int| from <= m < objects2.len() implies #[trigger] made_from(
        tessellate,
        objects2,
        lookup2,
        before,
        instances,
        ids,
        k + 1,
        m,
    ) by {
        if m < objects.len() {
            assert(made_from(tessellate, objects, lookup, before, instances, ids, k, m));
            let j = choose|j: int|
                #![trigger ids[j]]
                0 <= j < k && !before.contains_key(ids[j].0) && lookup.contains_key(ids[j].0)
                    && lookup[ids[j].0].index == m && call_ensures(
                    tessellate,
                    (instances[j].source,),
                    objects[m],
                );
            assert(objects2[m] == objects[m]);
            assert(ids[j].0 != ids[k].0);
            assert(0 <= j < k + 1 && ids[j] == ids[j]);
        } else {
            assert(!before.contains_key(ids[k].0));
            assert(objects2[m] == g);
            assert(0 <= k < k + 1 && ids[k] == ids[k]);
        }
    }
}

impl GeometryStore {
    /// Groups lazily placed vector art by layer and geometry, in submission
    /// order, tessellating the art of a source the first time the store
    /// meets it. `ids[k]` identifies the source of `instances[k]`.
    ///
    /// The result is `None` when a tessellated geometry would not fit the
    /// shared `u32`-addressed buffers; the geometries stored until then stay.
    pub fn convert_lazy_instances<F: Fn(&SVGSource) -> SVGGeometry>(
        &mut self,
        instances: &[LazyVectorInstance<'static>],
        ids: &[SVGSourceId],
        tessellate: F,
    ) -> (r: Option<GroupedInstances>)
        requires
            ids@.len() == instances@.len(),
            forall|s: &SVGSource| tessellate.requires((s,)),
        ensures
            final(self).objects().len() >= old(self).objects().len(),
            final(self).objects().take(old(self).objects().len() as int) == old(self).objects(),
            extends(final(self).lookup(), old(self).lookup()),
            forall|id: usize|
                #[trigger] final(self).lookup().contains_key(id) ==> old(self).lookup().contains_key(id)
                    || exists|k: int| 0 <= k < ids@.len() && ids@[k].0 == id,
            all_made_from(
                tessellate,
                final(self).objects(),
                final(self).lookup(),
                old(self).lookup(),
                instances@,
                ids@,
                old(self).objects().len() as int,
                instances@.len() as int,
            ),
            match r {
                Some(groups) => {
                    &&& numbered_in_order(
                        final(self).objects(),
                        final(self).lookup(),
                        old(self).lookup(),
                        new_sources(ids@, old(self).lookup(), ids@.len() as int),
                        old(self).objects().len() as int,
                    )
                    &&& knows_sources(final(self).lookup(), ids@, ids@.len() as int)
                    &&& forall|k: int|
                        0 <= k < ids@.len() ==> final(self).lookup()[#[trigger] ids@[k].0].index
                            < final(self).objects().len()
                    &&& groups_lazily(
                        groups,
                        instances@,
                        ids@,
                        final(self).lookup(),
                        instances@.len() as int,
                    )
                    &&& forall|z: ZIndex, h: usize, j: int|
                        #![trigger bucket(groups, z, h)[j]]
                        0 <= j < bucket(groups, z, h).len() ==> exists|k: int|
                            #![trigger instances@[k]]
                            0 <= k < instances@.len() && instances@[k].z_index == z
                                && final(self).lookup()[ids@[k].0].index == h && bucket(
                                groups,
                                z,
                                h,
                            )[j].id == final(self).lookup()[ids@[k].0] && bucket(groups, z, h)[j].transform
                                == instances@[k].transform && bucket(groups, z, h)[j].scale
                                == instances@[k].scale && bucket(groups, z, h)[j].color
                                == instances@[k].color && bucket(groups, z, h)[j].z_index
                                == instances@[k].z_index
                },
                None => exists|k: int, g: SVGGeometry|
                    0 <= k < instances@.len() && call_ensures(tessellate, (instances@[k].source,), g)
                        && !fits_store(final(self).objects(), g),
            },
    {
        let ghost old_objs = self.objects();
        let ghost old_lookup = self.lookup();
        let ghost is = instances@;
        let ghost ds = ids@;
        let mut groups: GroupedInstances = HashMap::new();
        let mut k: usize = 0;
        while k < instances.len()
            invariant
                old_objs == old(self).objects(),
                old_lookup == old(self).lookup(),
                is == instances@,
                ds == ids@,
                ds.len() == is.len(),
                forall|s: &SVGSource| tessellate.requires((s,)),
                0 <= k <= is.len(),
                self.objects().len() >= old_objs.len(),
                self.objects().take(old_objs.len() as int) == old_objs,
                extends(self.lookup(), old_lookup),
                forall|id: usize|
                    #[trigger] self.lookup().contains_key(id) ==> old_lookup.contains_key(id)
                        || exists|j: int| 0 <= j < k && ds[j].0 == id,
                all_made_from(
                    tessellate,
                    self.objects(),
                    self.lookup(),
                    old_lookup,
                    is,
                    ds,
                    old_objs.len() as int,
                    k as int,
                ),
                numbered_in_order(
                    self.objects(),
                    self.lookup(),
                    old_lookup,
                    new_sources(ds, old_lookup, k as int),
                    old_objs.len() as int,
                ),
                knows_sources(self.lookup(), ds, k as int),
                forall|j: int|
                    0 <= j < k ==> self.lookup()[#[trigger] ds[j].0].index < self.objects().len(),
                groups_lazily(groups, is, ds, self.lookup(), k as int),
            decreases is.len() - k,
        {
            let instance = instances[k];
            let id = ids[k];
            let ghost before_objs = self.objects();
            let ghost before_lookup = self.lookup();
            let handle = match self.get_vector(id) {
                Some(h) => {
                    proof {
                        let ns0 = new_sources(ds, old_lookup, k as int);
                        assert(old_lookup.contains_key(ds[k as int].0) || ns0.contains(
                            ds[k as int].0,
                        ));
                        assert(new_sources(ds, old_lookup, k + 1) == ns0);
                        lemma_all_made_from_more(
                            tessellate,
                            before_objs,
                            before_lookup,
                            old_lookup,
                            is,
                            ds,
                            old_objs.len() as int,
                            k as int,
                            k + 1,
                        );
                    }
                    h
                },
                None => {
                    let geometry = tessellate(instance.source);
                    match self.try_add_vector_object(id, geometry) {
                        Some(h) => {
                            proof {
                                let ns0 = new_sources(ds, old_lookup, k as int);
                                let ns1 = new_sources(ds, old_lookup, k + 1);
                                assert(!old_lookup.contains_key(id.0) && !ns0.contains(id.0));
                                assert(ns1 == ns0.push(id.0));
                                assert forall|j: int| 0 <= j < ns1.len() implies self.lookup().contains_key(
                                    #[trigger] ns1[j],
                                ) && self.lookup()[ns1[j]].index == old_objs.len() + j by {
                                    if j < ns0.len() {
                                        assert(ns1[j] == ns0[j]);
                                        assert(ns0[j] != id.0) by {
                                            assert(ns0.contains(ns0[j]));
                                        }
                                        assert(before_lookup.contains_key(ns0[j]));
                                    }
                                }
                                assert forall|id2: usize| #[trigger] self.lookup().contains_key(id2)
                                    <==> old_lookup.contains_key(id2) || ns1.contains(id2) by {
                                    if id2 != id.0 {
                                        assert(ns1.contains(id2) <==> ns0.contains(id2)) by {
                                            if ns1.contains(id2) {
                                                let j = choose|j: int| 0 <= j < ns1.len() && ns1[j] == id2;
                                                assert(j < ns0.len());
                                                assert(ns0[j] == id2);
                                            }
                                            if ns0.contains(id2) {
                                                let j = choose|j: int| 0 <= j < ns0.len() && ns0[j] == id2;
                                                assert(ns1[j] == id2);
                                            }
                                        }
                                    } else {
                                        assert(ns1[ns0.len() as int] == id2);
                                    }
                                }
                                assert(self.objects().take(old_objs.len() as int) =~= old_objs) by {
                                    assert(before_objs.take(old_objs.len() as int) == old_objs);
                                }
                                lemma_all_made_from_add(
                                    tessellate,
                                    before_objs,
                                    before_lookup,
                                    old_lookup,
                                    is,
                                    ds,
                                    old_objs.len() as int,
                                    k as int,
                                    geometry,
                                    h,
                                );
                            }
                            h
                        },
                        None => {
                            proof {
                                lemma_all_made_from_more(
                                    tessellate,
                                    before_objs,
                                    before_lookup,
                                    old_lookup,
                                    is,
                                    ds,
                                    old_objs.len() as int,
                                    k as int,
                                    is.len() as int,
                                );
                            }
                            return None;
                        },
                    }
                },
            };
            assert(self.lookup()[ds[k as int].0] == handle);
            let ghost old_groups = groups;
            group_instance(
                &mut groups,
                handle.index,
                VectorInstance {
                    id: handle,
                    transform: instance.transform,
                    scale: instance.scale,
                    color: instance.color,
                    z_index: instance.z_index,
                },
            );
            proof {
                let n = k + 1;
                let z0 = instance.z_index;
                let lk = self.lookup();
                assert(extends(lk, before_lookup));
                lemma_lazy_agree(is, ds, before_lookup, lk, k as int);
                assert forall|j: int| 0 <= j < n implies lk[#[trigger] ds[j].0].index
                    < self.objects().len() by {
                    if j < k {
                        assert(before_lookup.contains_key(ds[j].0));
                        assert(before_lookup[ds[j].0].index < before_objs.len());
                    }
                }
                assert(groups@.dom() =~= lazy_layers(is, n));
                assert forall|z: ZIndex| #[trigger] groups@.contains_key(z) implies groups@[z]@.dom()
                    == lazy_geometries(is, ds, lk, n, z) by {
                    let before_z = lazy_geometries(is, ds, before_lookup, k as int, z);
                    if z == z0 {
                        if !old_groups@.contains_key(z) {
                            lemma_no_layer_no_geometries(is, ds, lk, k as int, z);
                        } else {
                            assert(old_groups@[z]@.dom() == before_z);
                            assert(lazy_geometries(is, ds, lk, k as int, z) == before_z);
                        }
                        assert(lazy_geometries(is, ds, lk, n as int, z) == lazy_geometries(
                            is,
                            ds,
                            lk,
                            k as int,
                            z,
                        ).insert(handle.index));
                        assert(groups@[z]@.dom() =~= lazy_geometries(is, ds, lk, n, z));
                    } else {
                        assert(old_groups@.contains_key(z));
                        assert(groups@[z] == old_groups@[z]);
                        assert(old_groups@[z]@.dom() == before_z);
                        assert(lazy_geometries(is, ds, lk, k as int, z) == before_z);
                        assert(lazy_geometries(is, ds, lk, n as int, z) == lazy_geometries(
                            is,
                            ds,
                            lk,
                            k as int,
                            z,
                        ));
                    }
                }
                assert forall|z: ZIndex, h: usize| #[trigger] bucket(groups, z, h) == lazy_bucket(
                    is,
                    ds,
                    lk,
                    n,
                    z,
                    h,
                ) by {
                    assert(bucket(old_groups, z, h) == lazy_bucket(is, ds, lk, k as int, z, h));
                }
                assert forall|id2: usize| #[trigger] lk.contains_key(id2) implies old_lookup.contains_key(
                    id2,
                ) || exists|j: int| 0 <= j < n && ds[j].0 == id2 by {
                    if !old_lookup.contains_key(id2) && id2 != id.0 {
                        assert(before_lookup.contains_key(id2));
                    }
                    if id2 == id.0 {
                        assert(ds[k as int].0 == id2);
                    }
                }
            }
            k = k + 1;
        }
        proof {
            let lk = self.lookup();
            assert forall|z: ZIndex, h: usize, j: int|
                #![trigger bucket(groups, z, h)[j]]
                0 <= j < bucket(groups, z, h).len() implies exists|k: int|
                    #![trigger is[k]]
                    0 <= k < is.len() && is[k].z_index == z && lk[ds[k].0].index == h && bucket(
                        groups,
                        z,
                        h,
                    )[j].id == lk[ds[k].0] && bucket(groups, z, h)[j].transform == is[k].transform
                        && bucket(groups, z, h)[j].scale == is[k].scale && bucket(groups, z, h)[j].color
                        == is[k].color && bucket(groups, z, h)[j].z_index == is[k].z_index by {
                assert(bucket(groups, z, h) == lazy_bucket(is, ds, lk, is.len() as int, z, h));
                lemma_lazy_bucket_keeps_placement(is, ds, lk, is.len() as int, z, h);
                assert(bucket(groups, z, h)[j] == lazy_bucket(is, ds, lk, is.len() as int, z, h)[j]);
            }
        }
        Some(groups)
    }
}

} // verus!
