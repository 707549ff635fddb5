use std::collections::HashMap;
use std::ops::Range;
use vstd::prelude::*;

use super::instance::{raw_of, RawInstance, VectorInstance, ZIndex};
use super::svg_geometry::SVGGeometry;
use crate::util::handle::Handle;
use crate::util::key_order::{
    ascending_keys, lemma_ascending_keys, sorted_keys, strictly_ascending, SortKey,
};

verus! {

broadcast use vstd::std_specs::hash::group_hash_axioms;

/// One instanced draw of a piece of geometry: the instances in
/// `instances_buf[range]` all use the geometry `id`.
pub struct DrawCall {
    pub id: Handle<SVGGeometry>,
    pub range: Range<u32>,
}

pub struct VectorRenderRequest {
    pub instances_buf: Vec<RawInstance>,
    pub draw_calls: Vec<DrawCall>,
}

impl Default for VectorRenderRequest {
    fn default() -> (r: Self)
        ensures
            r.instances_buf@.len() == 0,
            r.draw_calls@.len() == 0,
    {
        Self { instances_buf: Vec::new(), draw_calls: Vec::new() }
    }
}

/// Instances bucketed by z-index, then by the index of the geometry they draw.
pub type GroupedInstances = HashMap<ZIndex, HashMap<usize, Vec<VectorInstance>>>;

/// The instances grouped under layer `z` and geometry `h`, none if there
/// are none.
pub open spec fn bucket(g: GroupedInstances, z: ZIndex, h: usize) -> Seq<VectorInstance> {
    if g@.contains_key(z) && g@[z]@.contains_key(h) {
        g@[z]@[h]@
    } else {
        Seq::empty()
    }
}

/// Files an instance under its z-index and the geometry `geometry`,
/// after the instances already there.
pub fn group_instance(groups: &mut GroupedInstances, geometry: usize, instance: VectorInstance)
    ensures
        final(groups)@ == old(groups)@.insert(instance.z_index, final(groups)@[instance.z_index]),
        final(groups)@.dom() == old(groups)@.dom().insert(instance.z_index),
        final(groups)@[instance.z_index]@.dom() == (if old(groups)@.contains_key(instance.z_index) {
            old(groups)@[instance.z_index]@.dom()
        } else {
            Set::empty()
        }).insert(geometry),
        bucket(*final(groups), instance.z_index, geometry) == bucket(
            *old(groups),
            instance.z_index,
            geometry,
        ).push(instance),
        forall|z: ZIndex, h: usize|
            !(z == instance.z_index && h == geometry) ==> bucket(*final(groups), z, h) == bucket(
                *old(groups),
                z,
                h,
            ),
{
    let z = instance.z_index;
    let mut layer = match groups.remove(&z) {
        Some(l) => l,
        None => HashMap::new(),
    };
    let mut instances = match layer.remove(&geometry) {
        Some(v) => v,
        None => Vec::new(),
    };
    instances.push(instance);
    layer.insert(geometry, instances);
    groups.insert(z, layer);
}

/// The instances of `instances` that lie in layer `z` and draw geometry
/// `h`, in order.
pub open spec fn in_group(instances: Seq<VectorInstance>, z: ZIndex, h: usize) -> Seq<VectorInstance> {
    instances.filter(|v: VectorInstance| v.z_index == z && v.id.index == h)
}

/// The layers that `instances` lie in.
pub open spec fn layers_of(instances: Seq<VectorInstance>) -> Set<ZIndex>
    decreases instances.len(),
{
    if instances.len() == 0 {
        Set::empty()
    } else {
        layers_of(instances.drop_last()).insert(instances.last().z_index)
    }
}

/// The geometries that `instances` draw in layer `z`.
pub open spec fn geometries_of(instances: Seq<VectorInstance>, z: ZIndex) -> Set<usize>
    decreases instances.len(),
{
    if instances.len() == 0 {
        Set::empty()
    } else if instances.last().z_index == z {
        geometries_of(instances.drop_last(), z).insert(instances.last().id.index)
    } else {
        geometries_of(instances.drop_last(), z)
    }
}

/// The geometries grouped under layer `z`, none where the layer is absent.
pub open spec fn layer_geometries(g: GroupedInstances, z: ZIndex) -> Set<usize> {
    if g@.contains_key(z) {
        g@[z]@.dom()
    } else {
        Set::empty()
    }
}

/// Files each instance under its z-index and the geometry its handle
/// names, in order, after the instances already there.
pub fn group_instances(groups: &mut GroupedInstances, instances: &[VectorInstance])
    ensures
        final(groups)@.dom() == old(groups)@.dom() + layers_of(instances@),
        forall|z: ZIndex|
            #[trigger] layer_geometries(*final(groups), z) == layer_geometries(*old(groups), z)
                + geometries_of(instances@, z),
        forall|z: ZIndex, h: usize|
            #[trigger] bucket(*final(groups), z, h) == bucket(*old(groups), z, h) + in_group(
                instances@,
                z,
                h,
            ),
{
    let ghost start = *groups;
    let mut k: usize = 0;
    proof {
        reveal(Seq::filter);
        let none = instances@.take(0);
        assert(none =~= Seq::<VectorInstance>::empty());
        assert forall|z: ZIndex, h: usize| #[trigger] bucket(*groups, z, h) == bucket(start, z, h)
            + in_group(none, z, h) by {
            assert(none.filter(|v: VectorInstance| v.z_index == z && v.id.index == h)
                =~= Seq::<VectorInstance>::empty());
            assert(bucket(start, z, h) + Seq::<VectorInstance>::empty() =~= bucket(start, z, h));
        }
        assert(groups@.dom() =~= start@.dom() + layers_of(none));
        assert forall|z: ZIndex| #[trigger] layer_geometries(*groups, z) == layer_geometries(start, z)
            + geometries_of(none, z) by {
            assert(layer_geometries(start, z) + geometries_of(none, z) =~= layer_geometries(start, z));
        }
    }
    while k < instances.len()
        invariant
            0 <= k <= instances@.len(),
            groups@.dom() == start@.dom() + layers_of(instances@.take(k as int)),
            forall|z: ZIndex|
                #[trigger] layer_geometries(*groups, z) == layer_geometries(start, z) + geometries_of(
                    instances@.take(k as int),
                    z,
                ),
            forall|z: ZIndex, h: usize|
                #[trigger] bucket(*groups, z, h) == bucket(start, z, h) + in_group(
                    instances@.take(k as int),
                    z,
                    h,
                ),
        decreases instances@.len() - k,
    {
        let ghost before = *groups;
        let instance = instances[k];
        group_instance(groups, instance.id.index, instance);
        proof {
            reveal(Seq::filter);
            let prev = instances@.take(k as int);
            let next = instances@.take(k + 1);
            assert(next.drop_last() =~= prev);
            assert(next.last() == instance);
            assert(groups@.dom() =~= start@.dom() + layers_of(next));
            assert forall|z: ZIndex| #[trigger] layer_geometries(*groups, z) == layer_geometries(start, z)
                + geometries_of(next, z) by {
                if z == instance.z_index {
                    assert(layer_geometries(*groups, z) =~= layer_geometries(before, z).insert(
                        instance.id.index,
                    ));
                    assert(layer_geometries(start, z) + geometries_of(next, z) =~= (layer_geometries(
                        start,
                        z,
                    ) + geometries_of(prev, z)).insert(instance.id.index));
                } else {
                    assert(groups@[z] == before@[z]);
                    assert(layer_geometries(*groups, z) == layer_geometries(before, z));
                }
            }
            assert forall|z: ZIndex, h: usize| #[trigger] bucket(*groups, z, h) == bucket(start, z, h)
                + in_group(next, z, h) by {
                if z == instance.z_index && h == instance.id.index {
                    assert(bucket(start, z, h) + in_group(next, z, h) =~= (bucket(start, z, h)
                        + in_group(prev, z, h)).push(instance));
                } else {
                    assert(bucket(*groups, z, h) == bucket(before, z, h));
                    assert(in_group(next, z, h) == in_group(prev, z, h));
                }
            }
        }
        k = k + 1;
    }
    assert(instances@.take(k as int) =~= instances@);
}

/// The z-indices present, lowest first.
pub open spec fn layer_order(g: GroupedInstances) -> Seq<ZIndex> {
    ascending_keys(g@.dom())
}

/// The geometry indices present in layer `z`, lowest first.
pub open spec fn geometry_order(g: GroupedInstances, z: ZIndex) -> Seq<usize> {
    ascending_keys(g@[z]@.dom())
}

/// The instances that draw geometry `h` in layer `z`.
pub open spec fn group(g: GroupedInstances, z: ZIndex, h: usize) -> Seq<VectorInstance> {
    g@[z]@[h]@
}

/// The (z-index, geometry) keys of the first `n` layers, in draw order.
pub open spec fn draw_keys_upto(g: GroupedInstances, n: int) -> Seq<(ZIndex, usize)>
    decreases n,
{
    if n <= 0 {
        Seq::empty()
    } else {
        let z = layer_order(g)[n - 1];
        draw_keys_upto(g, n - 1) + geometry_order(g, z).map_values(|h: usize| (z, h))
    }
}

/// One key per draw call: layers by ascending z-index, and inside a layer
/// geometries by ascending index.
pub open spec fn draw_order(g: GroupedInstances) -> Seq<(ZIndex, usize)> {
    draw_keys_upto(g, layer_order(g).len() as int)
}

/// The instances of the groups named by `keys`, concatenated in that order.
pub open spec fn instances_of(g: GroupedInstances, keys: Seq<(ZIndex, usize)>) -> Seq<
    VectorInstance,
>
    decreases keys.len(),
{
    if keys.len() == 0 {
        Seq::empty()
    } else {
        instances_of(g, keys.drop_last()) + group(g, keys.last().0, keys.last().1)
    }
}

/// The number of instances in all groups.
pub open spec fn total_instances(g: GroupedInstances) -> int {
    instances_of(g, draw_order(g)).len() as int
}

pub proof fn lemma_instances_of_append(
    g: GroupedInstances,
    a: Seq<(ZIndex, usize)>,
    b: Seq<(ZIndex, usize)>,
)
    ensures
        instances_of(g, a + b) == instances_of(g, a) + instances_of(g, b),
    decreases b.len(),
{
    if b.len() == 0 {
        assert(a + b =~= a);
        assert(instances_of(g, a) + instances_of(g, b) =~= instances_of(g, a));
    } else {
        assert((a + b).drop_last() =~= a + b.drop_last());
        lemma_instances_of_append(g, a, b.drop_last());
        assert(instances_of(g, a + b) =~= instances_of(g, a) + instances_of(g, b));
    }
}

proof fn lemma_draw_keys_bounded(g: GroupedInstances, n: int)
    requires
        1 <= n <= layer_order(g).len(),
    ensures
        forall|k: int|
            0 <= k < draw_keys_upto(g, n).len() ==> (#[trigger] draw_keys_upto(g, n)[k]).0
                <= layer_order(g)[n - 1],
    decreases n,
{
    lemma_ascending_keys(g@.dom());
    let z = layer_order(g)[n - 1];
    let last = geometry_order(g, z).map_values(|h: usize| (z, h));
    let prev = draw_keys_upto(g, n - 1);
    assert(draw_keys_upto(g, n) == prev + last);
    if n > 1 {
        lemma_draw_keys_bounded(g, n - 1);
        assert(layer_order(g)[n - 2].rank() < layer_order(g)[n - 1].rank());
    }
    assert forall|k: int| 0 <= k < draw_keys_upto(g, n).len() implies (
    #[trigger] draw_keys_upto(g, n)[k]).0 <= layer_order(g)[n - 1] by {
        if k < prev.len() {
            assert(draw_keys_upto(g, n)[k] == prev[k]);
        } else {
            assert(draw_keys_upto(g, n)[k] == last[k - prev.len()]);
        }
    }
}

proof fn lemma_draw_keys_ascending(g: GroupedInstances, n: int)
    requires
        0 <= n <= layer_order(g).len(),
    ensures
        forall|i: int, j: int|
            0 <= i < j < draw_keys_upto(g, n).len() ==> (#[trigger] draw_keys_upto(g, n)[i]).0
                < (#[trigger] draw_keys_upto(g, n)[j]).0 || (draw_keys_upto(g, n)[i].0
                == draw_keys_upto(g, n)[j].0 && draw_keys_upto(g, n)[i].1 < draw_keys_upto(
                g,
                n,
            )[j].1),
    decreases n,
{
    if n > 0 {
        lemma_ascending_keys(g@.dom());
        lemma_draw_keys_ascending(g, n - 1);
        let z = layer_order(g)[n - 1];
        assert(g@.dom().contains(z)) by {
            assert(layer_order(g).to_set().contains(z));
        }
        lemma_ascending_keys(g@[z]@.dom());
        let hs = geometry_order(g, z);
        let last = hs.map_values(|h: usize| (z, h));
        let prev = draw_keys_upto(g, n - 1);
        let all = draw_keys_upto(g, n);
        assert(all == prev + last);
        if n > 1 {
            lemma_draw_keys_bounded(g, n - 1);
            assert(layer_order(g)[n - 2].rank() < layer_order(g)[n - 1].rank());
        }
        assert forall|i: int, j: int| 0 <= i < j < all.len() implies (#[trigger] all[i]).0 < (
        #[trigger] all[j]).0 || (all[i].0 == all[j].0 && all[i].1 < all[j].1) by {
            if j < prev.len() {
                assert(all[i] == prev[i]);
                assert(all[j] == prev[j]);
            } else if i < prev.len() {
                assert(all[i] == prev[i]);
                assert(all[j] == last[j - prev.len()]);
                assert(prev[i].0 <= layer_order(g)[n - 2]);
            } else {
                assert(all[i] == last[i - prev.len()]);
                assert(all[j] == last[j - prev.len()]);
                assert(hs[i - prev.len()].rank() < hs[j - prev.len()].rank());
            }
        }
    }
}

proof fn lemma_draw_keys_cover(g: GroupedInstances, n: int)
    requires
        0 <= n <= layer_order(g).len(),
    ensures
        forall|z: ZIndex, h: usize|
            #[trigger] draw_keys_upto(g, n).contains((z, h)) <==> (layer_order(g).take(n).contains(
                z,
            ) && g@[z]@.contains_key(h)),
    decreases n,
{
    if n > 0 {
        lemma_ascending_keys(g@.dom());
        lemma_draw_keys_cover(g, n - 1);
        let zl = layer_order(g)[n - 1];
        assert(g@.dom().contains(zl)) by {
            assert(layer_order(g).to_set().contains(zl));
        }
        lemma_ascending_keys(g@[zl]@.dom());
        let hs = geometry_order(g, zl);
        let last = hs.map_values(|h: usize| (zl, h));
        let prev = draw_keys_upto(g, n - 1);
        let all = draw_keys_upto(g, n);
        assert(all == prev + last);
        assert(layer_order(g).take(n) == layer_order(g).take(n - 1).push(zl));
        assert forall|z: ZIndex, h: usize| #[trigger] all.contains((z, h)) <==> (layer_order(
            g,
        ).take(n).contains(z) && g@[z]@.contains_key(h)) by {
            if all.contains((z, h)) {
                let k = choose|k: int| 0 <= k < all.len() && all[k] == (z, h);
                if k < prev.len() {
                    assert(prev[k] == (z, h));
                    assert(prev.contains((z, h)));
                    let lo = layer_order(g).take(n - 1);
                    let m = choose|m: int| 0 <= m < lo.len() && #[trigger] lo[m] == z;
                    assert(layer_order(g).take(n)[m] == z);
                } else {
                    assert(last[k - prev.len()] == (z, h));
                    assert(z == zl);
                    assert(hs.to_set().contains(h));
                    assert(layer_order(g).take(n)[n - 1] == z);
                }
            }
            if layer_order(g).take(n).contains(z) && g@[z]@.contains_key(h) {
                let ln = layer_order(g).take(n);
                let m = choose|m: int| 0 <= m < ln.len() && #[trigger] ln[m] == z;
                if m < n - 1 {
                    assert(layer_order(g).take(n - 1)[m] == z);
                    assert(layer_order(g).take(n - 1).contains(z));
                    assert(prev.contains((z, h)));
                    let k = choose|k: int| 0 <= k < prev.len() && prev[k] == (z, h);
                    assert(all[k] == (z, h));
                } else {
                    assert(z == zl);
                    assert(hs.to_set().contains(h));
                    let k = choose|k: int| 0 <= k < hs.len() && hs[k] == h;
                    assert(all[prev.len() + k] == (z, h));
                }
            }
        }
    }
}

/// Draw calls come lowest z-index first, and inside one z-index lowest
/// geometry index first.
pub proof fn lemma_draw_order_ascending(g: GroupedInstances)
    ensures
        forall|i: int, j: int|
            0 <= i < j < draw_order(g).len() ==> (#[trigger] draw_order(g)[i]).0 < (
            #[trigger] draw_order(g)[j]).0 || (draw_order(g)[i].0 == draw_order(g)[j].0
                && draw_order(g)[i].1 < draw_order(g)[j].1),
{
    lemma_draw_keys_ascending(g, layer_order(g).len() as int);
}

/// Every (z-index, geometry) group gets a draw call, exactly one, and no
/// other draw calls are made.
pub proof fn lemma_draw_order_covers_groups(g: GroupedInstances)
    ensures
        forall|z: ZIndex, h: usize|
            #[trigger] draw_order(g).contains((z, h)) <==> (g@.contains_key(z) && g@[z]@.contains_key(
                h,
            )),
        draw_order(g).no_duplicates(),
{
    lemma_ascending_keys(g@.dom());
    let n = layer_order(g).len() as int;
    lemma_draw_keys_cover(g, n);
    lemma_draw_keys_ascending(g, n);
    assert(layer_order(g).take(n) == layer_order(g));
    assert forall|z: ZIndex| layer_order(g).contains(z) <==> g@.contains_key(z) by {
        assert(layer_order(g).to_set().contains(z) <==> layer_order(g).contains(z));
    }
    let o = draw_order(g);
    assert forall|i: int, j: int| 0 <= i < o.len() && 0 <= j < o.len() && i != j implies o[i]
        != o[j] by {
        if i < j {
            assert(o[i].0 < o[j].0 || (o[i].0 == o[j].0 && o[i].1 < o[j].1));
        } else {
            assert(o[j].0 < o[i].0 || (o[j].0 == o[i].0 && o[j].1 < o[i].1));
        }
    }
}

/// The instances of the first `k + 1` draw calls are those of the first `k`
/// followed by the group of call `k`.
pub proof fn lemma_instances_of_step(g: GroupedInstances, keys: Seq<(ZIndex, usize)>, k: int)
    requires
        0 <= k < keys.len(),
    ensures
        instances_of(g, keys.take(k + 1)) == instances_of(g, keys.take(k)) + group(
            g,
            keys[k].0,
            keys[k].1,
        ),
{
    assert(keys.take(k + 1).drop_last() == keys.take(k));
}

pub proof fn lemma_instances_of_prefix(g: GroupedInstances, keys: Seq<(ZIndex, usize)>, k: int)
    requires
        0 <= k <= keys.len(),
    ensures
        instances_of(g, keys.take(k)).len() <= instances_of(g, keys).len(),
        instances_of(g, keys).take(instances_of(g, keys.take(k)).len() as int) == instances_of(
            g,
            keys.take(k),
        ),
{
    assert(keys == keys.take(k) + keys.skip(k));
    lemma_instances_of_append(g, keys.take(k), keys.skip(k));
}

/// `a` and `b` group the same instances under the same layers and
/// geometries, however their hash maps are laid out.
pub open spec fn same_groups(a: GroupedInstances, b: GroupedInstances) -> bool {
    &&& a@.dom() == b@.dom()
    &&& forall|z: ZIndex| #[trigger] a@.contains_key(z) ==> a@[z]@.dom() == b@[z]@.dom()
    &&& forall|z: ZIndex, h: usize| #[trigger] bucket(a, z, h) == bucket(b, z, h)
}

proof fn lemma_same_keys_upto(a: GroupedInstances, b: GroupedInstances, n: int)
    requires
        same_groups(a, b),
        0 <= n <= layer_order(a).len(),
    ensures
        draw_keys_upto(a, n) == draw_keys_upto(b, n),
    decreases n,
{
    if n > 0 {
        lemma_same_keys_upto(a, b, n - 1);
        lemma_ascending_keys(a@.dom());
        let z = layer_order(a)[n - 1];
        assert(a@.contains_key(z)) by {
            assert(layer_order(a).to_set().contains(z));
        }
        assert(geometry_order(a, z) == geometry_order(b, z));
    }
}

proof fn lemma_same_instances_of(a: GroupedInstances, b: GroupedInstances, keys: Seq<(ZIndex, usize)>)
    requires
        same_groups(a, b),
        forall|k: int|
            0 <= k < keys.len() ==> a@.contains_key((#[trigger] keys[k]).0) && a@[keys[k].0]@.contains_key(
                keys[k].1,
            ),
    ensures
        instances_of(a, keys) == instances_of(b, keys),
    decreases keys.len(),
{
    if keys.len() > 0 {
        let (z, h) = keys.last();
        assert(keys[keys.len() - 1] == keys.last());
        lemma_same_instances_of(a, b, keys.drop_last());
        assert(bucket(a, z, h) == bucket(b, z, h));
        assert(b@.contains_key(z) && b@[z]@.contains_key(h));
    }
}

/// The draw calls and instance data depend only on which instances are
/// grouped under which layer and geometry, not on how the hash maps happen
/// to be laid out: the order of draws is stable from frame to frame.
pub proof fn lemma_request_ignores_map_layout(a: GroupedInstances, b: GroupedInstances)
    requires
        same_groups(a, b),
    ensures
        draw_order(a) == draw_order(b),
        instances_of(a, draw_order(a)) == instances_of(b, draw_order(b)),
        forall|k: int|
            0 <= k < draw_order(a).len() ==> group(a, (#[trigger] draw_order(a)[k]).0, draw_order(a)[k].1)
                == group(b, draw_order(b)[k].0, draw_order(b)[k].1),
        forall|k: int|
            0 <= k <= draw_order(a).len() ==> instances_of(a, #[trigger] draw_order(a).take(k))
                == instances_of(b, draw_order(b).take(k)),
{
    lemma_ascending_keys(a@.dom());
    assert(layer_order(a) == layer_order(b));
    lemma_same_keys_upto(a, b, layer_order(a).len() as int);
    lemma_draw_order_covers_groups(a);
    let o = draw_order(a);
    assert forall|k: int| 0 <= k < o.len() implies a@.contains_key((#[trigger] o[k]).0) && a@[o[k].0]@.contains_key(
        o[k].1,
    ) by {
        let (z, h) = o[k];
        assert(o.contains((z, h)));
    }
    lemma_same_instances_of(a, b, o);
    assert forall|k: int| 0 <= k < o.len() implies group(a, (#[trigger] o[k]).0, o[k].1) == group(
        b,
        o[k].0,
        o[k].1,
    ) by {
        let (z, h) = o[k];
        assert(o.contains((z, h)));
        assert(bucket(a, z, h) == bucket(b, z, h));
    }
    assert forall|k: int| 0 <= k <= o.len() implies instances_of(a, #[trigger] o.take(k)) == instances_of(
        b,
        o.take(k),
    ) by {
        assert forall|j: int| 0 <= j < o.take(k).len() implies a@.contains_key(
            (#[trigger] o.take(k)[j]).0,
        ) && a@[o.take(k)[j].0]@.contains_key(o.take(k)[j].1) by {
            assert(o.take(k)[j] == o[j]);
            let (z, h) = o[j];
            assert(o.contains((z, h)));
        }
        lemma_same_instances_of(a, b, o.take(k));
    }
}

/// `draw_calls` and `buf` are what drawing the groups named by `keys`, in
/// that order, lays out: one call per key over the group's slice of `buf`.
spec fn emitted(
    g: GroupedInstances,
    keys: Seq<(ZIndex, usize)>,
    draw_calls: Seq<DrawCall>,
    buf: Seq<RawInstance>,
) -> bool {
    &&& draw_calls.len() == keys.len()
    &&& buf == instances_of(g, keys).map_values(|v: VectorInstance| raw_of(v))
    &&& forall|k: int|
        0 <= k < draw_calls.len() ==> {
            &&& (#[trigger] draw_calls[k]).id.index == keys[k].1
            &&& draw_calls[k].range.start == instances_of(g, keys.take(k)).len() as u32
            &&& draw_calls[k].range.end == instances_of(g, keys.take(k + 1)).len() as u32
        }
}

/// The keys of layer `z`, geometries ascending.
spec fn layer_keys(g: GroupedInstances, z: ZIndex) -> Seq<(ZIndex, usize)> {
    geometry_order(g, z).map_values(|h: usize| (z, h))
}

/// Lays out the group of layer `z` and geometry `h` after the groups of
/// `keys`.
fn emit_group(
    Ghost(g): Ghost<GroupedInstances>,
    Ghost(keys): Ghost<Seq<(ZIndex, usize)>>,
    z: ZIndex,
    h: usize,
    group_vec: Vec<VectorInstance>,
    draw_calls: &mut Vec<DrawCall>,
    buf: &mut Vec<RawInstance>,
)
    requires
        emitted(g, keys, old(draw_calls)@, old(buf)@),
        group_vec@ == group(g, z, h),
    ensures
        emitted(g, keys.push((z, h)), final(draw_calls)@, final(buf)@),
{
    let ghost next = keys.push((z, h));
    assert(next.drop_last() == keys);
    assert(instances_of(g, next) == instances_of(g, keys) + group_vec@);
    let ghost base = instances_of(g, keys);
    let start = buf.len() as u32;
    let mut k: usize = 0;
    while k < group_vec.len()
        invariant
            0 <= k <= group_vec@.len(),
            buf@ == (base + group_vec@.take(k as int)).map_values(|v: VectorInstance| raw_of(v)),
        decreases group_vec@.len() - k,
    {
        buf.push(RawInstance::from(group_vec[k]));
        assert((base + group_vec@.take(k + 1)) =~= (base + group_vec@.take(k as int)).push(
            group_vec@[k as int],
        ));
        k = k + 1;
    }
    assert(group_vec@.take(k as int) =~= group_vec@);
    let end = buf.len() as u32;
    draw_calls.push(DrawCall { id: Handle::new(h), range: start..end });
    assert forall|q: int| 0 <= q < draw_calls@.len() implies {
        &&& (#[trigger] draw_calls@[q]).id.index == next[q].1
        &&& draw_calls@[q].range.start == instances_of(g, next.take(q)).len() as u32
        &&& draw_calls@[q].range.end == instances_of(g, next.take(q + 1)).len() as u32
    } by {
        if q < keys.len() {
            assert(next.take(q) == keys.take(q));
            assert(next.take(q + 1) == keys.take(q + 1));
        } else {
            assert(next.take(q) == keys);
            assert(next.take(q + 1) == next);
        }
    }
}

/// Lays out every group of layer `z`, geometries ascending, after the
/// groups of `before`.
fn emit_layer(
    Ghost(g): Ghost<GroupedInstances>,
    Ghost(before): Ghost<Seq<(ZIndex, usize)>>,
    z: ZIndex,
    by_geometry: HashMap<usize, Vec<VectorInstance>>,
    draw_calls: &mut Vec<DrawCall>,
    buf: &mut Vec<RawInstance>,
)
    requires
        emitted(g, before, old(draw_calls)@, old(buf)@),
        by_geometry@ == g@[z]@,
    ensures
        emitted(g, before + layer_keys(g, z), final(draw_calls)@, final(buf)@),
{
    let mut by_geometry = by_geometry;
    let geometries = sorted_keys(&by_geometry);
    let ghost lk = layer_keys(g, z);
    proof {
        lemma_ascending_keys(g@[z]@.dom());
    }
    let mut j: usize = 0;
    assert(before + lk.take(0) =~= before);
    while j < geometries.len()
        invariant
            geometries@ == geometry_order(g, z),
            geometries@.to_set() == g@[z]@.dom(),
            strictly_ascending(geometries@),
            0 <= j <= geometries@.len(),
            lk == layer_keys(g, z),
            forall|l: int|
                j <= l < geometries@.len() ==> #[trigger] by_geometry@.contains_key(geometries@[l])
                    && by_geometry@[geometries@[l]] == g@[z]@[geometries@[l]],
            emitted(g, before + lk.take(j as int), draw_calls@, buf@),
        decreases geometries@.len() - j,
    {
        let h = geometries[j];
        assert(by_geometry@.contains_key(geometries@[j as int]));
        let ghost before_map = by_geometry@;
        let group_vec = match by_geometry.remove(&h) {
            Some(v) => v,
            None => {
                proof {
                    assert(false);
                }
                Vec::new()
            },
        };
        assert(by_geometry@ == before_map.remove(h));
        assert forall|l: int| j + 1 <= l < geometries@.len() implies #[trigger] by_geometry@.contains_key(
            geometries@[l],
        ) && by_geometry@[geometries@[l]] == g@[z]@[geometries@[l]] by {
            assert(geometries@[j as int].rank() < geometries@[l].rank());
            assert(geometries@[l] != h);
            assert(before_map.contains_key(geometries@[l]));
            assert(before_map[geometries@[l]] == g@[z]@[geometries@[l]]);
        }
        assert(lk[j as int] == (z, h));
        assert(before + lk.take(j + 1) == (before + lk.take(j as int)).push((z, h)));
        emit_group(
            Ghost(g),
            Ghost(before + lk.take(j as int)),
            z,
            h,
            group_vec,
            draw_calls,
            buf,
        );
        j = j + 1;
    }
    assert(lk.take(j as int) =~= lk);
}

/// Laid out groups tile the buffer: each call covers exactly its group's
/// instances, one call right after the other.
proof fn lemma_emitted_slices(
    g: GroupedInstances,
    o: Seq<(ZIndex, usize)>,
    draw_calls: Seq<DrawCall>,
    buf: Seq<RawInstance>,
)
    requires
        emitted(g, o, draw_calls, buf),
        instances_of(g, o).len() <= u32::MAX,
    ensures
        forall|k: int|
            0 <= k < draw_calls.len() ==> buf.subrange(
                (#[trigger] draw_calls[k]).range.start as int,
                draw_calls[k].range.end as int,
            ) == group(g, o[k].0, o[k].1).map_values(|v: VectorInstance| raw_of(v)),
        draw_calls.len() == 0 ==> buf.len() == 0,
        draw_calls.len() > 0 ==> draw_calls[0].range.start == 0,
        draw_calls.len() > 0 ==> draw_calls.last().range.end == buf.len(),
        forall|k: int|
            0 <= k < draw_calls.len() - 1 ==> (#[trigger] draw_calls[k]).range.end
                == draw_calls[k + 1].range.start,
{
    assert(o.take(0) =~= Seq::<(ZIndex, usize)>::empty());
    assert(o.take(o.len() as int) == o);
    assert forall|k: int| 0 <= k <= o.len() implies #[trigger] instances_of(g, o.take(k)).len()
        <= u32::MAX by {
        lemma_instances_of_prefix(g, o, k);
    }
    assert forall|k: int| 0 <= k < draw_calls.len() implies buf.subrange(
        (#[trigger] draw_calls[k]).range.start as int,
        draw_calls[k].range.end as int,
    ) == group(g, o[k].0, o[k].1).map_values(|v: VectorInstance| raw_of(v)) by {
        lemma_instances_of_step(g, o, k);
        lemma_instances_of_prefix(g, o, k + 1);
        let all = instances_of(g, o);
        let a = instances_of(g, o.take(k));
        let b = instances_of(g, o.take(k + 1));
        assert(b == a + group(g, o[k].0, o[k].1));
        assert(all.take(b.len() as int) == b);
        assert(b.subrange(a.len() as int, b.len() as int) =~= group(g, o[k].0, o[k].1));
        assert forall|t: int| a.len() <= t < b.len() implies all[t] == b[t] by {
            assert(all.take(b.len() as int)[t] == all[t]);
        }
        assert(all.subrange(a.len() as int, b.len() as int) =~= b.subrange(
            a.len() as int,
            b.len() as int,
        ));
        assert(buf.subrange(a.len() as int, b.len() as int) =~= all.subrange(
            a.len() as int,
            b.len() as int,
        ).map_values(|v: VectorInstance| raw_of(v)));
    }
    if draw_calls.len() == 0 {
        assert(o =~= Seq::<(ZIndex, usize)>::empty());
    }
    assert forall|k: int| 0 <= k < draw_calls.len() - 1 implies (#[trigger] draw_calls[k]).range.end
        == draw_calls[k + 1].range.start by {
        assert(draw_calls[k].range.end == instances_of(g, o.take(k + 1)).len());
        assert(draw_calls[k + 1].range.start == instances_of(g, o.take(k + 1)).len());
    }
}

/// Orders draw calls to support z-indexing.
///
/// Each (z-index, geometry) group becomes exactly one draw call. Layers are
/// emitted lowest z-index first so that they draw first, and inside a layer
/// by geometry index, so that the order does not depend on how the hash maps
/// happen to be laid out.
pub fn create_render_request(instances: GroupedInstances) -> (r: VectorRenderRequest)
    ensures
        r.draw_calls@.len() == draw_order(instances).len(),
        r.instances_buf@ == instances_of(instances, draw_order(instances)).map_values(
            |v: VectorInstance| raw_of(v),
        ),
        forall|k: int|
            0 <= k < r.draw_calls@.len() ==> {
                &&& (#[trigger] r.draw_calls@[k]).id.index == draw_order(instances)[k].1
                &&& r.draw_calls@[k].range.start == instances_of(
                    instances,
                    draw_order(instances).take(k),
                ).len() as u32
                &&& r.draw_calls@[k].range.end == instances_of(
                    instances,
                    draw_order(instances).take(k + 1),
                ).len() as u32
            },
        r.draw_calls@.len() == 0 ==> r.instances_buf@.len() == 0,
        r.draw_calls@.len() > 0 ==> r.draw_calls@[0].range.start == 0,
        forall|k: int|
            0 <= k < r.draw_calls@.len() - 1 ==> (#[trigger] r.draw_calls@[k]).range.end
                == r.draw_calls@[k + 1].range.start,
        total_instances(instances) <= u32::MAX && r.draw_calls@.len() > 0
            ==> r.draw_calls@.last().range.end == r.instances_buf@.len(),
        total_instances(instances) <= u32::MAX ==> forall|k: int|
            0 <= k < r.draw_calls@.len() ==> r.instances_buf@.subrange(
                (#[trigger] r.draw_calls@[k]).range.start as int,
                r.draw_calls@[k].range.end as int,
            ) == group(instances, draw_order(instances)[k].0, draw_order(instances)[k].1).map_values(
                |v: VectorInstance| raw_of(v),
            ),
{
    let ghost g = instances;
    let mut rest = instances;
    let layers = sorted_keys(&rest);
    let mut draw_calls: Vec<DrawCall> = Vec::new();
    let mut instances_buf: Vec<RawInstance> = Vec::new();
    proof {
        lemma_ascending_keys(g@.dom());
        let none = Seq::<(ZIndex, usize)>::empty();
        assert(draw_keys_upto(g, 0) =~= none);
        assert(instances_of(g, none).map_values(|v: VectorInstance| raw_of(v)) =~= instances_buf@);
    }
    let mut i: usize = 0;
    while i < layers.len()
        invariant
            layers@ == layer_order(g),
            strictly_ascending(layers@),
            layers@.to_set() == g@.dom(),
            0 <= i <= layers@.len(),
            forall|j: int|
                i <= j < layers@.len() ==> #[trigger] rest@.contains_key(layers@[j]) && rest@[layers@[j]]
                    == g@[layers@[j]],
            emitted(g, draw_keys_upto(g, i as int), draw_calls@, instances_buf@),
        decreases layers@.len() - i,
    {
        let z = layers[i];
        assert(rest@.contains_key(layers@[i as int]));
        let ghost before_map = rest@;
        let by_geometry = match rest.remove(&z) {
            Some(m) => m,
            None => {
                proof {
                    assert(false);
                }
                HashMap::new()
            },
        };
        assert(rest@ == before_map.remove(z));
        assert forall|jj: int| i + 1 <= jj < layers@.len() implies #[trigger] rest@.contains_key(
            layers@[jj],
        ) && rest@[layers@[jj]] == g@[layers@[jj]] by {
            assert(layers@[i as int].rank() < layers@[jj].rank());
            assert(layers@[jj] != z);
            assert(before_map.contains_key(layers@[jj]));
        }
        proof {
            assert(draw_keys_upto(g, i + 1) == draw_keys_upto(g, i as int) + layer_keys(g, z));
        }
        emit_layer(
            Ghost(g),
            Ghost(draw_keys_upto(g, i as int)),
            z,
            by_geometry,
            &mut draw_calls,
            &mut instances_buf,
        );
        i = i + 1;
    }
    proof {
        assert(draw_keys_upto(g, i as int) == draw_order(g));
        if total_instances(g) <= u32::MAX {
            lemma_emitted_slices(g, draw_order(g), draw_calls@, instances_buf@);
        }
        let o = draw_order(g);
        if draw_calls@.len() > 0 {
            assert(o.take(0) =~= Seq::<(ZIndex, usize)>::empty());
        } else {
            assert(o =~= Seq::<(ZIndex, usize)>::empty());
        }
    }
    VectorRenderRequest { instances_buf, draw_calls }
}

} // verus!
