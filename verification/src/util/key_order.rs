use std::collections::HashMap;
use std::hash::Hash;
use vstd::prelude::*;
use vstd::std_specs::hash::obeys_key_model;
use vstd::std_specs::iter::IteratorSpec;

verus! {

broadcast use vstd::std_specs::hash::group_hash_axioms;

/// Integer keys that can be put in ascending order.
pub trait SortKey: Copy + Eq + Hash + Sized {
    /// The integer value by which keys are ordered.
    spec fn rank(self) -> int;

    proof fn lemma_rank_injective(a: Self, b: Self)
        ensures
            a.rank() == b.rank() ==> a == b,
    ;

    fn less_than(&self, other: &Self) -> (r: bool)
        ensures
            r == (self.rank() < other.rank()),
    ;
}

impl SortKey for u16 {
    open spec fn rank(self) -> int {
        self as int
    }

    proof fn lemma_rank_injective(a: Self, b: Self) {
    }

    fn less_than(&self, other: &Self) -> (r: bool) {
        *self < *other
    }
}

impl SortKey for usize {
    open spec fn rank(self) -> int {
        self as int
    }

    proof fn lemma_rank_injective(a: Self, b: Self) {
    }

    fn less_than(&self, other: &Self) -> (r: bool) {
        *self < *other
    }
}

/// Every element of `q` is ranked strictly below every later element.
pub open spec fn strictly_ascending<K: SortKey>(q: Seq<K>) -> bool {
    forall|i: int, j: int| 0 <= i < j < q.len() ==> #[trigger] q[i].rank() < #[trigger] q[j].rank()
}

/// `m` is the element of `s` with the smallest rank.
pub open spec fn is_least<K: SortKey>(s: Set<K>, m: K) -> bool {
    &&& s.contains(m)
    &&& forall|y: K| #[trigger] s.contains(y) ==> m.rank() <= y.rank()
}

pub open spec fn least<K: SortKey>(s: Set<K>) -> K {
    choose|m: K| is_least(s, m)
}

/// The elements of a finite set, smallest rank first.
pub open spec fn ascending_keys<K: SortKey>(s: Set<K>) -> Seq<K>
    decreases s.len(),
    when s.finite()
{
    if s.len() == 0 {
        Seq::empty()
    } else {
        let m = least(s);
        if s.contains(m) {
            seq![m] + ascending_keys(s.remove(m))
        } else {
            Seq::empty()
        }
    }
}

pub proof fn lemma_least_exists<K: SortKey>(s: Set<K>)
    requires
        s.finite(),
        s.len() > 0,
    ensures
        is_least(s, least(s)),
    decreases s.len(),
{
    let x = s.choose();
    assert(s.contains(x));
    let rest = s.remove(x);
    if rest.len() == 0 {
        assert forall|y: K| #[trigger] s.contains(y) implies x.rank() <= y.rank() by {
            if y != x {
                assert(rest.contains(y));
            }
        }
        assert(is_least(s, x));
    } else {
        lemma_least_exists(rest);
        let m = least(rest);
        if m.rank() < x.rank() {
            assert(is_least(s, m));
        } else {
            assert(is_least(s, x));
        }
    }
}

pub proof fn lemma_ascending_keys<K: SortKey>(s: Set<K>)
    requires
        s.finite(),
    ensures
        strictly_ascending(ascending_keys(s)),
        ascending_keys(s).to_set() == s,
        ascending_keys(s).len() == s.len(),
    decreases s.len(),
{
    let q = ascending_keys(s);
    if s.len() == 0 {
        assert(q.to_set() =~= s);
    } else {
        lemma_least_exists(s);
        let m = least(s);
        let rest = s.remove(m);
        lemma_ascending_keys(rest);
        let tail = ascending_keys(rest);
        assert(q == seq![m] + tail);
        assert forall|i: int, j: int| 0 <= i < j < q.len() implies #[trigger] q[i].rank()
            < #[trigger] q[j].rank() by {
            if i == 0 {
                assert(q[j] == tail[j - 1]);
                assert(tail.to_set().contains(tail[j - 1]));
                assert(rest.contains(q[j]));
                if q[j].rank() == m.rank() {
                    K::lemma_rank_injective(q[j], m);
                }
            } else {
                assert(q[i] == tail[i - 1]);
                assert(q[j] == tail[j - 1]);
            }
        }
        assert forall|y: K| q.to_set().contains(y) <==> s.contains(y) by {
            if q.to_set().contains(y) {
                let k = choose|k: int| 0 <= k < q.len() && q[k] == y;
                if k > 0 {
                    assert(tail[k - 1] == y);
                    assert(tail.to_set().contains(y));
                }
            }
            if s.contains(y) {
                if y == m {
                    assert(q[0] == y);
                } else {
                    assert(rest.contains(y));
                    assert(tail.to_set().contains(y));
                    let k = choose|k: int| 0 <= k < tail.len() && tail[k] == y;
                    assert(q[k + 1] == y);
                }
            }
        }
        assert(q.to_set() =~= s);
    }
}

/// A strictly ascending sequence holding exactly the elements of `s` is `ascending_keys(s)`.
pub proof fn lemma_ascending_keys_unique<K: SortKey>(q: Seq<K>, s: Set<K>)
    requires
        s.finite(),
        strictly_ascending(q),
        q.to_set() == s,
    ensures
        q == ascending_keys(s),
    decreases q.len(),
{
    if q.len() == 0 {
        assert(s =~= Set::<K>::empty());
        assert(s.len() == 0);
        assert(q =~= ascending_keys(s));
    } else {
        let m = q[0];
        assert(q.to_set().contains(m));
        assert(s.len() > 0);
        lemma_least_exists(s);
        let l = least(s);
        assert(is_least(s, m)) by {
            assert forall|y: K| #[trigger] s.contains(y) implies m.rank() <= y.rank() by {
                assert(q.to_set().contains(y));
                let k = choose|k: int| 0 <= k < q.len() && q[k] == y;
                if k > 0 {
                    assert(q[0].rank() < q[k].rank());
                }
            }
        }
        assert(l.rank() <= m.rank() && m.rank() <= l.rank());
        K::lemma_rank_injective(l, m);
        let tail = q.drop_first();
        let rest = s.remove(m);
        assert(strictly_ascending(tail)) by {
            assert forall|i: int, j: int| 0 <= i < j < tail.len() implies #[trigger] tail[i].rank()
                < #[trigger] tail[j].rank() by {
                assert(tail[i] == q[i + 1]);
                assert(tail[j] == q[j + 1]);
            }
        }
        assert forall|y: K| tail.to_set().contains(y) <==> rest.contains(y) by {
            if tail.to_set().contains(y) {
                let k = choose|k: int| 0 <= k < tail.len() && tail[k] == y;
                assert(q[k + 1] == y);
                assert(q[0].rank() < q[k + 1].rank());
                assert(q.to_set().contains(y));
            }
            if rest.contains(y) {
                assert(q.to_set().contains(y));
                let k = choose|k: int| 0 <= k < q.len() && q[k] == y;
                assert(k != 0);
                assert(tail[k - 1] == y);
            }
        }
        assert(tail.to_set() =~= rest);
        lemma_ascending_keys_unique(tail, rest);
        assert(q =~= seq![m] + tail);
    }
}

/// The keys of `m`, smallest first.
pub fn sorted_keys<K: SortKey, V>(m: &HashMap<K, V>) -> (v: Vec<K>)
    requires
        obeys_key_model::<K>(),
    ensures
        v@ == ascending_keys(m@.dom()),
{
    let mut v: Vec<K> = Vec::new();
    let ghost ks = vstd::std_specs::hash::spec_keys_iter(m).remaining().unref();
    for k in it: m.keys()
        invariant
            it.seq().unref() == ks,
            ks.no_duplicates(),
            ks.to_set() == m@.dom(),
            strictly_ascending(v@),
            v@.to_set() == ks.take(it.index()).to_set(),
    {
        let key = *k;
        let ghost seen = ks.take(it.index());
        assert(ks[it.index()] == key);
        assert(!seen.to_set().contains(key)) by {
            if seen.to_set().contains(key) {
                let j = choose|j: int| 0 <= j < seen.len() && seen[j] == key;
                assert(ks[j] == ks[it.index()]);
            }
        }
        let mut pos: usize = 0;
        while pos < v.len() && v[pos].less_than(&key)
            invariant
                pos <= v.len(),
                forall|j: int| 0 <= j < pos ==> #[trigger] v@[j].rank() < key.rank(),
            decreases v.len() - pos,
        {
            pos = pos + 1;
        }
        let ghost old_v = v@;
        assert(!old_v.to_set().contains(key));
        v.insert(pos, key);
        proof {
            assert(v@ == old_v.insert(pos as int, key));
            assert forall|j: int| pos <= j < old_v.len() implies key.rank() < #[trigger] old_v[j].rank() by {
                if pos < old_v.len() {
                    assert(!(old_v[pos as int].rank() < key.rank()));
                    if old_v[pos as int].rank() == key.rank() {
                        K::lemma_rank_injective(old_v[pos as int], key);
                        assert(old_v.to_set().contains(old_v[pos as int]));
                    }
                    if j > pos {
                        assert(old_v[pos as int].rank() < old_v[j].rank());
                    }
                }
            }
            assert forall|a: int, b: int| 0 <= a < b < v@.len() implies #[trigger] v@[a].rank()
                < #[trigger] v@[b].rank() by {
                if b < pos {
                } else if b == pos {
                } else if a < pos {
                    assert(v@[b] == old_v[b - 1]);
                    assert(v@[a] == old_v[a]);
                    if a < b - 1 {
                        assert(old_v[a].rank() < old_v[b - 1].rank());
                    }
                } else if a == pos {
                    assert(v@[b] == old_v[b - 1]);
                } else {
                    assert(v@[b] == old_v[b - 1]);
                    assert(v@[a] == old_v[a - 1]);
                }
            }
            let now = ks.take(it.index() + 1);
            assert(now == seen.push(key));
            assert forall|y: K| v@.to_set().contains(y) <==> now.to_set().contains(y) by {
                if v@.to_set().contains(y) {
                    let j = choose|j: int| 0 <= j < v@.len() && v@[j] == y;
                    if j < pos {
                        assert(old_v[j] == y);
                        assert(old_v.to_set().contains(y));
                        let i = choose|i: int| 0 <= i < seen.len() && seen[i] == y;
                        assert(now[i] == y);
                    } else if j == pos {
                        assert(now[seen.len() as int] == y);
                    } else {
                        assert(old_v[j - 1] == y);
                        assert(old_v.to_set().contains(y));
                        let i = choose|i: int| 0 <= i < seen.len() && seen[i] == y;
                        assert(now[i] == y);
                    }
                }
                if now.to_set().contains(y) {
                    let i = choose|i: int| 0 <= i < now.len() && now[i] == y;
                    if i < seen.len() {
                        assert(seen[i] == y);
                        assert(seen.to_set().contains(y));
                        assert(old_v.to_set().contains(y));
                        let j = choose|j: int| 0 <= j < old_v.len() && old_v[j] == y;
                        if j < pos {
                            assert(v@[j] == y);
                        } else {
                            assert(v@[j + 1] == y);
                        }
                    } else {
                        assert(v@[pos as int] == y);
                    }
                }
            }
            assert(v@.to_set() =~= now.to_set());
        }
    }
    proof {
        assert(ks.take(ks.len() as int) == ks);
        assert(v@.to_set() == m@.dom());
        lemma_ascending_keys_unique(v@, m@.dom());
    }
    v
}

} // verus!
