//! The laws of the bucketed map, stated over the abstract values that the
//! operations' contracts speak of and proved once for every key and value
//! type, every bucket count of at least one, and every map state.

use vstd::prelude::*;

use crate::key::HashKey;
use crate::table::HashMap;

verus! {

/// The abstract state after `set(key, value)`, exactly as `set` ensures it:
/// the insertion happens only when the key is fresh (first write wins).
pub open spec fn set_applied<KV, V>(m: Map<KV, V>, kv: KV, value: V) -> Map<KV, V> {
    if m.dom().contains(kv) {
        m
    } else {
        m.insert(kv, value)
    }
}

/// The abstract state after a whole sequence of `set` calls, applied in
/// order to an initial state.
pub open spec fn sets_applied<KV, V>(m: Map<KV, V>, ops: Seq<(KV, V)>) -> Map<KV, V>
    decreases ops.len(),
{
    if ops.len() == 0 {
        m
    } else {
        set_applied(sets_applied(m, ops.drop_last()), ops.last().0, ops.last().1)
    }
}

/// Round trip: after `set(key, value)` on an empty map, the view holds the
/// key and maps it to that value, so `get` must return it.
pub proof fn lemma_round_trip<K: HashKey, V>(
    before: HashMap<K, V>,
    after: HashMap<K, V>,
    kv: <K as View>::V,
    value: V,
)
    requires
        before@ == Map::<<K as View>::V, V>::empty(),
        after@ == set_applied(before@, kv, value),
    ensures
        after@.dom().contains(kv),
        after@[kv] == value,
{
}

/// First write wins: after `set(key, v1)` then `set(key, v2)` on an empty
/// map, the view still maps the key to `v1`, never to `v2`.
pub proof fn lemma_first_write_wins<K: HashKey, V>(
    start: HashMap<K, V>,
    once: HashMap<K, V>,
    twice: HashMap<K, V>,
    kv: <K as View>::V,
    v1: V,
    v2: V,
)
    requires
        v1 != v2,
        start@ == Map::<<K as View>::V, V>::empty(),
        once@ == set_applied(start@, kv, v1),
        twice@ == set_applied(once@, kv, v2),
    ensures
        twice@.dom().contains(kv),
        twice@[kv] == v1,
        twice@[kv] != v2,
{
}

/// Miss: a freshly constructed map holds no key at all, so `get` must
/// return `None` for every key.
pub proof fn lemma_miss<K: HashKey, V>(fresh: HashMap<K, V>, kv: <K as View>::V)
    requires
        fresh@ == Map::<<K as View>::V, V>::empty(),
    ensures
        !fresh@.dom().contains(kv),
{
}

/// Correctness is independent of the bucket count: two well-formed maps
/// with equal views but arbitrary, possibly different, bucket counts are
/// indistinguishable through `get`, and `set` keeps their views equal —
/// only performance can differ.
pub proof fn lemma_bucket_count_independent<K: HashKey, V>(
    a: HashMap<K, V>,
    b: HashMap<K, V>,
    kv: <K as View>::V,
    value: V,
)
    requires
        a.wf(),
        b.wf(),
        a@ == b@,
    ensures
        a@.dom().contains(kv) == b@.dom().contains(kv),
        a@.dom().contains(kv) ==> a@[kv] == b@[kv],
        set_applied(a@, kv, value) == set_applied(b@, kv, value),
{
}

/// Uniqueness: after any sequence of `set` calls on an empty map, the keys
/// retrievable are exactly the distinct keys ever passed to `set`, so their
/// number is the number of distinct keys passed (duplicates counted once).
pub proof fn lemma_uniqueness<KV, V>(ops: Seq<(KV, V)>)
    ensures
        sets_applied(Map::<KV, V>::empty(), ops).dom() =~= ops.map_values(
            |op: (KV, V)| op.0,
        ).to_set(),
        sets_applied(Map::<KV, V>::empty(), ops).dom().len() == ops.map_values(
            |op: (KV, V)| op.0,
        ).to_set().len(),
    decreases ops.len(),
{
    let keys = ops.map_values(|op: (KV, V)| op.0);
    if ops.len() == 0 {
        assert(sets_applied(Map::<KV, V>::empty(), ops).dom() =~= keys.to_set());
    } else {
        lemma_uniqueness::<KV, V>(ops.drop_last());
        assert(ops.drop_last().map_values(|op: (KV, V)| op.0) =~= keys.drop_last());
        assert forall|x: KV|
            keys.to_set().contains(x) <==> keys.drop_last().to_set().insert(
                keys.last(),
            ).contains(x) by {
            if keys.contains(x) {
                let i = choose|i: int| 0 <= i < keys.len() && keys[i] == x;
                if i < keys.len() - 1 {
                    assert(keys.drop_last()[i] == x);
                    assert(keys.drop_last().contains(x));
                }
            }
            if keys.drop_last().contains(x) {
                let i = choose|i: int| 0 <= i < keys.drop_last().len() && keys.drop_last()[i] == x;
                assert(keys[i] == x);
                assert(keys.contains(x));
            }
            if x == keys.last() {
                assert(keys.contains(x));
            }
        }
        assert(keys.to_set() =~= keys.drop_last().to_set().insert(keys.last()));
        assert(sets_applied(Map::<KV, V>::empty(), ops).dom() =~= keys.to_set());
    }
}

} // verus!
