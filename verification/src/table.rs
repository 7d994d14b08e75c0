//! The bucketed map itself: a fixed-length vector of buckets, each bucket a
//! vector of key/value pairs. Every operation hashes the key, reduces the
//! hash to a bucket index by modulo, and scans that one bucket linearly.

use vstd::prelude::*;

use crate::key::HashKey;

verus! {

/// The bucket an entry with hash `h` belongs to, among `n` buckets.
pub open spec fn bucket_index(h: u64, n: nat) -> int {
    h as int % n as int
}

/// A bucketed hash map with a bucket count fixed at construction.
///
/// Its abstract value (the view) is the `Map` from abstract key values to
/// stored values; insertion is first-write-wins, and there is no deletion,
/// no iteration, and no resizing.
pub struct HashMap<K: HashKey, V> {
    buckets: Vec<Vec<(K, V)>>,
}

impl<K: HashKey, V> HashMap<K, V> {
    /// The number of buckets, fixed at construction.
    pub closed spec fn bucket_count(self) -> nat {
        self.buckets@.len()
    }

    /// The entries of bucket `i`, in insertion order.
    spec fn bucket_at(self, i: int) -> Seq<(K, V)> {
        self.buckets@[i]@
    }

    /// Bucket `i` holds, at position `j`, an entry whose key has the
    /// abstract value `kv`.
    spec fn entry_at(self, i: int, j: int, kv: <K as View>::V) -> bool {
        &&& 0 <= i < self.buckets@.len()
        &&& 0 <= j < self.bucket_at(i).len()
        &&& self.bucket_at(i)[j].0@ == kv
    }

    /// Well-formedness: at least one bucket; every entry sits in the bucket
    /// its key's hash routes to; and within a bucket no two entries share a
    /// key. Constructors establish this and every operation preserves it.
    pub closed spec fn wf(self) -> bool {
        &&& self.buckets@.len() >= 1
        &&& forall|i: int, j: int|
            0 <= i < self.buckets@.len() && 0 <= j < self.bucket_at(i).len()
                ==> bucket_index(K::hash_of(#[trigger] self.bucket_at(i)[j].0@), self.buckets@.len()) == i
        &&& forall|i: int, j1: int, j2: int|
            0 <= i < self.buckets@.len() && 0 <= j1 < self.bucket_at(i).len()
                && 0 <= j2 < self.bucket_at(i).len() && j1 != j2
                ==> #[trigger] self.bucket_at(i)[j1].0@ != #[trigger] self.bucket_at(i)[j2].0@
    }

    /// Allocates `range_count` empty buckets.
    ///
    /// A bucket count of zero would make the index computation of every
    /// later operation divide by zero, so it is rejected here, by
    /// precondition, rather than left to fault on first use.
    pub fn new_with_custom_range(range_count: usize) -> (m: Self)
        requires
            range_count >= 1,
        ensures
            m.wf(),
            m.bucket_count() == range_count,
            m@ == Map::<<K as View>::V, V>::empty(),
    {
        let mut buckets: Vec<Vec<(K, V)>> = Vec::new();
        while buckets.len() < range_count
            invariant
                buckets@.len() <= range_count,
                forall|i: int| 0 <= i < buckets@.len() ==> #[trigger] buckets@[i]@.len() == 0,
            decreases range_count - buckets.len(),
        {
            buckets.push(Vec::new());
        }
        let m = HashMap { buckets };
        proof {
            assert(m@ =~= Map::<<K as View>::V, V>::empty());
        }
        m
    }

    /// Allocates the default number of buckets, one hundred.
    pub fn new() -> (m: Self)
        ensures
            m.wf(),
            m.bucket_count() == 100,
            m@ == Map::<<K as View>::V, V>::empty(),
    {
        Self::new_with_custom_range(100)
    }

    /// An entry of a well-formed map determines its key's image in the view:
    /// the view contains the entry's key and maps it to the entry's value.
    proof fn lemma_entry_view(self, i: int, j: int)
        requires
            self.wf(),
            0 <= i < self.buckets@.len(),
            0 <= j < self.bucket_at(i).len(),
        ensures
            self@.dom().contains(self.bucket_at(i)[j].0@),
            self@[self.bucket_at(i)[j].0@] == self.bucket_at(i)[j].1,
    {
        let kv = self.bucket_at(i)[j].0@;
        assert(self.entry_at(i, j, kv));
        let (i2, j2) = choose|i2: int, j2: int| self.entry_at(i2, j2, kv);
        assert(self.entry_at(i2, j2, kv));
        assert(self.bucket_at(i2)[j2].0@ == kv);
        assert(i2 == i);
        assert(j2 == j);
    }

    /// A key absent from the one bucket its hash routes to is absent from
    /// the whole view.
    proof fn lemma_absent(self, kv: <K as View>::V)
        requires
            self.wf(),
            forall|t: int|
                0 <= t < self.bucket_at(bucket_index(K::hash_of(kv), self.bucket_count())).len()
                    ==> #[trigger] self.bucket_at(
                    bucket_index(K::hash_of(kv), self.bucket_count()),
                )[t].0@ != kv,
        ensures
            !self@.dom().contains(kv),
    {
        if self@.dom().contains(kv) {
            let (i, j) = choose|i: int, j: int| self.entry_at(i, j, kv);
            assert(self.entry_at(i, j, kv));
            assert(self.bucket_at(i)[j].0@ == kv);
            assert(bucket_index(K::hash_of(kv), self.bucket_count()) == i);
            assert(false);
        }
    }

    /// The linear scan of one bucket: the position of the first entry whose
    /// key equals `key`, or `None` when the bucket holds no such entry.
    fn bucket_find(bucket: &Vec<(K, V)>, key: &K) -> (r: Option<usize>)
        ensures
            match r {
                Some(j) => j < bucket@.len() && bucket@[j as int].0@ == key@,
                None => forall|t: int| 0 <= t < bucket@.len() ==> #[trigger] bucket@[t].0@ != key@,
            },
    {
        let mut j: usize = 0;
        while j < bucket.len()
            invariant
                j <= bucket@.len(),
                forall|t: int| 0 <= t < j ==> #[trigger] bucket@[t].0@ != key@,
            decreases bucket@.len() - j,
        {
            if bucket[j].0.key_eq(key) {
                return Some(j);
            }
            j += 1;
        }
        None
    }

    /// The bucket a key is routed to, as computed by every operation.
    fn index_for(&self, key: &K) -> (idx: usize)
        requires
            self.wf(),
        ensures
            idx as int == bucket_index(K::hash_of(key@), self.bucket_count()),
            idx < self.buckets@.len(),
    {
        let h = key.hash_code();
        (h % (self.buckets.len() as u64)) as usize
    }

    /// Looks the key up: a read-only reference to the value stored under an
    /// equal key, or `None` when no entry with this key exists.
    pub fn get(&self, key: &K) -> (r: Option<&V>)
        requires
            self.wf(),
        ensures
            match r {
                Some(v) => self@.dom().contains(key@) && *v == self@[key@],
                None => !self@.dom().contains(key@),
            },
    {
        let idx = self.index_for(key);
        let bucket = &self.buckets[idx];
        match Self::bucket_find(bucket, key) {
            Some(j) => {
                proof {
                    self.lemma_entry_view(idx as int, j as int);
                }
                Some(&bucket[j].1)
            },
            None => {
                proof {
                    self.lemma_absent(key@);
                }
                None
            },
        }
    }

    /// Inserts the pair, unless an entry with an equal key already exists,
    /// in which case nothing changes: the first write wins.
    pub fn set(&mut self, key: K, value: V)
        requires
            old(self).wf(),
        ensures
            final(self).wf(),
            final(self).bucket_count() == old(self).bucket_count(),
            old(self)@.dom().contains(key@) ==> *final(self) == *old(self),
            !old(self)@.dom().contains(key@) ==> final(self)@ == old(self)@.insert(key@, value),
    {
        let idx = self.index_for(&key);
        match Self::bucket_find(&self.buckets[idx], &key) {
            Some(j) => {
                proof {
                    self.lemma_entry_view(idx as int, j as int);
                }
            },
            None => {
                proof {
                    self.lemma_absent(key@);
                }
                let ghost prior = *self;
                let bucket = &mut self.buckets[idx];
                bucket.push((key, value));
                proof {
                    Self::lemma_push_view(prior, *self, key, value, idx as int);
                }
            },
        }
    }

    /// Appending a fresh key's entry to the bucket its hash routes to keeps
    /// the map well formed and inserts exactly that pair into the view.
    proof fn lemma_push_view(prior: Self, cur: Self, key: K, value: V, idx: int)
        requires
            prior.wf(),
            0 <= idx < prior.buckets@.len(),
            idx == bucket_index(K::hash_of(key@), prior.bucket_count()),
            forall|t: int|
                0 <= t < prior.bucket_at(idx).len() ==> #[trigger] prior.bucket_at(idx)[t].0@
                    != key@,
            cur.buckets@.len() == prior.buckets@.len(),
            cur.bucket_at(idx) == prior.bucket_at(idx).push((key, value)),
            forall|t: int|
                0 <= t < prior.buckets@.len() && t != idx ==> #[trigger] cur.buckets@[t]
                    == prior.buckets@[t],
        ensures
            cur.wf(),
            cur@ == prior@.insert(key@, value),
    {
        let n = prior.buckets@.len();
        let fresh_j = prior.bucket_at(idx).len() as int;
        assert forall|i: int, j: int|
            0 <= i < n && 0 <= j < cur.bucket_at(i).len() implies bucket_index(
            K::hash_of(#[trigger] cur.bucket_at(i)[j].0@),
            n,
        ) == i by {
            if i == idx && j == fresh_j {
                assert(cur.bucket_at(i)[j] == (key, value));
            } else {
                assert(cur.bucket_at(i)[j] == prior.bucket_at(i)[j]);
                assert(bucket_index(K::hash_of(prior.bucket_at(i)[j].0@), n) == i);
            }
        }
        assert forall|i: int, j1: int, j2: int|
            0 <= i < n && 0 <= j1 < cur.bucket_at(i).len() && 0 <= j2 < cur.bucket_at(i).len()
                && j1 != j2 implies #[trigger] cur.bucket_at(i)[j1].0@ != #[trigger] cur.bucket_at(
            i,
        )[j2].0@ by {
            if i == idx {
                if j1 == fresh_j {
                    assert(prior.bucket_at(idx)[j2].0@ != key@);
                } else if j2 == fresh_j {
                    assert(prior.bucket_at(idx)[j1].0@ != key@);
                } else {
                    assert(prior.bucket_at(i)[j1].0@ != prior.bucket_at(i)[j2].0@);
                }
            } else {
                assert(prior.bucket_at(i)[j1].0@ != prior.bucket_at(i)[j2].0@);
            }
        }
        assert(cur.wf());
        assert forall|kv: <K as View>::V| #[trigger]
            cur@.dom().contains(kv) == prior@.insert(key@, value).dom().contains(kv) && (cur@.dom()
            .contains(kv) ==> cur@[kv] == prior@.insert(key@, value)[kv]) by {
            Self::lemma_push_view_at(prior, cur, key, value, idx, kv);
        }
        assert(cur@ =~= prior@.insert(key@, value));
    }

    /// One abstract key at a time: how the view changes under the append of
    /// `lemma_push_view`.
    proof fn lemma_push_view_at(prior: Self, cur: Self, key: K, value: V, idx: int, kv: <K as View>::V)
        requires
            prior.wf(),
            cur.wf(),
            0 <= idx < prior.buckets@.len(),
            idx == bucket_index(K::hash_of(key@), prior.bucket_count()),
            forall|t: int|
                0 <= t < prior.bucket_at(idx).len() ==> #[trigger] prior.bucket_at(idx)[t].0@
                    != key@,
            cur.buckets@.len() == prior.buckets@.len(),
            cur.bucket_at(idx) == prior.bucket_at(idx).push((key, value)),
            forall|t: int|
                0 <= t < prior.buckets@.len() && t != idx ==> #[trigger] cur.buckets@[t]
                    == prior.buckets@[t],
        ensures
            cur@.dom().contains(kv) == prior@.insert(key@, value).dom().contains(kv),
            cur@.dom().contains(kv) ==> cur@[kv] == prior@.insert(key@, value)[kv],
    {
        let fresh_j = prior.bucket_at(idx).len() as int;
        if kv == key@ {
            assert(cur.bucket_at(idx)[fresh_j] == (key, value));
            cur.lemma_entry_view(idx, fresh_j);
        } else {
            if prior@.dom().contains(kv) {
                let (i, j) = choose|i: int, j: int| prior.entry_at(i, j, kv);
                assert(prior.entry_at(i, j, kv));
                assert(cur.bucket_at(i)[j] == prior.bucket_at(i)[j]);
                prior.lemma_entry_view(i, j);
                cur.lemma_entry_view(i, j);
            }
            if cur@.dom().contains(kv) {
                let (i, j) = choose|i: int, j: int| cur.entry_at(i, j, kv);
                assert(cur.entry_at(i, j, kv));
                assert(!(i == idx && j == fresh_j));
                assert(cur.bucket_at(i)[j] == prior.bucket_at(i)[j]);
                assert(prior.entry_at(i, j, kv));
                prior.lemma_entry_view(i, j);
                cur.lemma_entry_view(i, j);
            }
        }
    }
}

impl<K: HashKey, V> View for HashMap<K, V> {
    type V = Map<<K as View>::V, V>;

    /// The abstract contents: each stored entry, keyed by the abstract
    /// value of its key.
    closed spec fn view(&self) -> Map<<K as View>::V, V> {
        Map::new(
            |kv: <K as View>::V| exists|i: int, j: int| self.entry_at(i, j, kv),
            |kv: <K as View>::V|
                {
                    let (i, j) = choose|i: int, j: int| self.entry_at(i, j, kv);
                    self.bucket_at(i)[j].1
                },
        )
    }
}

} // verus!
