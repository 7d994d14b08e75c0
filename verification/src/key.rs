//! The capability a key type must supply to be usable with the bucketed map:
//! a deterministic hash and an equality test, both consistent with the key's
//! abstract value.

use vstd::prelude::*;

verus! {

/// A key of the bucketed map.
///
/// The hash is declared as a spec function of the key's abstract value
/// (its view), so equal keys hash equally by construction; `hash_code`
/// computes it and `key_eq` decides abstract equality. The map's
/// correctness rests on exactly these two guarantees.
pub trait HashKey: View + Sized {
    /// The key's hash, as a mathematical function of its abstract value.
    spec fn hash_of(kv: <Self as View>::V) -> u64;

    /// Compute the hash of this key.
    fn hash_code(&self) -> (h: u64)
        ensures
            h == Self::hash_of(self@),
    ;

    /// Decide whether two keys have the same abstract value.
    fn key_eq(&self, other: &Self) -> (r: bool)
        ensures
            r == (self@ == other@),
    ;
}

impl HashKey for u64 {
    open spec fn hash_of(kv: u64) -> u64 {
        kv
    }

    fn hash_code(&self) -> (h: u64) {
        *self
    }

    fn key_eq(&self, other: &Self) -> (r: bool) {
        *self == *other
    }
}

impl HashKey for u32 {
    open spec fn hash_of(kv: u32) -> u64 {
        kv as u64
    }

    fn hash_code(&self) -> (h: u64) {
        *self as u64
    }

    fn key_eq(&self, other: &Self) -> (r: bool) {
        *self == *other
    }
}

impl HashKey for u16 {
    open spec fn hash_of(kv: u16) -> u64 {
        kv as u64
    }

    fn hash_code(&self) -> (h: u64) {
        *self as u64
    }

    fn key_eq(&self, other: &Self) -> (r: bool) {
        *self == *other
    }
}

impl HashKey for u8 {
    open spec fn hash_of(kv: u8) -> u64 {
        kv as u64
    }

    fn hash_code(&self) -> (h: u64) {
        *self as u64
    }

    fn key_eq(&self, other: &Self) -> (r: bool) {
        *self == *other
    }
}

impl HashKey for usize {
    open spec fn hash_of(kv: usize) -> u64 {
        kv as u64
    }

    fn hash_code(&self) -> (h: u64) {
        *self as u64
    }

    fn key_eq(&self, other: &Self) -> (r: bool) {
        *self == *other
    }
}

impl HashKey for i64 {
    open spec fn hash_of(kv: i64) -> u64 {
        kv as u64
    }

    fn hash_code(&self) -> (h: u64) {
        #[verifier::truncate] (*self as u64)
    }

    fn key_eq(&self, other: &Self) -> (r: bool) {
        *self == *other
    }
}

impl HashKey for i32 {
    open spec fn hash_of(kv: i32) -> u64 {
        kv as u64
    }

    fn hash_code(&self) -> (h: u64) {
        #[verifier::truncate] (*self as u64)
    }

    fn key_eq(&self, other: &Self) -> (r: bool) {
        *self == *other
    }
}

impl HashKey for i16 {
    open spec fn hash_of(kv: i16) -> u64 {
        kv as u64
    }

    fn hash_code(&self) -> (h: u64) {
        #[verifier::truncate] (*self as u64)
    }

    fn key_eq(&self, other: &Self) -> (r: bool) {
        *self == *other
    }
}

impl HashKey for i8 {
    open spec fn hash_of(kv: i8) -> u64 {
        kv as u64
    }

    fn hash_code(&self) -> (h: u64) {
        #[verifier::truncate] (*self as u64)
    }

    fn key_eq(&self, other: &Self) -> (r: bool) {
        *self == *other
    }
}

impl HashKey for isize {
    open spec fn hash_of(kv: isize) -> u64 {
        kv as u64
    }

    fn hash_code(&self) -> (h: u64) {
        #[verifier::truncate] (*self as u64)
    }

    fn key_eq(&self, other: &Self) -> (r: bool) {
        *self == *other
    }
}

/// The hash of a character sequence: a polynomial accumulation over the
/// characters with wrapping arithmetic, deterministic by construction.
pub open spec fn hash_chars(s: Seq<char>) -> u64
    decreases s.len(),
{
    if s.len() == 0 {
        5381u64
    } else {
        hash_chars(s.drop_last()).wrapping_mul(33).wrapping_add(s.last() as u64)
    }
}

/// The characters of a string, in order.
fn chars_vec(s: &str) -> (v: Vec<char>)
    ensures
        v@ == s@,
{
    let mut v: Vec<char> = Vec::new();
    for c in it: s.chars()
        invariant
            it.seq() == s@,
            v@ == it.seq().take(it.index() as int),
    {
        v.push(c);
    }
    proof {
        assert(v@ =~= s@);
    }
    v
}

/// Computes `hash_chars` over the characters of a string.
fn hash_str(s: &str) -> (h: u64)
    ensures
        h == hash_chars(s@),
{
    let cs = chars_vec(s);
    let mut h: u64 = 5381;
    let mut i: usize = 0;
    while i < cs.len()
        invariant
            i <= cs@.len(),
            cs@ == s@,
            h == hash_chars(cs@.take(i as int)),
        decreases cs@.len() - i,
    {
        h = h.wrapping_mul(33).wrapping_add(cs[i] as u64);
        proof {
            assert(cs@.take(i + 1).drop_last() =~= cs@.take(i as int));
            assert(cs@.take(i + 1).last() == cs@[i as int]);
        }
        i += 1;
    }
    proof {
        assert(cs@.take(cs@.len() as int) =~= cs@);
    }
    h
}

/// Decides whether two strings hold the same characters.
fn str_eq(a: &str, b: &str) -> (r: bool)
    ensures
        r == (a@ == b@),
{
    let av = chars_vec(a);
    let bv = chars_vec(b);
    if av.len() != bv.len() {
        return false;
    }
    let mut i: usize = 0;
    while i < av.len()
        invariant
            av@.len() == bv@.len(),
            i <= av@.len(),
            av@ == a@,
            bv@ == b@,
            forall|t: int| 0 <= t < i ==> av@[t] == bv@[t],
        decreases av@.len() - i,
    {
        if av[i] != bv[i] {
            return false;
        }
        i += 1;
    }
    proof {
        assert(a@ =~= b@);
    }
    true
}

impl HashKey for String {
    open spec fn hash_of(kv: Seq<char>) -> u64 {
        hash_chars(kv)
    }

    fn hash_code(&self) -> (h: u64) {
        hash_str(self.as_str())
    }

    fn key_eq(&self, other: &Self) -> (r: bool) {
        self.eq(other)
    }
}

impl<'a> HashKey for &'a str {
    open spec fn hash_of(kv: Seq<char>) -> u64 {
        hash_chars(kv)
    }

    fn hash_code(&self) -> (h: u64) {
        hash_str(*self)
    }

    fn key_eq(&self, other: &Self) -> (r: bool) {
        str_eq(*self, *other)
    }
}

impl HashKey for bool {
    open spec fn hash_of(kv: bool) -> u64 {
        if kv {
            1u64
        } else {
            0u64
        }
    }

    fn hash_code(&self) -> (h: u64) {
        if *self {
            1
        } else {
            0
        }
    }

    fn key_eq(&self, other: &Self) -> (r: bool) {
        *self == *other
    }
}

} // verus!
