use vstd::prelude::*;
use crate::hash::Fingerprint;

verus! {

/// The `i`-th 16-bit window of `x`.
pub open spec fn window(i: u64, x: u64) -> u64 {
    (x >> (i * 16)) & 0xFFFF
}

/// The bit position that the `i`-th window of `x` selects.
pub open spec fn position(i: u64, x: u64) -> u64 {
    window(i, x) % 64
}

/// The four bits that stand for key `x`.
pub open spec fn mask(x: u64) -> u64 {
    (1u64 << position(0, x)) | (1u64 << position(1, x)) | (1u64 << position(2, x)) | (1u64
        << position(3, x))
}

/// Whether every bit that stands for `x` is set in `bits`.
pub open spec fn holds(bits: u64, x: u64) -> bool {
    bits & mask(x) == mask(x)
}

/// Whether every bit of `a` is set in `b`.
pub open spec fn within(a: u64, b: u64) -> bool {
    a & !b == 0
}

fn hash(i: u8, x: u64) -> (r: u64)
    requires
        i < 4,
    ensures
        r == window(i as u64, x),
{
    (x >> ((i as u64) * 16)) & 0xFFFF
}

fn shift(i: u8, x: u64) -> (r: u64)
    requires
        i < 4,
    ensures
        r == position(i as u64, x),
        r < 64,
{
    hash(i, x) % 64
}

/// Four set bits test the four positions at once.
proof fn lemma_test_bits(b: u64, s0: u64, s1: u64, s2: u64, s3: u64)
    requires
        s0 < 64,
        s1 < 64,
        s2 < 64,
        s3 < 64,
    ensures
        (((b >> s0) & (b >> s1) & (b >> s2) & (b >> s3) & 1u64) != 0) == (b & ((1u64 << s0) | (
            1u64 << s1) | (1u64 << s2) | (1u64 << s3)) == ((1u64 << s0) | (1u64 << s1) | (1u64
            << s2) | (1u64 << s3))),
{
    assert((((b >> s0) & (b >> s1) & (b >> s2) & (b >> s3) & 1u64) != 0) == (b & ((1u64 << s0)
        | (1u64 << s1) | (1u64 << s2) | (1u64 << s3)) == ((1u64 << s0) | (1u64 << s1) | (1u64
        << s2) | (1u64 << s3)))) by (bit_vector)
        requires
            s0 < 64,
            s1 < 64,
            s2 < 64,
            s3 < 64,
    ;
}

/// A key added to a filter is reported as present, and adding keeps every key
/// that was present.
pub proof fn lemma_add_holds(bits: u64, x: u64, y: u64)
    ensures
        holds(bits | mask(x), x),
        holds(bits, y) ==> holds(bits | mask(x), y),
{
    let m = mask(x);
    let n = mask(y);
    assert((bits | m) & m == m) by (bit_vector);
    assert(bits & n == n ==> (bits | m) & n == n) by (bit_vector);
}

/// A 64-bit Bloom filter over 64-bit keys. Presence tests have no false
/// negatives and may have false positives.
#[derive(PartialEq, Eq, Structural, Hash, Clone, Copy, Debug)]
pub struct BloomFilter(u64);

impl BloomFilter {
    pub closed spec fn bits(self) -> u64 {
        self.0
    }

    pub fn new() -> (r: Self)
        ensures
            r.bits() == 0,
    {
        BloomFilter(0u64)
    }

    pub fn union(a: &Self, b: &Self) -> (r: Self)
        ensures
            r.bits() == a.bits() | b.bits(),
    {
        BloomFilter(a.0 | b.0)
    }

    pub fn intersection(a: &Self, b: &Self) -> (r: Self)
        ensures
            r.bits() == a.bits() & b.bits(),
    {
        BloomFilter(a.0 & b.0)
    }

    pub fn add(&mut self, x: u64)
        ensures
            final(self).bits() == old(self).bits() | mask(x),
    {
        let b = self.0;
        let m = (1u64 << shift(0, x)) | (1u64 << shift(1, x)) | (1u64 << shift(2, x)) | (1u64
            << shift(3, x));
        self.0 = b | m;
    }

    pub fn contains(&self, x: u64) -> (r: bool)
        ensures
            r == holds(self.bits(), x),
    {
        let s0 = shift(0, x);
        let s1 = shift(1, x);
        let s2 = shift(2, x);
        let s3 = shift(3, x);
        proof {
            lemma_test_bits(self.0, s0, s1, s2, s3);
        }
        ((self.0 >> s0) & (self.0 >> s1) & (self.0 >> s2) & (self.0 >> s3) & 1u64) != 0
    }

    pub fn subset(a: &Self, b: &Self) -> (r: bool)
        ensures
            r == within(a.bits(), b.bits()),
    {
        let x = a.0;
        let y = b.0;
        proof {
            assert((!(!x | y) == 0u64) == (x & !y == 0)) by (bit_vector);
        }
        !(!a.0 | b.0) == 0u64
    }

    pub fn overlap(a: &Self, b: &Self) -> (r: bool)
        ensures
            r == (a.bits() & b.bits() != 0),
    {
        a.0 & b.0 != 0u64
    }
}

/// A Bloom filter over values with a stable fingerprint.
#[derive(PartialEq, Eq, Structural, Hash, Clone, Copy, Debug)]
pub struct BloomSet(BloomFilter);

impl BloomSet {
    pub closed spec fn bits(self) -> u64 {
        self.0.bits()
    }

    pub fn new() -> (r: Self)
        ensures
            r.bits() == 0,
    {
        BloomSet(BloomFilter::new())
    }

    pub fn union(a: &Self, b: &Self) -> (r: Self)
        ensures
            r.bits() == a.bits() | b.bits(),
    {
        BloomSet(BloomFilter::union(&a.0, &b.0))
    }

    pub fn intersection(a: &Self, b: &Self) -> (r: Self)
        ensures
            r.bits() == a.bits() & b.bits(),
    {
        BloomSet(BloomFilter::intersection(&a.0, &b.0))
    }

    pub fn add<T: Fingerprint>(&mut self, x: &T)
        ensures
            final(self).bits() == old(self).bits() | mask(x.fingerprint()),
    {
        let k = x.hash_key();
        self.0.add(k);
    }

    pub fn possibly_contains<T: Fingerprint>(&self, x: &T) -> (r: bool)
        ensures
            r == holds(self.bits(), x.fingerprint()),
    {
        let k = x.hash_key();
        self.0.contains(k)
    }

    /// Whether every bit of `other` is set in `self`: false only when some
    /// value added to `other` was never added to `self`.
    pub fn possibly_includes(&self, other: &Self) -> (r: bool)
        ensures
            r == within(other.bits(), self.bits()),
    {
        BloomFilter::subset(&other.0, &self.0)
    }

    pub fn possibly_overlap(a: &Self, b: &Self) -> (r: bool)
        ensures
            r == (a.bits() & b.bits() != 0),
    {
        BloomFilter::overlap(&a.0, &b.0)
    }
}

} // verus!
