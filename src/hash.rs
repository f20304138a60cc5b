use vstd::prelude::*;

verus! {

/// The FNV-1a offset basis for 64-bit states.
pub const OFFSET_BASIS: u64 = 0xcbf29ce484222325u64;

/// The FNV-1a prime for 64-bit states.
pub const MAGIC_PRIME: u64 = 0x00000100000001b3u64;

/// One FNV-1a step: xor the byte in, then multiply by the prime modulo 2^64.
pub open spec fn fnv_step(h: u64, b: u8) -> u64 {
    ((h ^ (b as u64)) as int * MAGIC_PRIME as int % 0x1_0000_0000_0000_0000) as u64
}

/// The state reached from `h` by feeding it `bytes` in order.
pub open spec fn fnv_fold(h: u64, bytes: Seq<u8>) -> u64
    decreases bytes.len(),
{
    if bytes.len() == 0 {
        h
    } else {
        fnv_step(fnv_fold(h, bytes.drop_last()), bytes.last())
    }
}

/// The `n` low-order bytes of `x`, least significant first.
pub open spec fn le_bytes(x: u64, n: nat) -> Seq<u8> {
    Seq::new(n, |k: int| (x >> ((8 * k) as u64)) as u8)
}

/// The FNV-1a hash of the eight little-endian bytes of `x`.
pub open spec fn fnv1a_of(x: u64) -> u64 {
    fnv_fold(OFFSET_BASIS, le_bytes(x, 8))
}

/// A value with a stable 64-bit fingerprint, the same in every run and on
/// every platform.
pub trait Fingerprint {
    spec fn fingerprint(&self) -> u64;

    fn hash_key(&self) -> (r: u64)
        ensures
            r == self.fingerprint(),
    ;
}

/// Byte-level FNV-1a hasher with a 64-bit state. Multi-byte writes feed
/// their bytes least significant first.
#[derive(PartialEq, Eq, Structural, Hash, Clone, Copy, Debug)]
pub struct Fnv1aHasher(u64);

fn offset_basis() -> (r: u64)
    ensures
        r == OFFSET_BASIS,
{
    OFFSET_BASIS
}

fn magic_prime() -> (r: u64)
    ensures
        r == MAGIC_PRIME,
{
    MAGIC_PRIME
}

impl Fnv1aHasher {
    pub closed spec fn state(&self) -> u64 {
        self.0
    }

    pub fn new() -> (r: Self)
        ensures
            r.state() == OFFSET_BASIS,
    {
        Fnv1aHasher(offset_basis())
    }

    pub fn finish(&self) -> (r: u64)
        ensures
            r == self.state(),
    {
        self.0
    }

    pub fn write_u8(&mut self, i: u8)
        ensures
            final(self).state() == fnv_step(old(self).state(), i),
    {
        let x: u64 = self.0 ^ (i as u64);
        self.0 = x.wrapping_mul(magic_prime());
    }

    pub fn write(&mut self, bytes: &[u8])
        ensures
            final(self).state() == fnv_fold(old(self).state(), bytes@),
    {
        let ghost h0 = self.0;
        let mut k: usize = 0;
        while k < bytes.len()
            invariant
                0 <= k <= bytes@.len(),
                self.state() == fnv_fold(h0, bytes@.take(k as int)),
            decreases bytes@.len() - k,
        {
            self.write_u8(bytes[k]);
            proof {
                assert(bytes@.take(k + 1).drop_last() =~= bytes@.take(k as int));
            }
            k += 1;
        }
        proof {
            assert(bytes@.take(k as int) =~= bytes@);
        }
    }

    /// Feeds the `n` low-order bytes of `x`, least significant first.
    fn write_le(&mut self, x: u64, n: usize)
        requires
            n <= 8,
        ensures
            final(self).state() == fnv_fold(old(self).state(), le_bytes(x, n as nat)),
    {
        let ghost h0 = self.0;
        let mut k: usize = 0;
        while k < n
            invariant
                0 <= k <= n <= 8,
                self.state() == fnv_fold(h0, le_bytes(x, k as nat)),
            decreases n - k,
        {
            let shift: u64 = 8 * (k as u64);
            self.write_u8((x >> shift) as u8);
            proof {
                assert(le_bytes(x, (k + 1) as nat).drop_last() =~= le_bytes(x, k as nat));
            }
            k += 1;
        }
    }

    pub fn write_u16(&mut self, i: u16)
        ensures
            final(self).state() == fnv_fold(old(self).state(), le_bytes(i as u64, 2)),
    {
        self.write_le(i as u64, 2);
    }

    pub fn write_u32(&mut self, i: u32)
        ensures
            final(self).state() == fnv_fold(old(self).state(), le_bytes(i as u64, 4)),
    {
        self.write_le(i as u64, 4);
    }

    pub fn write_u64(&mut self, i: u64)
        ensures
            final(self).state() == fnv_fold(old(self).state(), le_bytes(i, 8)),
    {
        self.write_le(i, 8);
    }
}

impl std::hash::Hasher for Fnv1aHasher {
    fn finish(&self) -> u64 {
        Fnv1aHasher::finish(self)
    }

    fn write(&mut self, bytes: &[u8]) {
        Fnv1aHasher::write(self, bytes)
    }

    fn write_u8(&mut self, i: u8) {
        Fnv1aHasher::write_u8(self, i)
    }

    fn write_u16(&mut self, i: u16) {
        Fnv1aHasher::write_u16(self, i)
    }

    fn write_u32(&mut self, i: u32) {
        Fnv1aHasher::write_u32(self, i)
    }

    fn write_u64(&mut self, i: u64) {
        Fnv1aHasher::write_u64(self, i)
    }
}

impl Default for Fnv1aHasher {
    fn default() -> (r: Self)
        ensures
            r.state() == OFFSET_BASIS,
    {
        Fnv1aHasher::new()
    }
}

/// FNV-1a hash of the eight little-endian bytes of `x`.
pub fn fnv1a_hash(x: u64) -> (r: u64)
    ensures
        r == fnv1a_of(x),
{
    let mut h = Fnv1aHasher::new();
    h.write_u64(x);
    h.finish()
}

} // verus!
