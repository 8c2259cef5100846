//! A deterministic FNV-1a hasher.

use vstd::prelude::*;
use vstd::string::StringSliceAdditionalSpecFns;

verus! {

pub const FNV_OFFSET: u64 = 0xcbf29ce484222325u64;
pub const FNV_PRIME: u64 = 0x100000001b3u64;

/// One FNV-1a step: xor the byte in, multiply by the prime modulo 2^64.
pub open spec fn fnv_step(h: u64, b: u8) -> u64 {
    (((h ^ (b as u64)) as nat * FNV_PRIME as nat) % 0x1_0000_0000_0000_0000) as u64
}

/// State after feeding `bytes` to a hasher in state `h`.
pub open spec fn fnv(h: u64, bytes: Seq<u8>) -> u64
    decreases bytes.len(),
{
    if bytes.len() == 0 { h } else { fnv_step(fnv(h, bytes.drop_last()), bytes.last()) }
}

/// The `k` lowest bytes of `n`, least significant first.
pub open spec fn le_bytes(n: nat, k: nat) -> Seq<u8>
    decreases k,
{
    if k == 0 { seq![] } else { seq![(n % 256) as u8] + le_bytes(n / 256, (k - 1) as nat) }
}

/// Deterministic hasher (FNV-1a) that produces identical output across
/// Rust versions.
pub struct StableHasher(u64);

impl StableHasher {
    /// Current state of the hash.
    pub closed spec fn state(&self) -> u64 {
        self.0
    }

    pub fn new() -> (h: Self)
        ensures
            h.state() == FNV_OFFSET,
    {
        StableHasher(FNV_OFFSET)
    }

    pub fn finish(&self) -> (r: u64)
        ensures
            r == self.state(),
    {
        self.0
    }

    /// Feed bytes to the hasher.
    pub fn write(&mut self, bytes: &[u8])
        ensures
            final(self).state() == fnv(old(self).state(), bytes@),
    {
        let mut i: usize = 0;
        let ghost h0 = self.0;
        while i < bytes.len()
            invariant
                i <= bytes.len(),
                self.0 == fnv(h0, bytes@.take(i as int)),
                h0 == old(self).0,
            decreases bytes.len() - i,
        {
            let x = self.0 ^ (bytes[i] as u64);
            assert((x as u128) * (FNV_PRIME as u128) <= 0xffff_ffff_ffff_ffffu128 * 0x100000001b3u128) by (nonlinear_arith)
                requires x <= 0xffff_ffff_ffff_ffffu64;
            let p = ((x as u128) * (FNV_PRIME as u128)) % 0x1_0000_0000_0000_0000u128;
            assert(bytes@.take(i + 1).drop_last() =~= bytes@.take(i as int));
            self.0 = p as u64;
            i += 1;
        }
        assert(bytes@.take(bytes.len() as int) =~= bytes@);
    }

    /// Feed the eight little-endian bytes of `n` (how `Hash` writes a
    /// `u64` on this target).
    pub fn write_u64(&mut self, n: u64)
        ensures
            final(self).state() == fnv(old(self).state(), le_bytes(n as nat, 8)),
    {
        let mut bytes: Vec<u8> = Vec::new();
        let mut v = n;
        let mut k: usize = 0;
        while k < 8
            invariant
                k <= 8,
                bytes@ + le_bytes(v as nat, (8 - k) as nat) == le_bytes(n as nat, 8),
            decreases 8 - k,
        {
            let ghost before = bytes@;
            bytes.push((v % 256) as u8);
            assert(le_bytes(v as nat, (8 - k) as nat) == seq![(v % 256) as u8] + le_bytes((v / 256) as nat, (8 - k - 1) as nat));
            assert(bytes@ + le_bytes((v / 256) as nat, (8 - k - 1) as nat) =~= before + le_bytes(v as nat, (8 - k) as nat));
            v = v / 256;
            k += 1;
        }
        assert(bytes@ =~= le_bytes(n as nat, 8));
        self.write(bytes.as_slice());
    }

    /// Feed a string the way `str::hash` does: its UTF-8 bytes, then 0xff.
    pub fn write_str(&mut self, s: &str)
        ensures
            final(self).state() == fnv(fnv(old(self).state(), s.spec_bytes()), seq![0xffu8]),
    {
        self.write(s.as_bytes());
        let mut tail: Vec<u8> = Vec::new();
        tail.push(0xff);
        assert(tail@ =~= seq![0xffu8]);
        self.write(tail.as_slice());
    }
}

impl Default for StableHasher {
    fn default() -> (h: Self)
        ensures
            h.state() == FNV_OFFSET,
    {
        Self::new()
    }
}

} // verus!
