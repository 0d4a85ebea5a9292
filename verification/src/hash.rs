//! Name Hasher: derive a short deterministic temporary filename from a source
//! path. A 32-bit mixing hash over the raw path bytes is spread into an
//! 8-character lowercase token (`'a'..='p'`, one character per nibble).
//!
//! No collision resolution is attempted; the design accepts a very low
//! residual collision probability between unrelated source paths in exchange
//! for zero coordination overhead. This is a known limitation, not a bug.

use vstd::prelude::*;

verus! {

/// One mixing step: XOR the byte in, multiply by an odd constant modulo
/// 2^32, then XOR with the accumulator shifted right by 15 bits.
pub open spec fn hash_step(h: u32, b: u8) -> u32 {
    let x = h ^ (b as u32);
    let y = ((x as nat * 0x5bd1_e995) % 0x1_0000_0000) as u32;
    y ^ (y >> 15)
}

/// The mixing hash of a byte sequence, seeded with 1234.
pub open spec fn hash_spec(s: Seq<u8>) -> u32
    decreases s.len(),
{
    if s.len() == 0 {
        1234u32
    } else {
        hash_step(hash_spec(s.drop_last()), s.last())
    }
}

/// The low `k` nibbles of `h`, each mapped to one byte in `'a'..='p'`,
/// lowest nibble first.
pub open spec fn token_rec(h: u32, k: nat) -> Seq<u8>
    decreases k,
{
    if k == 0 {
        Seq::empty()
    } else {
        seq![(97 + (h & 0xf)) as u8] + token_rec(h >> 4, (k - 1) as nat)
    }
}

/// The 8-character filename token for a hash value.
pub open spec fn token_of(h: u32) -> Seq<u8> {
    token_rec(h, 8)
}

/// The token a source path is mapped to.
pub open spec fn name_of(path: Seq<u8>) -> Seq<u8> {
    token_of(hash_spec(path))
}

/// Hash the raw bytes of a source path.
pub fn hash_bytes(b: &[u8]) -> (r: u32)
    ensures
        r == hash_spec(b@),
{
    let mut h: u32 = 1234;
    let mut i: usize = 0;
    while i < b.len()
        invariant
            i <= b.len(),
            h == hash_spec(b@.take(i as int)),
        decreases b.len() - i,
    {
        let x = h ^ (b[i] as u32);
        let y = x.wrapping_mul(0x5bd1_e995);
        h = y ^ (y >> 15);
        proof {
            assert(b@.take(i + 1).drop_last() =~= b@.take(i as int));
            assert(b@.take(i + 1).last() == b@[i as int]);
        }
        i = i + 1;
    }
    proof {
        assert(b@.take(b@.len() as int) =~= b@);
    }
    h
}

/// Spread a hash value into its 8-character token.
pub fn hash_token(h: u32) -> (r: Vec<u8>)
    ensures
        r@ == token_of(h),
{
    let mut out: Vec<u8> = Vec::new();
    let mut cur: u32 = h;
    let mut i: usize = 0;
    while i < 8
        invariant
            i <= 8,
            out@ + token_rec(cur, (8 - i) as nat) == token_of(h),
            out@.len() == i,
        decreases 8 - i,
    {
        proof {
            assert((cur & 0xf) < 16) by (bit_vector);
        }
        let n = (cur & 0xf) as u8;
        out.push(97 + n);
        cur = cur >> 4;
        i = i + 1;
        proof {
            assert(out@ + token_rec(cur, (8 - i) as nat) =~= token_of(h));
        }
    }
    proof {
        assert(out@ + token_rec(cur, 0) =~= out@);
    }
    out
}

/// Map a source path to its deterministic 8-character temporary filename.
pub fn temp_name(path: &[u8]) -> (r: Vec<u8>)
    ensures
        r@ == name_of(path@),
{
    let h = hash_bytes(path);
    hash_token(h)
}

proof fn lemma_token_rec_shape(h: u32, k: nat)
    ensures
        token_rec(h, k).len() == k,
        forall|j: int| 0 <= j < k ==> 97 <= #[trigger] token_rec(h, k)[j] <= 112,
    decreases k,
{
    if k > 0 {
        assert((h & 0xf) < 16) by (bit_vector);
        lemma_token_rec_shape(h >> 4, (k - 1) as nat);
    }
}

/// Law: every token is exactly 8 bytes, each a lowercase letter in
/// `'a'..='p'` — a valid, fixed-width filename whatever the path.
pub proof fn lemma_token_shape(h: u32)
    ensures
        token_of(h).len() == 8,
        forall|j: int| 0 <= j < 8 ==> 97 <= #[trigger] token_of(h)[j] <= 112,
{
    lemma_token_rec_shape(h, 8);
}

/// Law: the Name Hasher is deterministic — the same path bytes always yield
/// the same 8-character token, so re-runs reuse the same temporary filename.
pub proof fn lemma_name_deterministic(a: Seq<u8>, b: Seq<u8>)
    requires
        a == b,
    ensures
        name_of(a) == name_of(b),
{
}

} // verus!
