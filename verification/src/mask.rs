//! Payload masking engine: XORs a 4-byte key cyclically over a byte span.
//!
//! XOR with a fixed key is its own inverse, so one operation both masks and
//! unmasks. Two executable paths are offered behind one specification: a
//! bulk path that processes the span in 32-byte chunks with the key
//! replicated to chunk width, and a scalar path that walks byte by byte.
//! Both carry the same exact postcondition, so they are provably
//! byte-identical for every length and every chunk phase.

use vstd::prelude::*;

verus! {

/// The mathematical result of masking: byte `i` of the span XORed with
/// byte `i mod 4` of the key.
pub open spec fn mask_seq(s: Seq<u8>, key: Seq<u8>) -> Seq<u8> {
    Seq::new(s.len(), |i: int| s[i] ^ key[i % 4])
}

/// Masking twice with the same key restores the original span, for every
/// key and every span length.
pub proof fn lemma_mask_involution(s: Seq<u8>, key: Seq<u8>)
    requires
        key.len() == 4,
    ensures
        mask_seq(mask_seq(s, key), key) == s,
{
    assert forall|i: int| 0 <= i < s.len() implies mask_seq(mask_seq(s, key), key)[i] == s[i] by {
        let a: u8 = s[i];
        let k: u8 = key[i % 4];
        assert((a ^ k) ^ k == a) by (bit_vector);
    }
    assert(mask_seq(mask_seq(s, key), key) =~= s);
}

/// Scalar path: XOR each byte with the key byte at its phase, one at a time.
pub fn apply_mask_scalar(buf: &mut Vec<u8>, key: [u8; 4])
    ensures
        final(buf)@ == mask_seq(old(buf)@, key@),
{
    let n = buf.len();
    let mut i: usize = 0;
    while i < n
        invariant
            n == buf@.len() == old(buf)@.len(),
            i <= n,
            forall|j: int| 0 <= j < i ==> buf@[j] == mask_seq(old(buf)@, key@)[j],
            forall|j: int| i <= j < n ==> buf@[j] == old(buf)@[j],
        decreases n - i,
    {
        let b = buf[i];
        buf.set(i, b ^ key[i % 4]);
        i += 1;
    }
    assert(buf@ =~= mask_seq(old(buf)@, key@));
}

/// Bulk path: replicate the key to a 32-byte block and XOR whole chunks,
/// then finish any tail shorter than one chunk byte by byte. The chunk
/// width is a multiple of 4, so the key phase never drifts across chunks.
pub fn apply_mask_fast(buf: &mut Vec<u8>, key: [u8; 4])
    ensures
        final(buf)@ == mask_seq(old(buf)@, key@),
{
    let n = buf.len();
    let mut wide: [u8; 32] = [0u8; 32];
    let mut w: usize = 0;
    while w < 32
        invariant
            w <= 32,
            forall|j: int| 0 <= j < w ==> wide@[j] == key@[j % 4],
        decreases 32 - w,
    {
        wide[w] = key[w % 4];
        w += 1;
    }
    let mut i: usize = 0;
    while n - i >= 32
        invariant
            n == buf@.len() == old(buf)@.len(),
            i <= n,
            i % 4 == 0,
            forall|j: int| 0 <= j < 32 ==> wide@[j] == key@[j % 4],
            forall|j: int| 0 <= j < i ==> buf@[j] == mask_seq(old(buf)@, key@)[j],
            forall|j: int| i <= j < n ==> buf@[j] == old(buf)@[j],
        decreases n - i,
    {
        let mut c: usize = 0;
        while c < 32
            invariant
                n == buf@.len() == old(buf)@.len(),
                i + 32 <= n,
                i % 4 == 0,
                c <= 32,
                forall|j: int| 0 <= j < 32 ==> wide@[j] == key@[j % 4],
                forall|j: int| 0 <= j < i + c ==> buf@[j] == mask_seq(old(buf)@, key@)[j],
                forall|j: int| i + c <= j < n ==> buf@[j] == old(buf)@[j],
            decreases 32 - c,
        {
            let b = buf[i + c];
            buf.set(i + c, b ^ wide[c]);
            proof {
                let p: int = i + c;
                assert(p % 4 == c % 4) by (nonlinear_arith)
                    requires
                        p == i + c,
                        i % 4 == 0,
                        c >= 0,
                        i >= 0,
                ;
            }
            c += 1;
        }
        i += 32;
    }
    while i < n
        invariant
            n == buf@.len() == old(buf)@.len(),
            i <= n,
            forall|j: int| 0 <= j < i ==> buf@[j] == mask_seq(old(buf)@, key@)[j],
            forall|j: int| i <= j < n ==> buf@[j] == old(buf)@[j],
        decreases n - i,
    {
        let b = buf[i];
        buf.set(i, b ^ key[i % 4]);
        i += 1;
    }
    assert(buf@ =~= mask_seq(old(buf)@, key@));
}

/// One entry point for both directions and both paths: spans of at least
/// one chunk take the bulk path, shorter spans the scalar path. The two
/// paths carry the same postcondition, so the choice is unobservable.
pub fn unmask_in_place(buf: &mut Vec<u8>, key: [u8; 4])
    ensures
        final(buf)@ == mask_seq(old(buf)@, key@),
{
    if buf.len() >= 32 {
        apply_mask_fast(buf, key);
    } else {
        apply_mask_scalar(buf, key);
    }
}

} // verus!
