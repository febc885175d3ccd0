//! The 64-bit FNV-1a hash, used to derive directory names and to tell code
//! lenses apart; it serves no cryptographic purpose.

use vstd::prelude::*;

verus! {

/// The hash of no bytes at all.
pub const FNV_BASIS: u64 = 0xcbf2_9ce4_8422_2325;

/// What the hash is multiplied by after each byte.
pub const FNV_PRIME: u64 = 0x100_0000_01b3;

/// The FNV-1a hash: each byte in turn is mixed in with exclusive or and the
/// result multiplied by the prime, modulo two to the power of sixty-four.
pub open spec fn fnv(bytes: Seq<u8>) -> u64
    decreases bytes.len(),
{
    if bytes.len() == 0 {
        FNV_BASIS
    } else {
        (((fnv(bytes.drop_last()) ^ (bytes.last() as u64)) * FNV_PRIME) % 0x1_0000_0000_0000_0000) as u64
    }
}

/// The FNV-1a hash of some bytes.
pub fn fnv1a(bytes: &[u8]) -> (r: u64)
    ensures
        r == fnv(bytes@),
{
    let mut h: u64 = FNV_BASIS;
    let mut i: usize = 0;
    assert(bytes@.take(0) =~= seq![]);
    while i < bytes.len()
        invariant
            i <= bytes@.len(),
            h == fnv(bytes@.take(i as int)),
        decreases bytes@.len() - i,
    {
        assert(bytes@.take(i + 1).drop_last() =~= bytes@.take(i as int));
        let mixed: u64 = h ^ (bytes[i] as u64);
        h = mixed.wrapping_mul(FNV_PRIME);
        i = i + 1;
    }
    assert(bytes@.take(i as int) =~= bytes@);
    h
}

/// The FNV-1a hash of a text, taken over its UTF-8 bytes.
pub open spec fn text_hash(s: Seq<char>) -> u64 {
    fnv(vstd::utf8::encode_utf8(s))
}

/// The FNV-1a hash of a text.
pub fn hash_text(s: &str) -> (r: u64)
    ensures
        r == text_hash(s@),
{
    fnv1a(s.as_bytes())
}

}
