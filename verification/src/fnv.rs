//! The FNV-1a hash of a text.

use vstd::prelude::*;
use vstd::string::StringSliceAdditionalSpecFns;
use vstd::utf8::encode_utf8;

verus! {

/// Where the hash begins.
pub const FNV_OFFSET: u64 = 14695981039346656037;

/// What every step multiplies by.
pub const FNV_PRIME: u64 = 1099511628211;

/// The hash of a sequence of bytes: each byte is mixed in by exclusive or, and
/// the result multiplied by the prime, modulo two to the sixty-four.
pub open spec fn fnv1a(bytes: Seq<u8>) -> u64
    decreases bytes.len(),
{
    if bytes.len() == 0 {
        FNV_OFFSET
    } else {
        (fnv1a(bytes.drop_last()) ^ (bytes.last() as u64)).wrapping_mul(FNV_PRIME)
    }
}

/// The hash of a text, over its UTF-8 bytes.
pub open spec fn text_hash(text: Seq<char>) -> u64 {
    fnv1a(encode_utf8(text))
}

/// Hashes a text over its UTF-8 bytes.
pub fn hash_text(text: &str) -> (r: u64)
    ensures
        r == text_hash(text@),
{
    let bytes = text.as_bytes();
    let mut h: u64 = FNV_OFFSET;
    let mut i: usize = 0;
    while i < bytes.len()
        invariant
            i <= bytes@.len(),
            h == fnv1a(bytes@.take(i as int)),
        decreases bytes@.len() - i,
    {
        proof {
            assert(bytes@.take(i + 1).drop_last() =~= bytes@.take(i as int));
        }
        h = (h ^ (bytes[i] as u64)).wrapping_mul(FNV_PRIME);
        i = i + 1;
    }
    proof {
        assert(bytes@.take(i as int) =~= bytes@);
    }
    h
}

/// The hash of nothing is the offset of the sixty-four bit FNV-1a hash, and one more
/// byte is mixed into the low bits before the product with its prime.
pub proof fn a_byte_is_mixed_in_before_the_product(bytes: Seq<u8>, b: u8)
    ensures
        fnv1a(Seq::empty()) == 0xcbf2_9ce4_8422_2325,
        fnv1a(bytes.push(b)) == (fnv1a(bytes) ^ (b as u64)).wrapping_mul(0x100_0000_01b3),
{
    assert(bytes.push(b).drop_last() =~= bytes);
}

} // verus!
