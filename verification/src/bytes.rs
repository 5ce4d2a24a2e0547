use vstd::prelude::*;

verus! {

/// The little-endian byte sequence of a 32-bit word.
pub open spec fn word_le_bytes(w: u32) -> Seq<u8> {
    seq![
        (w & 0xff) as u8,
        ((w >> 8) & 0xff) as u8,
        ((w >> 16) & 0xff) as u8,
        ((w >> 24) & 0xff) as u8,
    ]
}

/// The big-endian byte sequence of a 32-bit word.
pub open spec fn word_be_bytes(w: u32) -> Seq<u8> {
    seq![
        ((w >> 24) & 0xff) as u8,
        ((w >> 16) & 0xff) as u8,
        ((w >> 8) & 0xff) as u8,
        (w & 0xff) as u8,
    ]
}

/// A chunk copied out of a word: a prefix of the word's native in-memory
/// representation, which on any one target is either the little-endian or
/// the big-endian sequence.  No endianness normalization is performed, so
/// callers on targets of different byte order observe different byte
/// sequences for the same word.
pub open spec fn chunk_matches(w: u32, chunk: Seq<u8>) -> bool {
    ||| chunk == word_le_bytes(w).take(chunk.len() as int)
    ||| chunk == word_be_bytes(w).take(chunk.len() as int)
}

/// Relies on u32::to_ne_bytes: it returns the word's memory representation
/// in native byte order, which is its little-endian or its big-endian byte
/// sequence according to the target.
#[verifier::external_body]
pub(crate) fn word_native_bytes(w: u32) -> (r: Vec<u8>)
    ensures
        r@.len() == 4,
        r@ == word_le_bytes(w) || r@ == word_be_bytes(w),
{
    w.to_ne_bytes().to_vec()
}

} // verus!
