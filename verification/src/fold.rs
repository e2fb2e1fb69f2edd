//! Case folding of the buffer region a nested render just produced.
//!
//! Folding can change byte length, so the region is extracted, folded, and
//! the buffer's tail replaced, never overwritten byte-for-byte.

use crate::buffer::{bytes_as_str, Buffer};
use vstd::prelude::*;
use vstd::string::StringSliceAdditionalSpecFns;
use vstd::utf8::{decode_utf8, encode_utf8, encode_utf8_decode_utf8, valid_utf8};

verus! {

/// The lowercase form of a text, as `str::to_lowercase` computes it: a pure
/// function of the characters alone.
pub uninterp spec fn lower_of(s: Seq<char>) -> Seq<char>;

/// The uppercase form of a text, as `str::to_uppercase` computes it: a pure
/// function of the characters alone.
pub uninterp spec fn upper_of(s: Seq<char>) -> Seq<char>;

/// The byte encoding of the uppercase form of the text that `s` encodes.
pub open spec fn upper_bytes(s: Seq<u8>) -> Seq<u8> {
    encode_utf8(upper_of(decode_utf8(s)))
}

/// The byte encoding of the lowercase form of the text that `s` encodes.
pub open spec fn lower_bytes(s: Seq<u8>) -> Seq<u8> {
    encode_utf8(lower_of(decode_utf8(s)))
}

/// No character of the text is a lowercase ASCII letter.
pub open spec fn no_lower_ascii(cs: Seq<char>) -> bool {
    forall|i: int| 0 <= i < cs.len() ==> !('a' <= #[trigger] cs[i] <= 'z')
}

/// No character of the text is an uppercase ASCII letter.
pub open spec fn no_upper_ascii(cs: Seq<char>) -> bool {
    forall|i: int| 0 <= i < cs.len() ==> !('A' <= #[trigger] cs[i] <= 'Z')
}

/// Relies on str::to_uppercase: the result depends on the characters alone,
/// and Unicode uppercase mappings never yield a lowercase ASCII letter.
#[verifier::external_body]
fn to_upper(s: &str) -> (r: String)
    ensures
        r@ == upper_of(s@),
        no_lower_ascii(r@),
{
    s.to_uppercase()
}

/// Relies on str::to_lowercase: the result depends on the characters alone,
/// and Unicode lowercase mappings never yield an uppercase ASCII letter.
#[verifier::external_body]
fn to_lower(s: &str) -> (r: String)
    ensures
        r@ == lower_of(s@),
        no_upper_ascii(r@),
{
    s.to_lowercase()
}

/// Replace the buffer's tail `[old_len, len)` with its uppercase form.
pub fn fold_upper(b: &mut Buffer, old_len: usize)
    requires
        old(b).wf(),
        old_len <= old(b)@.len(),
        valid_utf8(old(b)@.subrange(0, old_len as int)),
        valid_utf8(old(b)@.skip(old_len as int)),
    ensures
        final(b).wf(),
        final(b)@ == old(b)@.subrange(0, old_len as int) + upper_bytes(
            old(b)@.skip(old_len as int),
        ),
        no_lower_ascii(decode_utf8(final(b)@.skip(old_len as int))),
{
    let ghost region = old(b)@.skip(old_len as int);
    let len = b.len();
    let piece = b.extract(old_len, len);
    proof {
        assert(piece@ =~= region);
    }
    let s = bytes_as_str(piece.as_slice());
    let folded = to_upper(s);
    b.set_len(old_len);
    b.push_str(folded.as_str());
    proof {
        // the borrowed region decodes to the characters the fold consumed
        encode_utf8_decode_utf8(s@);
        assert(decode_utf8(region) == s@);
        // and the replacement decodes to the folded characters
        encode_utf8_decode_utf8(folded@);
        assert(b@.skip(old_len as int) =~= encode_utf8(folded@));
    }
}

/// Replace the buffer's tail `[old_len, len)` with its lowercase form.
pub fn fold_lower(b: &mut Buffer, old_len: usize)
    requires
        old(b).wf(),
        old_len <= old(b)@.len(),
        valid_utf8(old(b)@.subrange(0, old_len as int)),
        valid_utf8(old(b)@.skip(old_len as int)),
    ensures
        final(b).wf(),
        final(b)@ == old(b)@.subrange(0, old_len as int) + lower_bytes(
            old(b)@.skip(old_len as int),
        ),
        no_upper_ascii(decode_utf8(final(b)@.skip(old_len as int))),
{
    let ghost region = old(b)@.skip(old_len as int);
    let len = b.len();
    let piece = b.extract(old_len, len);
    proof {
        assert(piece@ =~= region);
    }
    let s = bytes_as_str(piece.as_slice());
    let folded = to_lower(s);
    b.set_len(old_len);
    b.push_str(folded.as_str());
    proof {
        encode_utf8_decode_utf8(s@);
        assert(decode_utf8(region) == s@);
        encode_utf8_decode_utf8(folded@);
        assert(b@.skip(old_len as int) =~= encode_utf8(folded@));
    }
}

} // verus!
