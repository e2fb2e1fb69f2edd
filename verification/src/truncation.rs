//! Cutting an appended region down to a byte limit, at a character boundary,
//! with a fixed truncation marker.

use crate::buffer::Buffer;
use crate::error::RenderError;
use crate::escape::lemma_ascii_valid;
use crate::render::lemma_valid_prefix_boundary;
use vstd::prelude::*;
use vstd::utf8::{
    is_char_boundary, is_char_boundary_iff_not_is_continuation_byte, is_char_boundary_start_end_of_seq,
    is_continuation_byte, valid_utf8, valid_utf8_split,
};

verus! {

/// The fixed truncation marker `"..."`, as bytes.
pub open spec fn truncation_marker() -> Seq<u8> {
    seq![46u8, 46u8, 46u8]
}

/// The first character boundary of `s` at or after position `p`: continuation
/// bytes are skipped until a character start or the end of `s` is reached.
pub open spec fn cut_at(s: Seq<u8>, p: int) -> int
    decreases s.len() - p,
    when 0 <= p <= s.len()
{
    if p >= s.len() || !is_continuation_byte(s[p]) {
        p
    } else {
        cut_at(s, p + 1)
    }
}

/// The cut point is a character boundary at or after `p`, and a position that
/// already is a boundary is kept as it is.
pub proof fn lemma_cut_at_props(s: Seq<u8>, p: int)
    requires
        valid_utf8(s),
        0 <= p <= s.len(),
    ensures
        p <= cut_at(s, p) <= s.len(),
        is_char_boundary(s, cut_at(s, p)),
        is_char_boundary(s, p) ==> cut_at(s, p) == p,
    decreases s.len() - p,
{
    if p >= s.len() {
        is_char_boundary_start_end_of_seq(s);
    } else if !is_continuation_byte(s[p]) {
        is_char_boundary_iff_not_is_continuation_byte(s, p);
    } else {
        is_char_boundary_iff_not_is_continuation_byte(s, p);
        lemma_cut_at_props(s, p + 1);
    }
}

/// Scanning for the cut point is unaffected by a prefix before the region.
pub proof fn lemma_cut_at_shift(a: Seq<u8>, t: Seq<u8>, p: int)
    requires
        0 <= p <= t.len(),
    ensures
        cut_at(a + t, a.len() + p) == a.len() + cut_at(t, p),
    decreases t.len() - p,
{
    if p >= t.len() {
    } else {
        assert((a + t)[a.len() + p] == t[p]);
        if is_continuation_byte(t[p]) {
            lemma_cut_at_shift(a, t, p + 1);
        }
    }
}

/// The region `s` cut down to `limit` bytes: untouched when it fits, else cut
/// at the first character boundary at or after `limit` with the marker
/// appended.
pub open spec fn truncated(s: Seq<u8>, limit: int) -> Seq<u8> {
    if s.len() <= limit {
        s
    } else {
        s.subrange(0, cut_at(s, limit)) + truncation_marker()
    }
}

/// Law: truncation leaves a region at or under the limit untouched; a longer
/// region is cut at a character boundary — never inside a multi-byte
/// character — and gets the marker appended, and when the limit itself falls
/// on a character boundary the kept text is exactly `limit` bytes.
pub proof fn lemma_truncated_props(s: Seq<u8>, limit: int)
    requires
        valid_utf8(s),
        0 <= limit,
    ensures
        s.len() <= limit ==> truncated(s, limit) == s,
        s.len() > limit ==> truncated(s, limit) == s.subrange(0, cut_at(s, limit))
            + truncation_marker(),
        s.len() > limit ==> is_char_boundary(s, cut_at(s, limit)),
        s.len() > limit && is_char_boundary(s, limit) ==> truncated(s, limit).len() == limit + 3,
{
    if s.len() > limit {
        lemma_cut_at_props(s, limit);
    }
}

/// Post-process the region `[old_len, len)` that a nested render produced:
/// if it exceeds `limit` bytes, cut it at the first character boundary at or
/// after `old_len + limit`, shrink the buffer to the cut and append the
/// truncation marker. If the buffer is found shorter than `old_len` — the
/// nested render net-shrank it, an invariant violation — report an error and
/// leave the buffer as it is.
pub fn truncate_impl(b: &mut Buffer, old_len: usize, limit: usize) -> (r: Result<(), RenderError>)
    requires
        old(b).wf(),
        old_len <= old(b)@.len() ==> valid_utf8(old(b)@.subrange(0, old_len as int)),
    ensures
        final(b).wf(),
        r is Err <==> old(b)@.len() < old_len,
        r is Err ==> r->Err_0@ == "buffer size shrinked while rendering"@,
        old(b)@.len() < old_len ==> final(b)@ == old(b)@,
        old_len <= old(b)@.len() ==> final(b)@ == old(b)@.subrange(0, old_len as int) + truncated(
            old(b)@.skip(old_len as int),
            limit as int,
        ),
{
    let ghost whole = old(b)@;
    let ghost region = old(b)@.skip(old_len as int);
    let len = b.len();
    if len < old_len {
        return Err(RenderError::new("buffer size shrinked while rendering"));
    }
    proof {
        assert(whole.subrange(0, old_len as int) + region =~= whole);
        lemma_valid_prefix_boundary(whole.subrange(0, old_len as int), region);
    }
    if len - old_len > limit {
        let mut pos: usize = old_len + limit;
        while pos < len && b.byte_at(pos) >= 128 && b.byte_at(pos) <= 191
            invariant
                old_len + limit <= pos <= len,
                len == b@.len(),
                b@ == whole,
                cut_at(b@, old_len + limit) == cut_at(b@, pos as int),
            decreases len - pos,
        {
            pos = pos + 1;
        }
        proof {
            assert(cut_at(whole, pos as int) == pos);
            lemma_cut_at_props(whole, old_len + limit);
            valid_utf8_split(whole, pos as int);
        }
        b.set_len(pos);
        let mut marker: Vec<u8> = Vec::new();
        marker.push(46);
        marker.push(46);
        marker.push(46);
        proof {
            lemma_ascii_valid(marker@);
        }
        b.push_bytes(marker.as_slice());
        proof {
            lemma_cut_at_shift(whole.subrange(0, old_len as int), region, limit as int);
            assert(marker@ =~= truncation_marker());
            assert(whole.subrange(0, pos as int) =~= whole.subrange(0, old_len as int)
                + region.subrange(0, cut_at(region, limit as int)));
            assert(b@ =~= whole.subrange(0, old_len as int) + truncated(region, limit as int));
        }
        Ok(())
    } else {
        proof {
            assert(whole.subrange(0, old_len as int) + truncated(region, limit as int) =~= whole);
        }
        Ok(())
    }
}

} // verus!
