//! Markup escaping: substitution of the five reserved characters with their
//! safe textual equivalents while copying text into a buffer.

use crate::buffer::Buffer;
use vstd::prelude::*;
use vstd::string::StringSliceAdditionalSpecFns;
use vstd::utf8::{
    encode_utf8, encode_utf8_valid_utf8, is_char_boundary, length_of_first_scalar,
    partial_valid_utf8, partial_valid_utf8_extend_ascii_block, pop_first_scalar, valid_first_scalar,
    valid_utf8, valid_utf8_concat, valid_utf8_split,
};

verus! {

/// The markup-safe replacement of one byte: each of the five reserved
/// characters `&` `<` `>` `"` `'` (all ASCII, so each is a single byte) maps
/// to its entity; every other byte passes through unchanged.
pub open spec fn escape_byte(b: u8) -> Seq<u8> {
    if b == 38 {  // '&'  ->  "&amp;"
        seq![38u8, 97u8, 109u8, 112u8, 59u8]
    } else if b == 60 {  // '<'  ->  "&lt;"
        seq![38u8, 108u8, 116u8, 59u8]
    } else if b == 62 {  // '>'  ->  "&gt;"
        seq![38u8, 103u8, 116u8, 59u8]
    } else if b == 34 {  // '"'  ->  "&quot;"
        seq![38u8, 113u8, 117u8, 111u8, 116u8, 59u8]
    } else if b == 39 {  // '\''  ->  "&#39;"
        seq![38u8, 35u8, 51u8, 57u8, 59u8]
    } else {
        seq![b]
    }
}

/// The markup-safe form of a byte sequence: exactly the five reserved
/// characters are replaced, everything else is kept as it is. Continuation
/// bytes of multi-byte characters are all at least 0x80, so substituting at
/// the byte level never touches the interior of a multi-byte character.
pub open spec fn escaped(s: Seq<u8>) -> Seq<u8>
    decreases s.len(),
{
    if s.len() == 0 {
        Seq::empty()
    } else {
        escape_byte(s[0]) + escaped(s.skip(1))
    }
}

/// Escaping distributes over concatenation.
pub proof fn lemma_escaped_concat(a: Seq<u8>, b: Seq<u8>)
    ensures
        escaped(a + b) == escaped(a) + escaped(b),
    decreases a.len(),
{
    if a.len() == 0 {
        assert(a + b =~= b);
        assert(escaped(a) + escaped(b) =~= escaped(b));
    } else {
        lemma_escaped_concat(a.skip(1), b);
        assert((a + b).skip(1) =~= a.skip(1) + b);
        assert(escape_byte(a[0]) + (escaped(a.skip(1)) + escaped(b)) =~= (escape_byte(a[0])
            + escaped(a.skip(1))) + escaped(b));
    }
}

/// Escaping a single byte is that byte's replacement.
pub proof fn lemma_escaped_single(x: u8)
    ensures
        escaped(seq![x]) == escape_byte(x),
{
    let s = seq![x];
    assert(s.skip(1) =~= Seq::<u8>::empty());
    assert(escaped(s.skip(1)) =~= Seq::<u8>::empty());
    assert(s[0] == x);
    assert(escaped(s) =~= escape_byte(x) + escaped(s.skip(1)));
    assert(escape_byte(x) + Seq::<u8>::empty() =~= escape_byte(x));
}

/// Escaping one more byte extends the escaped output by that byte's
/// replacement.
pub proof fn lemma_escaped_push(s: Seq<u8>, x: u8)
    ensures
        escaped(s.push(x)) == escaped(s) + escape_byte(x),
{
    lemma_escaped_concat(s, seq![x]);
    assert(s.push(x) =~= s + seq![x]);
    lemma_escaped_single(x);
}

/// A sequence of ASCII bytes is valid UTF-8.
pub proof fn lemma_ascii_valid(s: Seq<u8>)
    requires
        forall|i: int| 0 <= i < s.len() ==> s[i] < 0x80,
    ensures
        valid_utf8(s),
{
    assert(s.subrange(0, 0) =~= Seq::<u8>::empty());
    assert(partial_valid_utf8(s, 0));
    partial_valid_utf8_extend_ascii_block(s, 0, s.len() as int);
    assert(s.subrange(0, s.len() as int) =~= s);
}

/// A sequence without reserved bytes escapes to itself.
pub proof fn lemma_escaped_id(s: Seq<u8>)
    requires
        forall|i: int|
            0 <= i < s.len() ==> s[i] != 38 && s[i] != 60 && s[i] != 62 && s[i] != 34 && s[i] != 39,
    ensures
        escaped(s) == s,
    decreases s.len(),
{
    if s.len() == 0 {
    } else {
        lemma_escaped_id(s.skip(1));
        assert(escape_byte(s[0]) =~= seq![s[0]]);
        assert(seq![s[0]] + s.skip(1) =~= s);
    }
}

/// The escaped form is markup-safe: whatever the input, no tag bracket and
/// no quote byte survives into it (an ampersand only remains as the head of
/// an entity).
pub proof fn lemma_escaped_markup_safe(s: Seq<u8>)
    ensures
        forall|i: int|
            0 <= i < escaped(s).len() ==> #[trigger] escaped(s)[i] != 60 && escaped(s)[i] != 62
                && escaped(s)[i] != 34 && escaped(s)[i] != 39,
    decreases s.len(),
{
    if s.len() == 0 {
    } else {
        lemma_escaped_markup_safe(s.skip(1));
        let eb = escape_byte(s[0]);
        assert(forall|i: int|
            0 <= i < eb.len() ==> #[trigger] eb[i] != 60 && eb[i] != 62 && eb[i] != 34 && eb[i]
                != 39);
        assert(forall|i: int|
            0 <= i < escaped(s).len() ==> #[trigger] escaped(s)[i] == if i < eb.len() {
                eb[i]
            } else {
                escaped(s.skip(1))[i - eb.len()]
            });
    }
}

/// Escaping a valid UTF-8 sequence yields a valid UTF-8 sequence.
pub proof fn lemma_escaped_valid(s: Seq<u8>)
    requires
        valid_utf8(s),
    ensures
        valid_utf8(escaped(s)),
    decreases s.len(),
{
    if s.len() == 0 {
    } else {
        let l = length_of_first_scalar(s);
        assert(valid_first_scalar(s));
        assert(1 <= l && l <= s.len());
        let head = s.subrange(0, l);
        let tail = pop_first_scalar(s);
        assert(valid_utf8(tail));
        assert(is_char_boundary(s, l)) by {
            reveal_with_fuel(is_char_boundary, 2);
        }
        valid_utf8_split(s, l);
        assert(valid_utf8(head));
        lemma_escaped_valid(tail);
        assert(s =~= head + tail);
        lemma_escaped_concat(head, tail);
        if l == 1 {
            assert(head =~= seq![s[0]]);
            assert(s[0] < 0x80);
            assert(forall|i: int| 0 <= i < escape_byte(s[0]).len() ==> escape_byte(s[0])[i] < 0x80);
            lemma_ascii_valid(escape_byte(s[0]));
            lemma_escaped_single(s[0]);
            assert(escaped(head) =~= escape_byte(s[0]));
        } else {
            assert(forall|i: int| 0 <= i < head.len() ==> head[i] >= 0x80);
            lemma_escaped_id(head);
        }
        valid_utf8_concat(escaped(head), escaped(tail));
        assert(escaped(s) =~= escaped(head) + escaped(tail));
    }
}

/// Append the markup-safe form of raw bytes that are themselves valid UTF-8.
pub fn escape_bytes_to_buf(piece: &[u8], b: &mut Buffer)
    requires
        old(b).wf(),
        valid_utf8(piece@),
    ensures
        final(b)@ == old(b)@ + escaped(piece@),
        final(b).wf(),
{
    let n = piece.len();
    let mut out: Vec<u8> = Vec::new();
    let mut i: usize = 0;
    while i < n
        invariant
            i <= n,
            n == piece@.len(),
            out@ == escaped(piece@.subrange(0, i as int)),
        decreases n - i,
    {
        let c = piece[i];
        if c == 38 {
            out.push(38);
            out.push(97);
            out.push(109);
            out.push(112);
            out.push(59);
        } else if c == 60 {
            out.push(38);
            out.push(108);
            out.push(116);
            out.push(59);
        } else if c == 62 {
            out.push(38);
            out.push(103);
            out.push(116);
            out.push(59);
        } else if c == 34 {
            out.push(38);
            out.push(113);
            out.push(117);
            out.push(111);
            out.push(116);
            out.push(59);
        } else if c == 39 {
            out.push(38);
            out.push(35);
            out.push(51);
            out.push(57);
            out.push(59);
        } else {
            out.push(c);
        }
        proof {
            assert(piece@.subrange(0, i + 1) =~= piece@.subrange(0, i as int).push(
                piece@[i as int],
            ));
            lemma_escaped_push(piece@.subrange(0, i as int), piece@[i as int]);
            assert(out@ =~= escaped(piece@.subrange(0, i as int)) + escape_byte(piece@[i as int]));
        }
        i = i + 1;
    }
    proof {
        assert(piece@.subrange(0, n as int) =~= piece@);
        lemma_escaped_valid(piece@);
    }
    b.push_bytes(out.as_slice());
}

/// Copy `s` into the buffer, replacing exactly the five reserved characters
/// with their entities.
pub fn escape_to_buf(s: &str, b: &mut Buffer)
    requires
        old(b).wf(),
    ensures
        final(b)@ == old(b)@ + escaped(encode_utf8(s@)),
        final(b).wf(),
{
    let bs = s.as_bytes();
    proof {
        encode_utf8_valid_utf8(s@);
    }
    escape_bytes_to_buf(bs, b);
}

} // verus!
