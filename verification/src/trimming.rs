//! Removing leading and trailing whitespace from the buffer region a nested
//! render just produced.
//!
//! The trimmed result is always a contiguous subrange of the original region,
//! so the region is rewritten by extracting the interior run and splicing it
//! back, shrinking the length — never growing it.

use crate::buffer::Buffer;
use crate::render::lemma_valid_prefix_boundary;
use vstd::prelude::*;
use vstd::utf8::{
    is_char_boundary_iff_not_is_continuation_byte, is_char_boundary_start_end_of_seq,
    is_continuation_byte, length_of_first_scalar, pop_first_scalar, valid_first_scalar, valid_utf8,
    valid_utf8_split,
};

verus! {

/// The length of the whitespace character at the front of `s`, or 0 when `s`
/// does not start with one. The byte patterns are the UTF-8 encodings of the
/// Unicode whitespace characters (the set `char::is_whitespace` accepts):
/// the ASCII ones, next-line and no-break space under the 0xC2 lead, the
/// ogham space mark, the typographic spaces and separators under 0xE2, and
/// the ideographic space.
pub open spec fn ws_head(s: Seq<u8>) -> int {
    if s.len() == 0 {
        0
    } else if s[0] == 0x09 || s[0] == 0x0A || s[0] == 0x0B || s[0] == 0x0C || s[0] == 0x0D || s[0]
        == 0x20 {
        1
    } else if s[0] == 0xC2 {
        if s.len() >= 2 && (s[1] == 0x85 || s[1] == 0xA0) {
            2
        } else {
            0
        }
    } else if s[0] == 0xE1 {
        if s.len() >= 3 && s[1] == 0x9A && s[2] == 0x80 {
            3
        } else {
            0
        }
    } else if s[0] == 0xE2 {
        if s.len() >= 3 && ((s[1] == 0x80 && (0x80 <= s[2] <= 0x8A || s[2] == 0xA8 || s[2] == 0xA9
            || s[2] == 0xAF)) || (s[1] == 0x81 && s[2] == 0x9F)) {
            3
        } else {
            0
        }
    } else if s[0] == 0xE3 {
        if s.len() >= 3 && s[1] == 0x80 && s[2] == 0x80 {
            3
        } else {
            0
        }
    } else {
        0
    }
}

/// The byte length a leading byte announces for its character.
pub open spec fn byte_width(b: u8) -> int {
    if b < 0xC0 {
        1
    } else if b < 0xE0 {
        2
    } else if b < 0xF0 {
        3
    } else {
        4
    }
}

/// The step to the next character start from the front of `s`, clamped to
/// the length of `s`; on valid UTF-8 it is the length of the first character.
pub open spec fn char_step(s: Seq<u8>) -> int
    recommends
        s.len() > 0,
{
    if byte_width(s[0]) <= s.len() {
        byte_width(s[0])
    } else {
        s.len() as int
    }
}

/// The length of the run of whitespace characters at the front of `s`.
pub open spec fn trim_start(s: Seq<u8>) -> int
    decreases s.len(),
{
    let l = ws_head(s);
    if 1 <= l <= s.len() {
        l + trim_start(s.skip(l))
    } else {
        0
    }
}

/// The position just after the last non-whitespace character of `s`
/// (0 when `s` is empty or all whitespace), scanning whole characters.
pub open spec fn trim_end(s: Seq<u8>) -> int
    decreases s.len(),
{
    if s.len() == 0 {
        0
    } else {
        let l = ws_head(s);
        if 1 <= l <= s.len() {
            let r = trim_end(s.skip(l));
            if r == 0 {
                0
            } else {
                l + r
            }
        } else {
            let c = if 1 <= char_step(s) <= s.len() {
                char_step(s)
            } else {
                1
            };
            c + trim_end(s.skip(c))
        }
    }
}

/// `s` without its leading and trailing whitespace.
pub open spec fn trimmed(s: Seq<u8>) -> Seq<u8> {
    if trim_end(s) <= trim_start(s) {
        Seq::empty()
    } else {
        s.subrange(trim_start(s), trim_end(s))
    }
}

/// Bounds of the two scan positions.
pub proof fn lemma_trim_bounds(s: Seq<u8>)
    ensures
        0 <= trim_start(s) <= s.len(),
        0 <= trim_end(s) <= s.len(),
    decreases s.len(),
{
    let l = ws_head(s);
    if s.len() == 0 {
    } else if 1 <= l <= s.len() {
        lemma_trim_bounds(s.skip(l));
    } else {
        let c = if 1 <= char_step(s) <= s.len() {
            char_step(s)
        } else {
            1
        };
        lemma_trim_bounds(s.skip(c));
    }
}

/// A whitespace pattern is never longer than the sequence it matched in.
pub proof fn lemma_ws_head_bound(s: Seq<u8>)
    ensures
        0 <= ws_head(s) <= s.len(),
{
}

/// On a valid sequence the whitespace pattern length is exactly the length
/// of the first character, so stepping over it lands on a character start.
pub proof fn lemma_ws_head_scalar(s: Seq<u8>)
    requires
        valid_utf8(s),
        ws_head(s) >= 1,
    ensures
        length_of_first_scalar(s) == ws_head(s),
        valid_utf8(s.skip(ws_head(s))),
{
    assert(valid_first_scalar(s));
    assert(pop_first_scalar(s) =~= s.skip(length_of_first_scalar(s)));
}

/// On a valid sequence the clamped step is exactly the length of the first
/// character, and stepping over it lands on a character start.
pub proof fn lemma_char_step_scalar(s: Seq<u8>)
    requires
        valid_utf8(s),
        s.len() > 0,
    ensures
        char_step(s) == length_of_first_scalar(s),
        1 <= char_step(s) <= s.len(),
        valid_utf8(s.skip(char_step(s))),
{
    assert(valid_first_scalar(s));
    assert(pop_first_scalar(s) =~= s.skip(length_of_first_scalar(s)));
}

/// A whitespace test only reads the matched bytes, so it gives the same
/// answer on any prefix long enough to hold the match, and a sequence that
/// starts with no whitespace has prefixes that start with none either.
pub proof fn lemma_ws_head_prefix(u: Seq<u8>, m: int)
    requires
        0 <= m <= u.len(),
    ensures
        ws_head(u) == 0 ==> ws_head(u.take(m)) == 0,
        ws_head(u.take(m)) >= 1 ==> ws_head(u.take(m)) == ws_head(u),
        ws_head(u) >= 1 && ws_head(u) <= m ==> ws_head(u.take(m)) == ws_head(u),
{
    if m > 0 {
        assert(u.take(m)[0] == u[0]);
        if m > 1 {
            assert(u.take(m)[1] == u[1]);
        }
        if m > 2 {
            assert(u.take(m)[2] == u[2]);
        }
    }
}

/// Cutting a sequence at its own trailing-scan position does not move that
/// position: the kept part already ends in a non-whitespace character.
pub proof fn lemma_trim_end_take(s: Seq<u8>)
    ensures
        trim_end(s.take(trim_end(s))) == trim_end(s),
    decreases s.len(),
{
    lemma_trim_bounds(s);
    let e = trim_end(s);
    let t = s.take(e);
    if s.len() == 0 {
        assert(t =~= s);
    } else {
        let l = ws_head(s);
        if 1 <= l <= s.len() {
            let r = trim_end(s.skip(l));
            if r == 0 {
                assert(e == 0);
                assert(t =~= Seq::<u8>::empty());
            } else {
                assert(e == l + r);
                lemma_trim_bounds(s.skip(l));
                lemma_ws_head_prefix(s, e);
                assert(ws_head(t) == l);
                assert(t.skip(l) =~= s.skip(l).take(r));
                lemma_trim_end_take(s.skip(l));
                assert(trim_end(t.skip(l)) == r);
            }
        } else {
            let c = if 1 <= char_step(s) <= s.len() {
                char_step(s)
            } else {
                1
            };
            let r = trim_end(s.skip(c));
            assert(e == c + r);
            lemma_trim_bounds(s.skip(c));
            lemma_ws_head_prefix(s, e);
            assert(ws_head(t) == 0);
            assert(t[0] == s[0]);
            assert(char_step(t) == c);
            if r == 0 {
                assert(t.len() == c);
                assert(t.skip(c) =~= Seq::<u8>::empty());
                assert(trim_end(t.skip(c)) == 0);
                assert(trim_end(t) == c + trim_end(t.skip(c)));
            } else {
                assert(t.skip(c) =~= s.skip(c).take(r));
                lemma_trim_end_take(s.skip(c));
                assert(trim_end(t.skip(c)) == r);
                assert(trim_end(t) == c + trim_end(t.skip(c)));
            }
        }
    }
}

/// Skipping the leading whitespace run moves the trailing-scan position by
/// exactly that run, as long as some content remains.
pub proof fn lemma_trim_end_skip(s: Seq<u8>)
    requires
        trim_end(s) > trim_start(s),
    ensures
        trim_end(s.skip(trim_start(s))) == trim_end(s) - trim_start(s),
    decreases s.len(),
{
    lemma_trim_bounds(s);
    let lo = trim_start(s);
    let l = ws_head(s);
    if !(1 <= l <= s.len()) {
        assert(lo == 0);
        assert(s.skip(0) =~= s);
    } else {
        let r = trim_end(s.skip(l));
        assert(r != 0);
        assert(trim_end(s) == l + r);
        assert(lo == l + trim_start(s.skip(l)));
        lemma_trim_bounds(s.skip(l));
        lemma_trim_end_skip(s.skip(l));
        assert(s.skip(l).skip(lo - l) =~= s.skip(lo));
    }
}

/// A region whose scans already sit at its two ends is left unchanged.
pub proof fn lemma_trimmed_fixed(s: Seq<u8>)
    requires
        trim_start(s) == 0,
        trim_end(s) == s.len(),
    ensures
        trimmed(s) == s,
{
    if s.len() == 0 {
        assert(trimmed(s) =~= s);
    } else {
        assert(trimmed(s) =~= s.subrange(0, s.len() as int));
        assert(s.subrange(0, s.len() as int) =~= s);
    }
}

/// Trimming is idempotent: trimming an already trimmed region changes
/// nothing, whatever the input text was.
pub proof fn lemma_trim_idempotent(s: Seq<u8>)
    ensures
        trimmed(trimmed(s)) == trimmed(s),
{
    lemma_trim_bounds(s);
    let lo = trim_start(s);
    let hi = trim_end(s);
    if hi <= lo {
        assert(trimmed(s) =~= Seq::<u8>::empty());
        assert(ws_head(Seq::<u8>::empty()) == 0);
        assert(trim_start(Seq::<u8>::empty()) == 0);
        assert(trim_end(Seq::<u8>::empty()) == 0);
        assert(trimmed(Seq::<u8>::empty()) =~= Seq::<u8>::empty());
    } else {
        let t = s.subrange(lo, hi);
        assert(t =~= s.skip(lo).take(hi - lo));
        lemma_trim_bounds(s.skip(lo));
        // no leading whitespace is left in front
        assert(ws_head(s.skip(lo)) == 0) by {
            lemma_trim_start_rest(s);
        }
        lemma_ws_head_prefix(s.skip(lo), hi - lo);
        assert(ws_head(t) == 0);
        assert(trim_start(t) == 0);
        // and the kept part still ends at its own trailing scan
        lemma_trim_end_skip(s);
        assert(trim_end(s.skip(lo)) == hi - lo);
        lemma_trim_end_take(s.skip(lo));
        assert(trim_end(t) == hi - lo);
        lemma_trimmed_fixed(t);
    }
}

/// After the leading run no whitespace character follows directly.
pub proof fn lemma_trim_start_rest(s: Seq<u8>)
    ensures
        ws_head(s.skip(trim_start(s))) == 0,
    decreases s.len(),
{
    let l = ws_head(s);
    if 1 <= l <= s.len() {
        lemma_trim_start_rest(s.skip(l));
        lemma_trim_bounds(s.skip(l));
        assert(s.skip(l).skip(trim_start(s.skip(l))) =~= s.skip(trim_start(s)));
    } else {
        assert(s.skip(0) =~= s);
    }
}

/// The length of the whitespace character starting at position `i`, or 0.
fn ws_at(b: &Buffer, i: usize) -> (l: usize)
    requires
        i <= b@.len(),
    ensures
        l == ws_head(b@.skip(i as int)),
{
    let n = b.len();
    if i >= n {
        return 0;
    }
    let c0 = b.byte_at(i);
    if c0 == 0x09 || c0 == 0x0A || c0 == 0x0B || c0 == 0x0C || c0 == 0x0D || c0 == 0x20 {
        1
    } else if c0 == 0xC2 {
        if n - i >= 2 {
            let c1 = b.byte_at(i + 1);
            if c1 == 0x85 || c1 == 0xA0 {
                2
            } else {
                0
            }
        } else {
            0
        }
    } else if c0 == 0xE1 {
        if n - i >= 3 {
            let c1 = b.byte_at(i + 1);
            let c2 = b.byte_at(i + 2);
            if c1 == 0x9A && c2 == 0x80 {
                3
            } else {
                0
            }
        } else {
            0
        }
    } else if c0 == 0xE2 {
        if n - i >= 3 {
            let c1 = b.byte_at(i + 1);
            let c2 = b.byte_at(i + 2);
            if (c1 == 0x80 && (128 <= c2 && c2 <= 138 || c2 == 0xA8 || c2 == 0xA9 || c2 == 0xAF))
                || (c1 == 0x81 && c2 == 0x9F) {
                3
            } else {
                0
            }
        } else {
            0
        }
    } else if c0 == 0xE3 {
        if n - i >= 3 {
            let c1 = b.byte_at(i + 1);
            let c2 = b.byte_at(i + 2);
            if c1 == 0x80 && c2 == 0x80 {
                3
            } else {
                0
            }
        } else {
            0
        }
    } else {
        0
    }
}

/// The clamped step to the next character start from position `i`.
fn step_at(b: &Buffer, i: usize) -> (c: usize)
    requires
        i < b@.len(),
    ensures
        c == char_step(b@.skip(i as int)),
{
    let c0 = b.byte_at(i);
    let w: usize = if c0 < 0xC0 {
        1
    } else if c0 < 0xE0 {
        2
    } else if c0 < 0xF0 {
        3
    } else {
        4
    };
    let n = b.len();
    if w <= n - i {
        w
    } else {
        n - i
    }
}

/// Remove leading and trailing whitespace from the region `[old_len, len)`
/// that a nested render produced, shifting the kept run down to `old_len`
/// and shrinking the buffer.
pub fn trim_impl(b: &mut Buffer, old_len: usize)
    requires
        old(b).wf(),
        old_len <= old(b)@.len(),
        valid_utf8(old(b)@.subrange(0, old_len as int)),
    ensures
        final(b).wf(),
        final(b)@ == old(b)@.subrange(0, old_len as int) + trimmed(old(b)@.skip(old_len as int)),
{
    let ghost whole = old(b)@;
    let ghost region = whole.skip(old_len as int);
    proof {
        assert(whole.subrange(0, old_len as int) + region =~= whole);
        lemma_valid_prefix_boundary(whole.subrange(0, old_len as int), region);
        assert(region.skip(0) =~= region);
    }
    let len = b.len();

    // scan the leading whitespace run
    let mut i: usize = old_len;
    let mut l = ws_at(b, i);
    while l > 0
        invariant
            old_len <= i <= len,
            len == b@.len(),
            b@ == whole,
            region == whole.skip(old_len as int),
            valid_utf8(region),
            valid_utf8(region.skip(i - old_len)),
            l == ws_head(region.skip(i - old_len)),
            trim_start(region) == (i - old_len) + trim_start(region.skip(i - old_len)),
            trim_end(region) == (if trim_end(region.skip(i - old_len)) == 0 {
                0int
            } else {
                (i - old_len) + trim_end(region.skip(i - old_len))
            }),
        decreases len - i,
    {
        proof {
            let t = region.skip(i - old_len);
            lemma_ws_head_bound(t);
            lemma_ws_head_scalar(t);
            assert(t.skip(l as int) =~= region.skip(i + l - old_len));
            let r = trim_end(region.skip(i + l - old_len));
            lemma_trim_bounds(region.skip(i + l - old_len));
            assert(trim_end(t.skip(l as int)) == r);
            assert(trim_end(t) == (if r == 0 {
                0int
            } else {
                l + r
            }));
            if r == 0 {
                assert(trim_end(region) == 0);
            } else {
                assert(trim_end(region) == (i - old_len) + trim_end(t));
                assert(trim_end(region) == (i + l - old_len) + r);
            }
            assert(trim_start(t) == l + trim_start(t.skip(l as int)));
            assert(trim_start(region) == (i + l - old_len) + trim_start(
                region.skip(i + l - old_len),
            ));
        }
        i = i + l;
        l = ws_at(b, i);
        proof {
            assert(region.skip(i - old_len) =~= b@.skip(i as int));
        }
    }
    proof {
        assert(trim_start(region) == i - old_len);
    }

    // scan the rest, remembering the end of the last non-whitespace character
    let mut j: usize = i;
    let mut hi: usize = old_len;
    while j < len
        invariant
            old_len <= i <= j <= len,
            len == b@.len(),
            b@ == whole,
            region == whole.skip(old_len as int),
            valid_utf8(region),
            valid_utf8(region.skip(j - old_len)),
            valid_utf8(region.skip(hi - old_len)),
            old_len <= hi <= j,
            trim_end(region) == (if trim_end(region.skip(j - old_len)) == 0 {
                hi - old_len
            } else {
                (j - old_len) + trim_end(region.skip(j - old_len))
            }),
        decreases len - j,
    {
        let ghost t = region.skip(j - old_len);
        proof {
            assert(t =~= b@.skip(j as int));
        }
        let lw = ws_at(b, j);
        if lw > 0 {
            proof {
                lemma_ws_head_bound(t);
                lemma_ws_head_scalar(t);
                assert(t.skip(lw as int) =~= region.skip(j + lw - old_len));
                let r = trim_end(region.skip(j + lw - old_len));
                lemma_trim_bounds(region.skip(j + lw - old_len));
                assert(trim_end(t.skip(lw as int)) == r);
                assert(trim_end(t) == (if r == 0 {
                    0int
                } else {
                    lw + r
                }));
                if r == 0 {
                    assert(trim_end(t) == 0);
                } else {
                    assert(trim_end(region) == (j - old_len) + trim_end(t));
                    assert(trim_end(region) == (j + lw - old_len) + r);
                }
            }
            j = j + lw;
        } else {
            let c = step_at(b, j);
            proof {
                lemma_char_step_scalar(t);
                assert(t.skip(c as int) =~= region.skip(j + c - old_len));
                let r = trim_end(region.skip(j + c - old_len));
                lemma_trim_bounds(region.skip(j + c - old_len));
                assert(trim_end(t.skip(c as int)) == r);
                assert(trim_end(t) == c + r);
                assert(trim_end(t) > 0);
                assert(trim_end(region) == (j - old_len) + trim_end(t));
                if r == 0 {
                    assert(trim_end(region) == (j + c) - old_len);
                } else {
                    assert(trim_end(region) == (j + c - old_len) + r);
                }
            }
            j = j + c;
            hi = j;
        }
    }
    proof {
        assert(region.skip(len - old_len) =~= Seq::<u8>::empty());
        assert(trim_end(region) == hi - old_len);
    }

    // splice the kept run `[i, hi)` back at `old_len`
    if hi <= i {
        proof {
            assert(trimmed(region) =~= Seq::<u8>::empty());
            assert(whole.subrange(0, old_len as int) + trimmed(region) =~= whole.subrange(
                0,
                old_len as int,
            ));
        }
        b.set_len(old_len);
    } else {
        let piece = b.extract(i, hi);
        proof {
            let u = region.skip(i - old_len);
            let m = hi - i;
            if m < u.len() {
                assert(u.skip(m) =~= region.skip(hi - old_len));
                assert(!is_continuation_byte(u[m])) by {
                    assert(u[m] == region.skip(hi - old_len)[0]);
                    assert(valid_first_scalar(region.skip(hi - old_len)));
                }
                is_char_boundary_iff_not_is_continuation_byte(u, m);
            } else {
                is_char_boundary_start_end_of_seq(u);
            }
            valid_utf8_split(u, m);
            assert(u.subrange(0, m) =~= piece@);
            assert(piece@ =~= trimmed(region));
        }
        b.set_len(old_len);
        b.push_bytes(piece.as_slice());
    }
}

} // verus!
