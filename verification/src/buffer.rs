//! The single growable, append-only text store that one render call
//! accumulates its output into.

use vstd::prelude::*;
use vstd::string::StringSliceAdditionalSpecFns;
use vstd::utf8::{encode_utf8, valid_utf8, valid_utf8_concat};

verus! {

/// Relies on str::from_utf8: on valid UTF-8 input it returns `Ok` of the
/// borrowed text whose byte encoding is exactly the input bytes.
#[verifier::external_body]
pub(crate) fn bytes_as_str(v: &[u8]) -> (r: &str)
    requires
        valid_utf8(v@),
    ensures
        r.spec_bytes() == v@,
{
    core::str::from_utf8(v).unwrap_or("")
}

/// Relies on String::from_utf8: on valid UTF-8 input it returns `Ok` of the
/// owned text whose byte encoding is exactly the input bytes.
#[verifier::external_body]
fn bytes_into_string(v: Vec<u8>) -> (r: String)
    requires
        valid_utf8(v@),
    ensures
        encode_utf8(r@) == v@,
{
    String::from_utf8(v).unwrap_or_default()
}

/// A contiguous, exclusively-owned, growable byte store whose contents are
/// always a valid UTF-8 encoding when observed from outside this module.
///
/// It is created once per top-level render call and passed by exclusive
/// mutable reference through every nested render; growth is geometric
/// (inherited from `Vec`), so accumulating output costs time proportional
/// to the total output size.
pub struct Buffer {
    data: Vec<u8>,
}

impl View for Buffer {
    type V = Seq<u8>;

    closed spec fn view(&self) -> Seq<u8> {
        self.data@
    }
}

impl Buffer {
    /// The buffer invariant: the byte range `[0, len)` is valid UTF-8, never
    /// cut in the middle of a character's encoding. Operations may break it
    /// internally but must restore it before returning.
    pub open spec fn wf(&self) -> bool {
        valid_utf8(self@)
    }

    /// An empty buffer.
    pub fn new() -> (r: Buffer)
        ensures
            r@ == Seq::<u8>::empty(),
            r.wf(),
    {
        Buffer { data: Vec::new() }
    }

    /// An empty buffer with storage reserved ahead of time.
    pub fn with_capacity(n: usize) -> (r: Buffer)
        ensures
            r@ == Seq::<u8>::empty(),
            r.wf(),
    {
        Buffer { data: Vec::with_capacity(n) }
    }

    /// Current length in bytes.
    pub fn len(&self) -> (r: usize)
        ensures
            r == self@.len(),
    {
        self.data.len()
    }

    /// Relies on Vec::capacity: the allocated capacity is at least the length.
    #[verifier::external_body]
    pub fn capacity(&self) -> (r: usize)
        ensures
            self@.len() <= r,
    {
        self.data.capacity()
    }

    /// The byte at position `i`.
    pub fn byte_at(&self, i: usize) -> (r: u8)
        requires
            i < self@.len(),
        ensures
            r == self@[i as int],
    {
        self.data[i]
    }

    /// Borrowed view of the accumulated text.
    pub fn as_str(&self) -> (r: &str)
        requires
            self.wf(),
        ensures
            r.spec_bytes() == self@,
    {
        bytes_as_str(self.data.as_slice())
    }

    /// Append the UTF-8 encoding of `s`.
    pub fn push_str(&mut self, s: &str)
        requires
            old(self).wf(),
        ensures
            final(self)@ == old(self)@ + encode_utf8(s@),
            final(self).wf(),
    {
        let bs = s.as_bytes();
        proof {
            vstd::utf8::encode_utf8_valid_utf8(s@);
        }
        self.push_bytes(bs);
    }

    /// Append raw bytes that are themselves a valid UTF-8 encoding.
    pub fn push_bytes(&mut self, piece: &[u8])
        requires
            old(self).wf(),
            valid_utf8(piece@),
        ensures
            final(self)@ == old(self)@ + piece@,
            final(self).wf(),
    {
        let ghost pre = self.data@;
        let n = piece.len();
        let mut i: usize = 0;
        while i < n
            invariant
                i <= n,
                n == piece@.len(),
                self.data@ == pre + piece@.subrange(0, i as int),
            decreases n - i,
        {
            self.data.push(piece[i]);
            proof {
                assert(pre + piece@.subrange(0, i + 1) =~= (pre + piece@.subrange(
                    0,
                    i as int,
                )).push(piece@[i as int]));
            }
            i = i + 1;
        }
        proof {
            assert(self.data@ =~= pre + piece@);
            valid_utf8_concat(pre, piece@);
        }
    }

    /// Shrink the length to `n`.
    ///
    /// This is the narrow "set length" operation that filters rely on after
    /// rewriting the tail they produced: the caller must have independently
    /// proved that the first `n` bytes are still a valid encoding.
    pub fn set_len(&mut self, n: usize)
        requires
            old(self).wf(),
            n <= old(self)@.len(),
            valid_utf8(old(self)@.subrange(0, n as int)),
        ensures
            final(self)@ == old(self)@.subrange(0, n as int),
            final(self).wf(),
    {
        self.data.truncate(n);
    }

    /// Copy out the byte range `[from, to)`.
    pub fn extract(&self, from: usize, to: usize) -> (r: Vec<u8>)
        requires
            from <= to <= self@.len(),
        ensures
            r@ == self@.subrange(from as int, to as int),
    {
        let mut out: Vec<u8> = Vec::new();
        let mut i: usize = from;
        while i < to
            invariant
                from <= i <= to <= self@.len(),
                out@ == self@.subrange(from as int, i as int),
            decreases to - i,
        {
            out.push(self.data[i]);
            proof {
                assert(self@.subrange(from as int, i + 1) =~= self@.subrange(
                    from as int,
                    i as int,
                ).push(self@[i as int]));
            }
            i = i + 1;
        }
        out
    }

    /// Drop all contents.
    pub fn clear(&mut self)
        ensures
            final(self)@ == Seq::<u8>::empty(),
            final(self).wf(),
    {
        self.data.clear();
    }

    /// Consume the buffer and hand the accumulated text out as a `String`.
    pub fn into_string(self) -> (r: String)
        requires
            self.wf(),
        ensures
            encode_utf8(r@) == self@,
    {
        bytes_into_string(self.data)
    }
}

} // verus!
