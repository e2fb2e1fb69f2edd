//! The render capability: the contract that lets a value append its raw or
//! markup-safe textual form to a buffer.

use crate::buffer::Buffer;
use crate::error::RenderError;
use crate::escape::{escape_to_buf, escaped};
use vstd::prelude::*;
use vstd::string::StringSliceAdditionalSpecFns;
use vstd::utf8::{
    encode_utf8, is_char_boundary, length_of_first_scalar, pop_first_scalar, valid_first_scalar,
    valid_utf8,
};

verus! {

/// A value that can append itself to a [`Buffer`], in raw or escaped form.
///
/// `raw()` and `esc()` are the byte sequences the two operations append on
/// success; on failure a renderer may leave a partial region behind, but it
/// never disturbs what the buffer held before the call, and it always leaves
/// the buffer's text-validity invariant intact.
pub trait Render {
    /// The bytes `render` appends on success. The default is for unverified
    /// adapters outside this crate; every renderable of the crate overrides
    /// it with its exact output.
    open spec fn raw(&self) -> Seq<u8> {
        Seq::empty()
    }

    /// The bytes `render_escaped` appends on success.
    open spec fn esc(&self) -> Seq<u8> {
        Seq::empty()
    }

    /// Whether rendering this value is known to succeed. Plain text always
    /// renders; a filter renders whenever its wrapped value does. The
    /// cautious default is for unverified adapters outside this crate.
    open spec fn infallible(&self) -> bool {
        false
    }

    /// Append the raw textual form of `self`.
    fn render(&self, b: &mut Buffer) -> (r: Result<(), RenderError>)
        requires
            old(b).wf(),
        ensures
            final(b).wf(),
            old(b)@.is_prefix_of(final(b)@),
            r is Ok ==> final(b)@ == old(b)@ + self.raw(),
            self.infallible() ==> r is Ok,
    ;

    /// Append the markup-safe textual form of `self`.
    fn render_escaped(&self, b: &mut Buffer) -> (r: Result<(), RenderError>)
        requires
            old(b).wf(),
        ensures
            final(b).wf(),
            old(b)@.is_prefix_of(final(b)@),
            r is Ok ==> final(b)@ == old(b)@ + self.esc(),
            self.infallible() ==> r is Ok,
    ;
}

/// A valid buffer that grew from a valid prefix is split at a character
/// boundary there, and the appended tail is itself valid UTF-8.
pub proof fn lemma_valid_prefix_boundary(a: Seq<u8>, t: Seq<u8>)
    requires
        valid_utf8(a),
        valid_utf8(a + t),
    ensures
        is_char_boundary(a + t, a.len() as int),
        valid_utf8(t),
    decreases a.len(),
{
    if a.len() == 0 {
        assert(a + t =~= t);
    } else {
        assert(valid_first_scalar(a));
        assert((a + t)[0] == a[0]);
        let l = length_of_first_scalar(a);
        assert(length_of_first_scalar(a + t) == l);
        assert(1 <= l <= a.len());
        assert(pop_first_scalar(a + t) =~= pop_first_scalar(a) + t);
        lemma_valid_prefix_boundary(pop_first_scalar(a), t);
    }
}

impl<'a> Render for &'a str {
    open spec fn raw(&self) -> Seq<u8> {
        encode_utf8(self@)
    }

    open spec fn esc(&self) -> Seq<u8> {
        escaped(encode_utf8(self@))
    }

    open spec fn infallible(&self) -> bool {
        true
    }

    fn render(&self, b: &mut Buffer) -> (r: Result<(), RenderError>)
        ensures
            r is Ok,
    {
        b.push_str(*self);
        proof {
            assert(old(b)@.is_prefix_of(b@));
        }
        Ok(())
    }

    fn render_escaped(&self, b: &mut Buffer) -> (r: Result<(), RenderError>)
        ensures
            r is Ok,
    {
        escape_to_buf(*self, b);
        proof {
            assert(old(b)@.is_prefix_of(b@));
        }
        Ok(())
    }
}

impl Render for String {
    open spec fn raw(&self) -> Seq<u8> {
        encode_utf8(self@)
    }

    open spec fn esc(&self) -> Seq<u8> {
        escaped(encode_utf8(self@))
    }

    open spec fn infallible(&self) -> bool {
        true
    }

    fn render(&self, b: &mut Buffer) -> (r: Result<(), RenderError>)
        ensures
            r is Ok,
    {
        b.push_str(self.as_str());
        proof {
            assert(old(b)@.is_prefix_of(b@));
        }
        Ok(())
    }

    fn render_escaped(&self, b: &mut Buffer) -> (r: Result<(), RenderError>)
        ensures
            r is Ok,
    {
        escape_to_buf(self.as_str(), b);
        proof {
            assert(old(b)@.is_prefix_of(b@));
        }
        Ok(())
    }
}

/// The boundary call compiled template code makes once per interpolated
/// expression when per-template escaping is off: append the raw form.
pub fn render<T: Render>(value: &T, b: &mut Buffer) -> (r: Result<(), RenderError>)
    requires
        old(b).wf(),
    ensures
        final(b).wf(),
        old(b)@.is_prefix_of(final(b)@),
        r is Ok ==> final(b)@ == old(b)@ + value.raw(),
        value.infallible() ==> r is Ok,
{
    value.render(b)
}

/// The boundary call compiled template code makes once per interpolated
/// expression when per-template escaping is on (the default): append the
/// markup-safe form.
pub fn render_escaped<T: Render>(value: &T, b: &mut Buffer) -> (r: Result<(), RenderError>)
    requires
        old(b).wf(),
    ensures
        final(b).wf(),
        old(b)@.is_prefix_of(final(b)@),
        r is Ok ==> final(b)@ == old(b)@ + value.esc(),
        value.infallible() ==> r is Ok,
{
    value.render_escaped(b)
}

/// The default derivation of the markup-safe form: render the raw form into
/// a scratch buffer, then escape that region into the shared buffer.
pub fn render_escaped_via_raw<T: Render>(x: &T, b: &mut Buffer) -> (r: Result<(), RenderError>)
    requires
        old(b).wf(),
    ensures
        final(b).wf(),
        old(b)@.is_prefix_of(final(b)@),
        r is Ok ==> final(b)@ == old(b)@ + escaped(x.raw()),
        x.infallible() ==> r is Ok,
{
    let mut tmp = Buffer::new();
    match x.render(&mut tmp) {
        Ok(()) => {}
        Err(e) => {
            proof {
                assert(old(b)@.is_prefix_of(b@));
            }
            return Err(e);
        }
    }
    proof {
        assert(Seq::<u8>::empty() + x.raw() =~= x.raw());
    }
    let s = tmp.as_str();
    escape_to_buf(s, b);
    proof {
        assert(old(b)@.is_prefix_of(b@));
    }
    Ok(())
}

} // verus!
