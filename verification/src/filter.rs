//! Composable output filters.
//!
//! Each filter records the buffer length, delegates rendering to the wrapped
//! value, and post-processes only the slice `[start, len)` that the nested
//! render appended, leaving the buffer valid when it returns.

use crate::buffer::Buffer;
use crate::error::RenderError;
use crate::escape::{escape_to_buf, escaped};
use crate::fold::{
    fold_lower, fold_upper, lower_bytes, no_lower_ascii, no_upper_ascii, upper_bytes,
};
use crate::render::{lemma_valid_prefix_boundary, Render};
use crate::trimming::{trim_impl, trimmed};
use crate::truncation::{truncate_impl, truncated};
use vstd::prelude::*;
use vstd::utf8::decode_utf8;

verus! {

/// Case-fold the wrapped value's rendered output to uppercase.
pub struct Upper<'a, T>(pub &'a T);

/// Case-fold the wrapped value's rendered output to lowercase.
pub struct Lower<'a, T>(pub &'a T);

/// Remove leading and trailing whitespace from the wrapped value's rendered
/// output.
pub struct Trim<'a, T>(pub &'a T);

/// Cut the wrapped value's rendered output down to a byte limit, appending
/// a truncation marker when something was cut.
pub struct Truncate<'a, T>(pub &'a T, pub usize);

impl<'a, T: Render> Render for Upper<'a, T> {
    open spec fn raw(&self) -> Seq<u8> {
        upper_bytes(self.0.raw())
    }

    open spec fn esc(&self) -> Seq<u8> {
        escaped(upper_bytes(self.0.raw()))
    }

    open spec fn infallible(&self) -> bool {
        self.0.infallible()
    }

    fn render(&self, b: &mut Buffer) -> (r: Result<(), RenderError>)
        ensures
            r is Ok ==> no_lower_ascii(decode_utf8(final(b)@.skip(old(b)@.len() as int))),
    {
        let old_len = b.len();
        match self.0.render(b) {
            Ok(()) => {}
            Err(e) => {
                return Err(e);
            }
        }
        proof {
            assert(old(b)@ + self.0.raw() =~= b@);
            lemma_valid_prefix_boundary(old(b)@, self.0.raw());
            assert(b@.subrange(0, old_len as int) =~= old(b)@);
            assert(b@.skip(old_len as int) =~= self.0.raw());
        }
        fold_upper(b, old_len);
        proof {
            assert(old(b)@.is_prefix_of(b@));
        }
        Ok(())
    }

    /// The escaped form is derived from the raw one: fold first into a
    /// scratch buffer, then escape that region into the shared buffer.
    fn render_escaped(&self, b: &mut Buffer) -> (r: Result<(), RenderError>) {
        let mut tmp = Buffer::new();
        match self.render(&mut tmp) {
            Ok(()) => {}
            Err(e) => {
                return Err(e);
            }
        }
        proof {
            assert(Seq::<u8>::empty() + self.raw() =~= self.raw());
        }
        let s = tmp.as_str();
        escape_to_buf(s, b);
        proof {
            assert(old(b)@.is_prefix_of(b@));
        }
        Ok(())
    }
}

impl<'a, T: Render> Render for Lower<'a, T> {
    open spec fn raw(&self) -> Seq<u8> {
        lower_bytes(self.0.raw())
    }

    open spec fn esc(&self) -> Seq<u8> {
        lower_bytes(self.0.esc())
    }

    open spec fn infallible(&self) -> bool {
        self.0.infallible()
    }

    fn render(&self, b: &mut Buffer) -> (r: Result<(), RenderError>)
        ensures
            r is Ok ==> no_upper_ascii(decode_utf8(final(b)@.skip(old(b)@.len() as int))),
    {
        let old_len = b.len();
        match self.0.render(b) {
            Ok(()) => {}
            Err(e) => {
                return Err(e);
            }
        }
        proof {
            assert(old(b)@ + self.0.raw() =~= b@);
            lemma_valid_prefix_boundary(old(b)@, self.0.raw());
            assert(b@.subrange(0, old_len as int) =~= old(b)@);
            assert(b@.skip(old_len as int) =~= self.0.raw());
        }
        fold_lower(b, old_len);
        proof {
            assert(old(b)@.is_prefix_of(b@));
        }
        Ok(())
    }

    /// The escaped form escapes first and case-folds the escaped result:
    /// this order is fixed, observable behaviour.
    fn render_escaped(&self, b: &mut Buffer) -> (r: Result<(), RenderError>)
        ensures
            r is Ok ==> no_upper_ascii(decode_utf8(final(b)@.skip(old(b)@.len() as int))),
    {
        let old_len = b.len();
        match self.0.render_escaped(b) {
            Ok(()) => {}
            Err(e) => {
                return Err(e);
            }
        }
        proof {
            assert(old(b)@ + self.0.esc() =~= b@);
            lemma_valid_prefix_boundary(old(b)@, self.0.esc());
            assert(b@.subrange(0, old_len as int) =~= old(b)@);
            assert(b@.skip(old_len as int) =~= self.0.esc());
        }
        fold_lower(b, old_len);
        proof {
            assert(old(b)@.is_prefix_of(b@));
        }
        Ok(())
    }
}

impl<'a, T: Render> Render for Trim<'a, T> {
    open spec fn raw(&self) -> Seq<u8> {
        trimmed(self.0.raw())
    }

    open spec fn esc(&self) -> Seq<u8> {
        trimmed(self.0.esc())
    }

    open spec fn infallible(&self) -> bool {
        self.0.infallible()
    }

    fn render(&self, b: &mut Buffer) -> (r: Result<(), RenderError>) {
        let old_len = b.len();
        match self.0.render(b) {
            Ok(()) => {}
            Err(e) => {
                return Err(e);
            }
        }
        proof {
            assert(b@.subrange(0, old_len as int) =~= old(b)@);
            assert(b@.skip(old_len as int) =~= self.0.raw());
        }
        trim_impl(b, old_len);
        proof {
            assert(old(b)@.is_prefix_of(b@));
        }
        Ok(())
    }

    fn render_escaped(&self, b: &mut Buffer) -> (r: Result<(), RenderError>) {
        let old_len = b.len();
        match self.0.render_escaped(b) {
            Ok(()) => {}
            Err(e) => {
                return Err(e);
            }
        }
        proof {
            assert(b@.subrange(0, old_len as int) =~= old(b)@);
            assert(b@.skip(old_len as int) =~= self.0.esc());
        }
        trim_impl(b, old_len);
        proof {
            assert(old(b)@.is_prefix_of(b@));
        }
        Ok(())
    }
}

impl<'a, T: Render> Render for Truncate<'a, T> {
    open spec fn raw(&self) -> Seq<u8> {
        truncated(self.0.raw(), self.1 as int)
    }

    open spec fn esc(&self) -> Seq<u8> {
        truncated(self.0.esc(), self.1 as int)
    }

    open spec fn infallible(&self) -> bool {
        self.0.infallible()
    }

    fn render(&self, b: &mut Buffer) -> (r: Result<(), RenderError>) {
        let old_len = b.len();
        match self.0.render(b) {
            Ok(()) => {}
            Err(e) => {
                return Err(e);
            }
        }
        proof {
            assert(b@.subrange(0, old_len as int) =~= old(b)@);
            assert(b@.skip(old_len as int) =~= self.0.raw());
        }
        let res = truncate_impl(b, old_len, self.1);
        proof {
            assert(res is Ok);
            assert(old(b)@.is_prefix_of(b@));
        }
        res
    }

    fn render_escaped(&self, b: &mut Buffer) -> (r: Result<(), RenderError>) {
        let old_len = b.len();
        match self.0.render_escaped(b) {
            Ok(()) => {}
            Err(e) => {
                return Err(e);
            }
        }
        proof {
            assert(b@.subrange(0, old_len as int) =~= old(b)@);
            assert(b@.skip(old_len as int) =~= self.0.esc());
        }
        let res = truncate_impl(b, old_len, self.1);
        proof {
            assert(res is Ok);
            assert(old(b)@.is_prefix_of(b@));
        }
        res
    }
}

/// Convert the rendered contents to uppercase.
pub fn upper<'a, T: Render>(expr: &'a T) -> (r: Upper<'a, T>)
    ensures
        r.0 == expr,
{
    Upper(expr)
}

/// Convert the rendered contents to lowercase.
pub fn lower<'a, T: Render>(expr: &'a T) -> (r: Lower<'a, T>)
    ensures
        r.0 == expr,
{
    Lower(expr)
}

/// Remove leading and trailing whitespace from the rendered contents.
pub fn trim<'a, T: Render>(expr: &'a T) -> (r: Trim<'a, T>)
    ensures
        r.0 == expr,
{
    Trim(expr)
}

/// Limit the byte length of the rendered contents, appending the marker
/// `"..."` when something was cut. A limit above `usize::MAX / 2` is masked
/// down: rendered contents can never reach such a length, so truncation then
/// never happens.
pub fn truncate<'a, T: Render>(expr: &'a T, limit: usize) -> (r: Truncate<'a, T>)
    ensures
        r.0 == expr,
        r.1 == limit & (usize::MAX / 2),
{
    Truncate(expr, limit & (usize::MAX / 2))
}

} // verus!

