//! The unified failure type for a render call.

use vstd::prelude::*;

verus! {

/// A render failure: a single kind carrying a descriptive message.
///
/// Failures of inner formatting or serialization steps, and internally
/// detected invariant violations, are all reported through this one type;
/// every failure aborts the current render call.
#[derive(Debug)]
pub struct RenderError {
    msg: String,
}

impl View for RenderError {
    type V = Seq<char>;

    closed spec fn view(&self) -> Seq<char> {
        self.msg@
    }
}

impl RenderError {
    /// Wrap a descriptive message.
    pub fn new(msg: &str) -> (r: RenderError)
        ensures
            r@ == msg@,
    {
        RenderError { msg: msg.to_owned() }
    }

    /// The descriptive message carried by this error.
    pub fn message(&self) -> (r: &str)
        ensures
            r@ == self@,
    {
        self.msg.as_str()
    }
}

impl Clone for RenderError {
    fn clone(&self) -> (r: Self)
        ensures
            r@ == self@,
    {
        RenderError { msg: self.msg.clone() }
    }
}

} // verus!
