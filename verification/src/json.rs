//! The structured-data filter: serialize a JSON value into the buffer as
//! encoded text; the escaped variant routes the emitted text through the
//! escaper.

use crate::buffer::Buffer;
use crate::error::RenderError;
use crate::escape::{escape_to_buf, escaped};
use crate::render::Render;
use vstd::prelude::*;
use vstd::utf8::encode_utf8;

verus! {

#[verifier::external_type_specification]
#[verifier::external_body]
pub struct ExValue(serde_json::Value);

#[verifier::external_type_specification]
#[verifier::external_body]
pub struct ExJsonError(serde_json::Error);

/// Whether serde_json can serialize the value: a property of the value
/// alone.
pub uninterp spec fn json_encodable(v: serde_json::Value) -> bool;

/// The JSON document serde_json emits for the value: deterministic text,
/// a function of the value alone.
pub uninterp spec fn json_text_of(v: serde_json::Value) -> Seq<char>;

/// Relies on serde_json::to_string: whether it succeeds and what document it
/// emits depend on the value alone.
#[verifier::external_body]
fn value_to_string(v: &serde_json::Value) -> (r: Result<String, serde_json::Error>)
    ensures
        r is Ok <==> json_encodable(*v),
        r is Ok ==> r->Ok_0@ == json_text_of(*v),
{
    serde_json::to_string(v)
}

/// Relies on the message formatting of serde_json::Error for the failure
/// report.
#[verifier::external_body]
fn json_error_message(e: &serde_json::Error) -> (r: String) {
    e.to_string()
}

/// Serialize a structured value as JSON into the buffer.
///
/// The document is produced when the filter is built; rendering appends it,
/// and the escaped variant routes it through the escaper. A serializer
/// failure is carried along and reported when the filter renders.
pub struct Json {
    pub enc: Result<String, RenderError>,
}

impl Render for Json {
    open spec fn raw(&self) -> Seq<u8> {
        if self.enc is Ok {
            encode_utf8(self.enc->Ok_0@)
        } else {
            Seq::empty()
        }
    }

    open spec fn esc(&self) -> Seq<u8> {
        escaped(self.raw())
    }

    open spec fn infallible(&self) -> bool {
        self.enc is Ok
    }

    fn render(&self, b: &mut Buffer) -> (r: Result<(), RenderError>)
        ensures
            r is Ok <==> self.enc is Ok,
            r is Err ==> r->Err_0@ == self.enc->Err_0@,
    {
        match &self.enc {
            Ok(s) => {
                b.push_str(s.as_str());
                proof {
                    assert(old(b)@.is_prefix_of(b@));
                }
                Ok(())
            }
            Err(e) => Err(e.clone()),
        }
    }

    fn render_escaped(&self, b: &mut Buffer) -> (r: Result<(), RenderError>)
        ensures
            r is Ok <==> self.enc is Ok,
            r is Err ==> r->Err_0@ == self.enc->Err_0@,
    {
        match &self.enc {
            Ok(s) => {
                escape_to_buf(s.as_str(), b);
                proof {
                    assert(old(b)@.is_prefix_of(b@));
                }
                Ok(())
            }
            Err(e) => Err(e.clone()),
        }
    }
}

/// Build the JSON filter for a structured value, serializing it up front.
pub fn json(expr: &serde_json::Value) -> (r: Json)
    ensures
        r.enc is Ok <==> json_encodable(*expr),
        r.enc is Ok ==> r.enc->Ok_0@ == json_text_of(*expr),
{
    match value_to_string(expr) {
        Ok(s) => Json { enc: Ok(s) },
        Err(e) => {
            let msg = json_error_message(&e);
            Json { enc: Err(RenderError::new(msg.as_str())) }
        }
    }
}

} // verus!
