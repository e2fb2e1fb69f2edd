//! Edge cases and behaviours the contracts promise: the buffer invariant
//! operations, the exact escaping set, the truncation error, and the JSON
//! round trip.

use sailfish::buffer::Buffer;
use sailfish::error::RenderError;
use sailfish::fold::{fold_lower, fold_upper};
use sailfish::render::{render_escaped_via_raw, Render};
use sailfish::trimming::trim_impl;
use sailfish::truncation::truncate_impl;

#[test]
fn escapes_exactly_the_five_reserved_characters() {
    let mut buf = Buffer::new();
    "&<>\"'".render_escaped(&mut buf).unwrap();
    assert_eq!(buf.as_str(), "&amp;&lt;&gt;&quot;&#39;");

    buf.clear();
    "plain text, no specials: a-z 0-9 ä 語 !?#%"
        .render_escaped(&mut buf)
        .unwrap();
    assert_eq!(buf.as_str(), "plain text, no specials: a-z 0-9 ä 語 !?#%");
}

#[test]
fn truncate_reports_shrunken_buffer() {
    // a buffer that ended up shorter than the recorded start is an invariant
    // violation, whatever the limit is
    let mut buf = Buffer::new();
    buf.push_str("ab");
    let r = truncate_impl(&mut buf, 5, 0);
    assert!(r.is_err());
    assert_eq!(
        r.unwrap_err().message(),
        "buffer size shrinked while rendering"
    );
    let r2 = truncate_impl(&mut buf, 3, 100);
    assert!(r2.is_err());
    // at or past the recorded start nothing is wrong
    let r3 = truncate_impl(&mut buf, 2, 0);
    assert!(r3.is_ok());
    assert_eq!(buf.as_str(), "ab");
}

#[test]
fn truncate_marker_iff_over_limit() {
    let mut buf = Buffer::new();
    buf.push_str("abcdef");
    truncate_impl(&mut buf, 0, 6).unwrap();
    assert_eq!(buf.as_str(), "abcdef");
    truncate_impl(&mut buf, 0, 5).unwrap();
    assert_eq!(buf.as_str(), "abcde...");
}

#[test]
fn json_round_trip() {
    let mut map = serde_json::Map::new();
    map.insert(String::from("id"), serde_json::Value::from(7));
    map.insert(
        String::from("title"),
        serde_json::Value::from("a \"quoted\" <tag> & more"),
    );
    map.insert(
        String::from("tags"),
        serde_json::Value::Array(vec![
            serde_json::Value::from("x"),
            serde_json::Value::Bool(true),
            serde_json::Value::Null,
        ]),
    );
    let data = serde_json::Value::Object(map);

    let mut buf = Buffer::new();
    sailfish::json::json(&data).render(&mut buf).unwrap();
    let text = buf.into_string();
    let back: serde_json::Value = serde_json::from_str(&text).unwrap();
    assert_eq!(back, data);
}

#[test]
fn json_escaped_variant_routes_through_escaper() {
    let data = serde_json::Value::from("<b>&</b>");
    let mut buf = Buffer::new();
    sailfish::json::json(&data).render_escaped(&mut buf).unwrap();
    assert_eq!(buf.as_str(), "&quot;&lt;b&gt;&amp;&lt;/b&gt;&quot;");
}

#[test]
fn buffer_operations() {
    let mut buf = Buffer::with_capacity(4);
    assert_eq!(buf.len(), 0);
    buf.push_str("héllo");
    assert_eq!(buf.len(), 6);
    assert!(buf.capacity() >= buf.len());
    assert_eq!(buf.byte_at(0), b'h');
    let piece = buf.extract(0, 3);
    assert_eq!(piece, vec![b'h', 0xC3, 0xA9]);
    buf.push_bytes(&piece);
    assert_eq!(buf.as_str(), "héllohé");
    buf.set_len(6);
    assert_eq!(buf.as_str(), "héllo");
    buf.clear();
    assert_eq!(buf.len(), 0);
    assert_eq!(buf.into_string(), "");
}

#[test]
fn fold_region_only() {
    // folding rewrites only the tail the caller names
    let mut buf = Buffer::new();
    buf.push_str("keep-");
    buf.push_str("shout");
    fold_upper(&mut buf, 5);
    assert_eq!(buf.as_str(), "keep-SHOUT");
    fold_lower(&mut buf, 0);
    assert_eq!(buf.as_str(), "keep-shout");
}

#[test]
fn trim_region_only() {
    let mut buf = Buffer::new();
    buf.push_str("keep ");
    buf.push_str("  inner\u{3000}");
    trim_impl(&mut buf, 5);
    assert_eq!(buf.as_str(), "keep inner");
}

#[test]
fn error_carries_its_message() {
    let e = RenderError::new("something went wrong");
    assert_eq!(e.message(), "something went wrong");
    let e2 = e.clone();
    assert_eq!(e2.message(), "something went wrong");
}

#[test]
fn derived_escaped_form() {
    let mut buf = Buffer::new();
    render_escaped_via_raw(&"<x>", &mut buf).unwrap();
    assert_eq!(buf.as_str(), "&lt;x&gt;");
}

#[test]
fn string_renders_like_str() {
    let owned = String::from("a<b");
    let mut buf = Buffer::new();
    owned.render(&mut buf).unwrap();
    owned.render_escaped(&mut buf).unwrap();
    assert_eq!(buf.as_str(), "a<ba&lt;b");
}

#[test]
fn boundary_calls_choose_the_form() {
    // compiled code picks the raw or the escaped entry per the template's
    // escape-by-default setting
    let mut buf = Buffer::new();
    sailfish::render::render(&"<x>", &mut buf).unwrap();
    sailfish::render::render_escaped(&"<x>", &mut buf).unwrap();
    assert_eq!(buf.as_str(), "<x>&lt;x&gt;");
}
