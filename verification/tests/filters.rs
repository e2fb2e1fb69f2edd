//! The filter unit tests: case folding, trimming, truncation.

use sailfish::buffer::Buffer;
use sailfish::filter::{lower, trim, truncate, upper};
use sailfish::render::Render;

#[test]
fn case() {
    let mut buf = Buffer::new();
    upper(&"hElLO, WOrLd!").render(&mut buf).unwrap();
    assert_eq!(buf.as_str(), "HELLO, WORLD!");

    buf.clear();
    lower(&"hElLO, WOrLd!").render(&mut buf).unwrap();
    assert_eq!(buf.as_str(), "hello, world!");

    buf.clear();
    lower(&"<h1>TITLE</h1>").render_escaped(&mut buf).unwrap();
    assert_eq!(buf.as_str(), "&lt;h1&gt;title&lt;/h1&gt;");
}

#[test]
fn trim_test() {
    let mut buf = Buffer::new();
    trim(&" hello  ").render(&mut buf).unwrap();
    trim(&"hello ").render(&mut buf).unwrap();
    trim(&"   hello").render(&mut buf).unwrap();
    assert_eq!(buf.as_str(), "hellohellohello");

    let mut buf = Buffer::new();
    trim(&"hello ").render(&mut buf).unwrap();
    trim(&" hello").render(&mut buf).unwrap();
    trim(&"hello").render(&mut buf).unwrap();
    assert_eq!(buf.as_str(), "hellohellohello");

    let mut buf = Buffer::new();
    trim(&" hello").render(&mut buf).unwrap();
    assert_eq!(buf.as_str(), "hello");
}

#[test]
fn trim_unicode_whitespace() {
    let mut buf = Buffer::new();
    trim(&"\u{3000}\u{00A0} hi\u{2028}\u{205F}").render(&mut buf).unwrap();
    assert_eq!(buf.as_str(), "hi");
}

#[test]
fn trim_all_whitespace() {
    let mut buf = Buffer::new();
    trim(&" \t \n ").render(&mut buf).unwrap();
    assert_eq!(buf.as_str(), "");
    trim(&"").render(&mut buf).unwrap();
    assert_eq!(buf.as_str(), "");
}

#[test]
fn truncate_at_boundary() {
    let mut buf = Buffer::new();
    truncate(&"foobarbaz", 3).render(&mut buf).unwrap();
    assert_eq!(buf.as_str(), "foo...");

    buf.clear();
    truncate(&"ab", 5).render(&mut buf).unwrap();
    assert_eq!(buf.as_str(), "ab");

    buf.clear();
    truncate(&"abc", 3).render(&mut buf).unwrap();
    assert_eq!(buf.as_str(), "abc");
}

#[test]
fn truncate_multibyte() {
    // each of the three characters takes three bytes; the cut point moves
    // forward to the next character boundary
    let mut buf = Buffer::new();
    truncate(&"日本語", 4).render(&mut buf).unwrap();
    assert_eq!(buf.as_str(), "日本...");
}

#[test]
fn upper_region_has_no_lowercase() {
    let mut buf = Buffer::new();
    upper(&"mIxEd Text 123 çé øù").render(&mut buf).unwrap();
    for c in buf.as_str().chars() {
        assert!(!c.is_ascii_lowercase());
    }

    buf.clear();
    lower(&"MiXeD tExT 123 ÇÉ ØÙ").render(&mut buf).unwrap();
    for c in buf.as_str().chars() {
        assert!(!c.is_ascii_uppercase());
    }
}

#[test]
fn trim_filter_is_idempotent() {
    let samples = ["  a b  ", "x", "", " \u{00A0}deep\u{3000} ", "\tkeep me\r\n"];
    for s in samples.iter() {
        let mut once = Buffer::new();
        trim(s).render(&mut once).unwrap();
        let first = once.as_str().to_owned();
        let mut twice = Buffer::new();
        let first_str: &str = first.as_str();
        trim(&first_str).render(&mut twice).unwrap();
        assert_eq!(twice.as_str(), first_str);
    }
}

#[test]
fn escaped_then_folded() {
    // escaping happens in the same pass as the fold for `lower`:
    // delimiters come out escaped, letters come out lowercase
    let mut buf = Buffer::new();
    lower(&"A \"B\" & 'C'").render_escaped(&mut buf).unwrap();
    assert_eq!(buf.as_str(), "a &quot;b&quot; &amp; &#39;c&#39;");
}

#[test]
fn upper_escapes_after_folding() {
    let mut buf = Buffer::new();
    upper(&"<h1>title</h1>").render_escaped(&mut buf).unwrap();
    assert_eq!(buf.as_str(), "&lt;H1&gt;TITLE&lt;/H1&gt;");
}

#[test]
fn nested_filters() {
    let mut buf = Buffer::new();
    let inner = " wide load  ";
    let folded = upper(&inner);
    trim(&folded).render(&mut buf).unwrap();
    assert_eq!(buf.as_str(), "WIDE LOAD");
}
