//! Whole-render sequences as compiled template code would issue them: one
//! buffer per render, a mix of static text and escaped or raw value renders,
//! one final text result.

use sailfish::buffer::Buffer;
use sailfish::filter::{trim, truncate, upper};
use sailfish::render::Render;

fn finish(buf: Buffer) -> String {
    buf.into_string()
}

#[test]
fn empty() {
    let buf = Buffer::new();
    assert_eq!(finish(buf), "");
}

#[test]
fn noescape() {
    let raw = "<h1>Hello, World!</h1>";
    let mut buf = Buffer::new();
    raw.render(&mut buf).unwrap();
    assert_eq!(finish(buf), "<h1>Hello, World!</h1>");
}

#[test]
fn json() {
    let name = String::from("Taro");
    let value: u16 = 16;
    let mut buf = Buffer::new();
    buf.push_str("{\"name\":\"");
    name.render_escaped(&mut buf).unwrap();
    buf.push_str("\",\"value\":");
    let rendered = format!("{}", value);
    rendered.render(&mut buf).unwrap();
    buf.push_str("}");
    assert_eq!(finish(buf), "{\"name\":\"Taro\",\"value\":16}");
}

#[test]
fn custom_delimiter() {
    // the delimiter choice is a compile-time matter: the emitted calls are
    // the same as with the default delimiters
    let mut buf = Buffer::new();
    buf.push_str("Hello, ");
    "World!".render_escaped(&mut buf).unwrap();
    assert_eq!(finish(buf), "Hello, World!");
}

#[test]
fn test_include() {
    let strs = ["foo", "bar"];
    let mut buf = Buffer::new();
    for s in strs.iter() {
        s.render_escaped(&mut buf).unwrap();
        buf.push_str("\n");
    }
    assert_eq!(finish(buf), "foo\nbar\n");
}

#[test]
fn continue_break() {
    let mut buf = Buffer::new();
    for i in 0..10 {
        if i % 2 == 1 {
            continue;
        }
        if i == 6 {
            break;
        }
        let t = format!("{}", i);
        t.render(&mut buf).unwrap();
    }
    assert_eq!(finish(buf), "024");
}

#[test]
fn test_techempower() {
    let items: Vec<(i32, &str)> = vec![
        (0, "Additional fortune added at request time."),
        (1, "fortune: No such file or directory"),
        (2, "A computer scientist is someone who fixes things that aren't broken."),
        (3, "After enough decimal places, nobody gives a damn."),
        (4, "A bad random number generator: 1, 1, 1, 1, 1, 4.33e+67, 1, 1, 1"),
        (5, "A computer program does what you tell it to do, not what you want it to do."),
        (6, "Emacs is a nice operating system, but I prefer UNIX. — Tom Christaensen"),
        (7, "Any program that runs right is obsolete."),
        (8, "A list is only as strong as its weakest link. — Donald Knuth"),
        (9, "Feature: A bug with seniority."),
        (10, "Computers make very fast, very accurate mistakes."),
        (
            11,
            "<script>alert(\"This should not be displayed in a browser alert box.\");</script>",
        ),
        (12, "フレームワークのベンチマーク"),
    ];
    let mut buf = Buffer::new();
    buf.push_str("<table>");
    for (id, message) in items.iter() {
        buf.push_str("<tr><td>");
        let idt = format!("{}", id);
        idt.render_escaped(&mut buf).unwrap();
        buf.push_str("</td><td>");
        message.render_escaped(&mut buf).unwrap();
        buf.push_str("</td></tr>");
    }
    buf.push_str("</table>");

    let escaped_rows: Vec<(i32, &str)> = vec![
        (0, "Additional fortune added at request time."),
        (1, "fortune: No such file or directory"),
        (2, "A computer scientist is someone who fixes things that aren&#39;t broken."),
        (3, "After enough decimal places, nobody gives a damn."),
        (4, "A bad random number generator: 1, 1, 1, 1, 1, 4.33e+67, 1, 1, 1"),
        (5, "A computer program does what you tell it to do, not what you want it to do."),
        (6, "Emacs is a nice operating system, but I prefer UNIX. — Tom Christaensen"),
        (7, "Any program that runs right is obsolete."),
        (8, "A list is only as strong as its weakest link. — Donald Knuth"),
        (9, "Feature: A bug with seniority."),
        (10, "Computers make very fast, very accurate mistakes."),
        (
            11,
            "&lt;script&gt;alert(&quot;This should not be displayed in a browser alert box.&quot;);&lt;/script&gt;",
        ),
        (12, "フレームワークのベンチマーク"),
    ];
    let mut expected = String::new();
    expected.push_str("<table>");
    for (id, message) in escaped_rows.iter() {
        expected.push_str(&format!("<tr><td>{}</td><td>{}</td></tr>", id, message));
    }
    expected.push_str("</table>");
    assert_eq!(finish(buf), expected);
}

#[test]
fn test_rm_whitespace() {
    // whitespace stripping is decided at compile time; the runtime receives
    // the already stripped static text
    let messages = ["foo", "bar"];
    let mut buf = Buffer::new();
    for m in messages.iter() {
        m.render_escaped(&mut buf).unwrap();
        buf.push_str("\n");
    }
    assert_eq!(finish(buf), "foo\nbar\n");
}

#[test]
fn test_comment() {
    // comments compile to nothing: only the surrounding text is emitted
    let mut buf = Buffer::new();
    buf.push_str("Hello, World!");
    assert_eq!(finish(buf), "Hello, World!");
}

#[test]
fn test_rust_macro() {
    let value: Option<i32> = Some(10);
    let mut buf = Buffer::new();
    if let Some(v) = value {
        let t = format!("{}", v);
        t.render_escaped(&mut buf).unwrap();
    }
    assert_eq!(finish(buf), "10");
}

#[test]
fn test_formatting() {
    // with escaping off every render is raw
    let mut buf = Buffer::new();
    let pi = format!("{:.3}", 3.14159f64);
    pi.render(&mut buf).unwrap();
    buf.push_str(" & ");
    let hexed = format!("{:#06x}", 255);
    hexed.render(&mut buf).unwrap();
    assert_eq!(finish(buf), "3.142 & 0x00ff");
}

#[test]
fn test_filter() {
    let message = "hello";
    let mut buf = Buffer::new();
    upper(&message).render_escaped(&mut buf).unwrap();
    assert_eq!(finish(buf), "HELLO");
}

#[test]
fn test_filter2() {
    let mut buf = Buffer::new();
    let padded = "  spread out ";
    trim(&padded).render_escaped(&mut buf).unwrap();
    assert_eq!(finish(buf), "spread out");
}

#[test]
fn test_truncate_filter() {
    let mut buf = Buffer::new();
    truncate(&"foobarbaz", 6).render_escaped(&mut buf).unwrap();
    assert_eq!(finish(buf), "foobar...");
}

#[test]
fn test_json_filter() {
    let mut map = serde_json::Map::new();
    map.insert(String::from("name"), serde_json::Value::from("John Doe"));
    map.insert(String::from("age"), serde_json::Value::from(43));
    map.insert(
        String::from("phones"),
        serde_json::Value::Array(vec![
            serde_json::Value::from("+44 1234567"),
            serde_json::Value::from("+44 2345678"),
        ]),
    );
    let data = serde_json::Value::Object(map);

    let mut buf = Buffer::new();
    sailfish::json::json(&data).render(&mut buf).unwrap();
    assert_eq!(
        finish(buf),
        "{\"age\":43,\"name\":\"John Doe\",\"phones\":[\"+44 1234567\",\"+44 2345678\"]}"
    );
}

#[test]
fn test_include_nest() {
    let s = "foo";
    let mut buf = Buffer::new();
    buf.push_str("[");
    buf.push_str("(");
    s.render_escaped(&mut buf).unwrap();
    buf.push_str(")");
    buf.push_str("]");
    assert_eq!(finish(buf), "[(foo)]");
}

#[test]
fn test_include_rust() {
    let value: usize = 58;
    let mut buf = Buffer::new();
    let t = format!("{}", value);
    t.render_escaped(&mut buf).unwrap();
    assert_eq!(finish(buf), "58");
}
