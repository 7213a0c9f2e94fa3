use offload::order::{insert_sorted, sort_dedup, sort_pairs};
use offload::paths;
use offload::shell::{quote_all, quote_join};
use offload::strmap::StrMap;
use offload::text;
use offload::xml::{render, XmlEvent};

fn strings(v: &[&str]) -> Vec<String> {
    v.iter().map(|t| t.to_string()).collect()
}

#[test]
fn texts_are_searched_and_replaced() {
    assert!(text::contains("héllo", "éll"));
    assert!(!text::contains("abc", "ac"));
    assert!(text::starts_with("abc", "ab") && !text::starts_with("abc", "b"));
    assert_eq!(text::strip_prefix("./x", "./").as_deref(), Some("x"));
    assert_eq!(text::replace("aXbX", "X", "--"), "a--b--");
    assert_eq!(text::split("a::b::", "::"), vec!["a", "b", ""]);
    assert_eq!(
        text::split_once("a=b=c", "="),
        Some(("a".to_string(), "b=c".to_string()))
    );
    assert_eq!(text::split_once("a", "="), None);
}

#[test]
fn texts_are_cut_like_the_standard_library_cuts_them() {
    for t in ["", "a\r\nb\n\n", " x\ty \n z", "\u{a0}a\u{2003}b\u{3000}", "a\rb", "\n"] {
        assert_eq!(text::lines(t), t.lines().collect::<Vec<&str>>());
        assert_eq!(text::words(t), t.split_whitespace().collect::<Vec<&str>>());
        assert_eq!(text::trim(t), t.trim());
    }
    for c in 0..0x3100u32 {
        if let Some(c) = char::from_u32(c) {
            assert_eq!(text::space(c), c.is_whitespace());
        }
    }
}

#[test]
fn numbers_are_written_in_decimal() {
    assert_eq!(text::decimal_u64(0), "0");
    assert_eq!(text::decimal_u64(u64::MAX), u64::MAX.to_string());
    assert_eq!(text::decimal_i32(i32::MIN), i32::MIN.to_string());
    assert_eq!(text::decimal_i32(42), "42");
}

#[test]
fn texts_are_clipped_by_bytes() {
    assert_eq!(text::clip("0123456789", 8), "01234567");
    assert_eq!(text::clip("ab", 8), "ab");
    assert_eq!(text::clip("éé", 3), "é");
}

#[test]
fn texts_are_joined_and_ordered() {
    assert_eq!(text::join(&strings(&["a", "b"]), ", "), "a, b");
    assert!(text::comes_before("a", "ab"));
    assert!(!text::comes_before("b", "ab"));
    assert_eq!(sort_dedup(&strings(&["b", "a", "b"])), vec!["a", "b"]);
    let mut v = strings(&["a", "c"]);
    insert_sorted(&mut v, "b".to_string());
    assert_eq!(v, vec!["a", "b", "c"]);
    let pairs = sort_pairs(&vec![
        ("b".to_string(), "1".to_string()),
        ("a".to_string(), "2".to_string()),
    ]);
    assert_eq!(pairs[0].0, "a");
}

#[test]
fn paths_are_joined_and_stripped() {
    assert_eq!(paths::join("/a", "b"), "/a/b");
    assert_eq!(paths::join("/a/", "b"), "/a/b");
    assert_eq!(paths::join("/a", "/b"), "/b");
    assert_eq!(paths::join("", "b"), "b");
    assert!(paths::is_absolute("/a") && !paths::is_absolute("a"));
    assert_eq!(paths::normalize("./a//b/./c"), "a/b/c");
    assert_eq!(paths::strip_prefix("/a/b/c", "/a").as_deref(), Some("b/c"));
    assert_eq!(paths::strip_prefix("/ab/c", "/a"), None);
    for (a, b) in [("/a/b/c", "/a/"), ("/a//b", "/a"), ("/a/./b", "/a"), ("a/b", "a")] {
        let expected = std::path::Path::new(a)
            .strip_prefix(b)
            .map(|p| p.to_string_lossy().into_owned())
            .ok();
        assert_eq!(paths::strip_prefix(a, b), expected, "{a} {b}");
    }
}

#[test]
fn maps_keep_one_value_for_a_key() {
    let mut m: StrMap<u32> = StrMap::new();
    m.insert("a".to_string(), 1);
    m.insert("b".to_string(), 2);
    m.insert("a".to_string(), 3);
    assert_eq!(m.len(), 2);
    assert_eq!(m.get("a"), Some(&3));
    assert!(m.contains_key("b") && !m.contains_key("c"));
    assert_eq!(m.position("b"), Some(1));
}

#[test]
fn words_are_quoted_for_the_shell() {
    assert_eq!(quote_all(&strings(&["a", "b c", "it's"])), vec!["a", "'b c'", "'it'\\''s'"]);
    assert_eq!(quote_join(&strings(&["a", "b c"])), "a 'b c'");
}

#[test]
fn documents_are_escaped_and_indented() {
    let events = vec![
        XmlEvent::Decl { version: "1.0".to_string(), encoding: "UTF-8".to_string() },
        XmlEvent::Start {
            name: "a".to_string(),
            attributes: vec![("k".to_string(), "x<\"y\"".to_string())],
        },
        XmlEvent::Empty { name: "b".to_string(), attributes: vec![] },
        XmlEvent::Text { content: "1 & 2".to_string() },
        XmlEvent::End { name: "a".to_string() },
    ];
    let out = render(&events, 2).unwrap();
    assert!(out.starts_with("<?xml version=\"1.0\" encoding=\"UTF-8\"?>"));
    assert!(out.contains("k=\"x&lt;&quot;y&quot;\""));
    assert!(out.contains("\n  <b/>"));
    assert!(out.contains("1 &amp; 2"));
    assert!(out.ends_with("</a>"));
}

#[test]
fn quoting_covers_empty_and_special_words() {
    assert_eq!(
        quote_all(&strings(&["", "a$b", "tests/a.py::t", "''", "k=v"])),
        vec!["''", "'a$b'", "tests/a.py::t", "''\\'''\\'''", "'k=v'"]
    );
}
