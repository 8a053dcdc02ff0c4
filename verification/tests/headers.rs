use httpie::header::{find_header, header_name_ok, header_value_ok, names_match, Header};

#[test]
fn header_keeps_name_and_value() {
    let h = Header::new("Content-Type", b"text/html", false).unwrap();
    assert_eq!(h.name(), "Content-Type");
    assert_eq!(h.value(), b"text/html");
}

#[test]
fn header_takes_tab_and_high_bytes() {
    assert!(Header::new("x", b"a\tb", false).is_some());
    assert!(Header::new("x", b"caf\xc3\xa9 \xff", false).is_some());
    assert!(Header::new("x", b"", false).is_some());
}

#[test]
fn header_refuses_control_bytes() {
    assert!(Header::new("x", b"a\nb", false).is_none());
    assert!(Header::new("x", b"\x00", false).is_none());
    assert!(Header::new("x", b"\x1f", false).is_none());
    assert!(Header::new("x", b"del\x7f", false).is_none());
}

#[test]
fn header_takes_the_marks_of_a_name() {
    assert!(Header::new("X-Powered_By", b"", false).is_some());
    assert!(Header::new("a!#$%&'*+-.^_`|~9", b"", false).is_some());
    assert!(Header::new(&"n".repeat(65535), b"", false).is_some());
}

#[test]
fn header_refuses_what_is_no_name() {
    assert!(Header::new("", b"v", false).is_none());
    assert!(Header::new("two words", b"v", false).is_none());
    assert!(Header::new("a:b", b"v", false).is_none());
    assert!(Header::new("line\nbreak", b"v", false).is_none());
    assert!(Header::new("esc\x1b[0m", b"v", false).is_none());
    assert!(Header::new("caf\u{e9}", b"v", false).is_none());
    assert!(Header::new("a(b)", b"v", false).is_none());
    assert!(Header::new(&"n".repeat(65536), b"v", false).is_none());
}

#[test]
fn header_name_check_agrees_with_the_constructor() {
    assert!(header_name_ok("content-type"));
    assert!(!header_name_ok(""));
    assert!(!header_name_ok("a b"));
    assert!(header_value_ok(b"a\tb\xff"));
    assert!(!header_value_ok(b"a\rb"));
}

#[test]
fn sensitive_value_is_masked() {
    let h = Header::new("authorization", b"secret \"token\"", true).unwrap();
    assert!(h.is_sensitive());
    assert_eq!(h.shown(), "Sensitive");
    assert_eq!(h.value(), b"secret \"token\"");
    assert_eq!(h.text(), Some("secret \"token\"".to_string()));
    assert!(!Header::new("authorization", b"secret", false).unwrap().is_sensitive());
}

#[test]
fn low_and_high_bytes_are_shown_in_base_sixteen() {
    assert_eq!(Header::new("x", b"\x80\x8f\xa0\xff", false).unwrap().shown(), "\"\\x80\\x8f\\xa0\\xff\"");
}

#[test]
fn shown_value_is_one_line() {
    for value in [&b"plain"[..], b"a\tb", b"\xff\xfe", b"say \"hi\"", b""] {
        assert!(!Header::new("x", value, false).unwrap().shown().contains('\n'));
        assert!(!Header::new("x", value, true).unwrap().shown().contains('\n'));
    }
}

#[test]
fn header_value_is_shown_in_quotes() {
    assert_eq!(Header::new("x", b"hello", false).unwrap().shown(), "\"hello\"");
    assert_eq!(Header::new("x", b"", false).unwrap().shown(), "\"\"");
}

#[test]
fn header_value_is_shown_with_escapes() {
    assert_eq!(Header::new("x", b"say \"hi\"", false).unwrap().shown(), "\"say \\\"hi\\\"\"");
    assert_eq!(Header::new("x", b"hello\xfa", false).unwrap().shown(), "\"hello\\xfa\"");
    assert_eq!(Header::new("x", b"a\tb", false).unwrap().shown(), "\"a\tb\"");
}

#[test]
fn header_text_of_printable_value() {
    assert_eq!(Header::new("x", b"text/html; charset=utf-8", false).unwrap().text(), Some("text/html; charset=utf-8".to_string()));
    assert_eq!(Header::new("x", b"a\tb ~", false).unwrap().text(), Some("a\tb ~".to_string()));
    assert_eq!(Header::new("x", b"", false).unwrap().text(), Some(String::new()));
}

#[test]
fn header_text_needs_printable_bytes() {
    assert_eq!(Header::new("x", b"caf\xc3\xa9", false).unwrap().text(), None);
    assert_eq!(Header::new("x", b"\x80", false).unwrap().text(), None);
}

#[test]
fn names_match_whatever_the_case() {
    assert!(names_match("content-type", "Content-Type"));
    assert!(names_match("CONTENT-TYPE", "content-type"));
    assert!(names_match("", ""));
    assert!(names_match("x-1_z", "X-1_Z"));
}

#[test]
fn names_differ() {
    assert!(!names_match("content-type", "content-typ"));
    assert!(!names_match("content-type", "content_type"));
    assert!(!names_match("a", ""));
    assert!(!names_match("@", "`"));
    assert!(!names_match("[", "{"));
    assert!(!names_match("é", "É"));
}

#[test]
fn first_header_of_a_name_is_found() {
    let headers = vec![
        Header::new("server", b"nginx", false).unwrap(),
        Header::new("Set-Cookie", b"a=1", false).unwrap(),
        Header::new("set-cookie", b"b=2", false).unwrap(),
    ];
    assert_eq!(find_header(&headers, "set-cookie"), Some(1));
    assert_eq!(find_header(&headers, "SERVER"), Some(0));
    assert_eq!(find_header(&headers, "date"), None);
    assert_eq!(find_header(&Vec::new(), "date"), None);
}
