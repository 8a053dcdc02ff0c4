use httpie::url::{parse_url, url_verdict, UrlError};

#[test]
fn url_is_handed_back_unchanged() {
    assert_eq!(parse_url("https://httpbin.org/post"), Ok("https://httpbin.org/post".to_string()));
    assert_eq!(parse_url("HTTP://Example.COM:80/a b"), Ok("HTTP://Example.COM:80/a b".to_string()));
}

#[test]
fn url_without_scheme_is_refused() {
    assert_eq!(
        parse_url("httpbin.org"),
        Err(UrlError {
            input: "httpbin.org".to_string(),
            reason: "relative URL without a base".to_string(),
        })
    );
}

#[test]
fn empty_url_is_refused() {
    let e = parse_url("").unwrap_err();
    assert_eq!(e.input, "");
    assert_eq!(e.reason, "relative URL without a base");
}

#[test]
fn url_without_host_is_refused() {
    assert_eq!(parse_url("http://").unwrap_err().reason, "empty host");
}

#[test]
fn url_with_bad_port_is_refused() {
    assert_eq!(parse_url("http://example.com:port/").unwrap_err().reason, "invalid port number");
}

#[test]
fn verdict_follows_the_finding() {
    assert_eq!(url_verdict("x", None), Ok("x".to_string()));
    assert_eq!(
        url_verdict("x", Some("empty host".to_string())),
        Err(UrlError { input: "x".to_string(), reason: "empty host".to_string() })
    );
}
