use httpie::header::Header;
use httpie::media::MediaType;
use httpie::response::{body_text, headers_text, json_body_text};

fn coloured() {
    colored::control::set_override(true);
}

#[test]
fn header_names_are_green() {
    coloured();
    let headers = vec![
        Header::new("content-type", b"text/html", false).unwrap(),
        Header::new("date", b"now", false).unwrap(),
    ];
    assert_eq!(
        headers_text(&headers),
        "\x1b[32mcontent-type\x1b[0m: \"text/html\"\n\x1b[32mdate\x1b[0m: \"now\"\n\n"
    );
}

#[test]
fn masked_value_keeps_its_green_name() {
    coloured();
    let headers = vec![Header::new("set-cookie", b"id=1", true).unwrap()];
    assert_eq!(headers_text(&headers), "\x1b[32mset-cookie\x1b[0m: Sensitive\n\n");
}

#[test]
fn json_body_is_cyan() {
    coloured();
    assert_eq!(
        body_text(Some(MediaType::Json), "{\"a\":1}"),
        Ok("\x1b[36m{\n  \"a\": 1\n}\x1b[0m\n".to_string())
    );
}

#[test]
fn laid_out_json_is_cyan() {
    coloured();
    assert_eq!(json_body_text(Ok("[]".to_string())), Ok("\x1b[36m[]\x1b[0m\n".to_string()));
}

#[test]
fn other_body_is_never_coloured() {
    coloured();
    assert_eq!(body_text(Some(MediaType::Other), "{\"a\":1}"), Ok("{\"a\":1}\n".to_string()));
    assert_eq!(body_text(None, "plain"), Ok("plain\n".to_string()));
}
