use httpie::kv::{parse_kv_pair, KVPair};
use httpie::request::body_fields;

fn pair(k: &str, v: &str) -> KVPair {
    KVPair { k: k.to_string(), v: v.to_string() }
}

#[test]
fn body_of_no_pairs_is_empty() {
    assert_eq!(body_fields(&Vec::new()), Vec::new());
}

#[test]
fn body_keeps_distinct_pairs_in_order() {
    let pairs = vec![pair("b", "2"), pair("a", "1"), pair("c", "3")];
    assert_eq!(body_fields(&pairs), pairs);
}

#[test]
fn later_value_replaces_earlier() {
    let pairs = vec![pair("a", "1"), pair("b", "2"), pair("a", "3")];
    assert_eq!(body_fields(&pairs), vec![pair("a", "3"), pair("b", "2")]);
}

#[test]
fn repeated_key_stays_where_it_came_first() {
    let pairs = vec![pair("x", "1"), pair("y", "2"), pair("y", "3"), pair("x", "4"), pair("z", "5")];
    assert_eq!(body_fields(&pairs), vec![pair("x", "4"), pair("y", "3"), pair("z", "5")]);
}

#[test]
fn body_has_each_key_once() {
    let pairs = vec![pair("k", "1"), pair("k", "2"), pair("k", "3")];
    assert_eq!(body_fields(&pairs), vec![pair("k", "3")]);
}

#[test]
fn body_of_parsed_tokens() {
    let pairs: Vec<KVPair> =
        ["greeting=hola", "name=Tyr", "greeting=hi=there"].iter().map(|t| parse_kv_pair(t).unwrap()).collect();
    assert_eq!(body_fields(&pairs), vec![pair("greeting", "hi=there"), pair("name", "Tyr")]);
}
