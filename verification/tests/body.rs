use httpie::args::KvPair;
use httpie::body::assemble_body;

fn pair(k: &str, v: &str) -> KvPair {
    KvPair { k: k.to_string(), v: v.to_string() }
}

#[test]
fn empty_list_gives_empty_object() {
    let pairs: Vec<KvPair> = vec![];
    assert_eq!(assemble_body(&pairs), "{}");
}

#[test]
fn single_pair() {
    let pairs = vec![pair("a", "1")];
    assert_eq!(assemble_body(&pairs), "{\"a\":\"1\"}");
}

#[test]
fn values_stay_strings() {
    let pairs = vec![pair("a", "1"), pair("b", "2")];
    assert_eq!(assemble_body(&pairs), "{\"a\":\"1\",\"b\":\"2\"}");
}

#[test]
fn duplicate_keys_collapse_to_last_value() {
    let pairs = vec![pair("x", "1"), pair("y", "7"), pair("x", "2")];
    assert_eq!(assemble_body(&pairs), "{\"x\":\"2\",\"y\":\"7\"}");
}

#[test]
fn quotes_and_backslashes_are_escaped() {
    let pairs = vec![pair("msg", "say \"hi\" \\ bye")];
    assert_eq!(assemble_body(&pairs), "{\"msg\":\"say \\\"hi\\\" \\\\ bye\"}");
}

#[test]
fn control_characters_are_escaped() {
    let pairs = vec![pair("t", "a\nb\tc\rd\u{1}e")];
    assert_eq!(assemble_body(&pairs), "{\"t\":\"a\\nb\\tc\\rd\\u0001e\"}");
}

#[test]
fn escaping_applies_to_keys_too() {
    let pairs = vec![pair("a\"b", "v")];
    assert_eq!(assemble_body(&pairs), "{\"a\\\"b\":\"v\"}");
}

#[test]
fn unicode_passes_through() {
    let pairs = vec![pair("k", "héllo ✓")];
    assert_eq!(assemble_body(&pairs), "{\"k\":\"héllo ✓\"}");
}
