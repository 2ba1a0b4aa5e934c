use httpie::args::CliError;
use httpie::args::Method;
use httpie::args::parse_kv_pair;
use httpie::args::parse_url;
use httpie::args::plan_get;
use httpie::args::plan_post;

#[test]
fn parse_url_accepts_absolute_url() {
    let r = parse_url("https://example.test/ok").unwrap();
    assert_eq!(r, "https://example.test/ok");
}

#[test]
fn parse_url_rejects_invalid() {
    match parse_url("not a url") {
        Err(CliError::InvalidUrl(t)) => assert_eq!(t, "not a url"),
        other => panic!("expected an invalid-URL error, got {:?}", other.is_ok()),
    }
}

#[test]
fn parse_url_rejects_missing_scheme() {
    assert!(parse_url("example.test/x").is_err());
}

#[test]
fn parse_url_error_message_names_input() {
    let e = parse_url("://nope").unwrap_err();
    assert!(e.message().contains("://nope"));
}

#[test]
fn parse_kv_pair_splits_at_first_eq() {
    let p = parse_kv_pair("a=b=c").unwrap();
    assert_eq!(p.k, "a");
    assert_eq!(p.v, "b=c");
}

#[test]
fn parse_kv_pair_plain_pair() {
    let p = parse_kv_pair("name=value").unwrap();
    assert_eq!(p.k, "name");
    assert_eq!(p.v, "value");
}

#[test]
fn parse_kv_pair_rejects_token_without_eq() {
    match parse_kv_pair("abc") {
        Err(CliError::InvalidPair(t)) => assert_eq!(t, "abc"),
        _ => panic!("expected an invalid-pair error"),
    }
}

#[test]
fn parse_kv_pair_error_message_names_token() {
    let e = parse_kv_pair("oops").unwrap_err();
    assert!(e.message().contains("oops"));
}

#[test]
fn parse_kv_pair_empty_key_and_value() {
    let p = parse_kv_pair("=x").unwrap();
    assert_eq!(p.k, "");
    assert_eq!(p.v, "x");
    let q = parse_kv_pair("k=").unwrap();
    assert_eq!(q.k, "k");
    assert_eq!(q.v, "");
}

#[test]
fn plan_get_builds_get_without_body() {
    let spec = plan_get("https://example.test/ok").unwrap();
    assert_eq!(spec.method, Method::Get);
    assert_eq!(spec.url, "https://example.test/ok");
    assert!(spec.body.is_none());
}

#[test]
fn plan_get_rejects_invalid_url() {
    assert!(plan_get("not a url").is_err());
}

#[test]
fn plan_post_assembles_json_body() {
    let tokens = vec!["a=1".to_string(), "b=2".to_string()];
    let spec = plan_post("https://example.test/echo", &tokens).unwrap();
    assert_eq!(spec.method, Method::Post);
    assert_eq!(spec.url, "https://example.test/echo");
    assert_eq!(spec.body.unwrap(), "{\"a\":\"1\",\"b\":\"2\"}");
}

#[test]
fn plan_post_empty_tokens_give_empty_object() {
    let tokens: Vec<String> = vec![];
    let spec = plan_post("https://example.test/echo", &tokens).unwrap();
    assert_eq!(spec.body.unwrap(), "{}");
}

#[test]
fn plan_post_duplicate_keys_last_wins() {
    let tokens = vec!["x=1".to_string(), "x=2".to_string()];
    let spec = plan_post("https://example.test/echo", &tokens).unwrap();
    assert_eq!(spec.body.unwrap(), "{\"x\":\"2\"}");
}

#[test]
fn plan_post_reports_first_bad_token() {
    let tokens = vec!["a=1".to_string(), "bad".to_string(), "also-bad".to_string()];
    match plan_post("https://example.test/echo", &tokens) {
        Err(CliError::InvalidPair(t)) => assert_eq!(t, "bad"),
        _ => panic!("expected an invalid-pair error"),
    }
}

#[test]
fn plan_post_checks_url_before_tokens() {
    let tokens = vec!["bad".to_string()];
    match plan_post("not a url", &tokens) {
        Err(CliError::InvalidUrl(t)) => assert_eq!(t, "not a url"),
        _ => panic!("expected an invalid-URL error"),
    }
}
