use httpie::render::render_response;
use httpie::render::ResponseView;
use httpie::render::Style;

fn view(
    status: u16,
    reason: &str,
    headers: Vec<(String, String)>,
    body: &str,
) -> ResponseView {
    ResponseView {
        version: "HTTP/1.1".to_string(),
        status,
        reason: reason.to_string(),
        headers,
        body: body.to_string(),
    }
}

fn header(name: &str, value: &str) -> (String, String) {
    (name.to_string(), value.to_string())
}

fn full_text(segs: &[httpie::render::Segment]) -> String {
    let mut out = String::new();
    for s in segs {
        out.push_str(&s.text);
    }
    out
}

#[test]
fn status_line_with_reason() {
    let segs = render_response(&view(200, "OK", vec![], "")).unwrap();
    assert_eq!(segs[0].style, Style::Status);
    assert_eq!(segs[0].text, "HTTP/1.1 200 OK");
    assert_eq!(segs[1].style, Style::Plain);
    assert_eq!(segs[1].text, "\n\n");
}

#[test]
fn status_line_without_reason() {
    let segs = render_response(&view(599, "", vec![], "")).unwrap();
    assert_eq!(segs[0].text, "HTTP/1.1 599");
}

#[test]
fn header_lines_keep_response_order() {
    let segs = render_response(&view(
        200,
        "OK",
        vec![header("x-first", "1"), header("x-second", "2")],
        "",
    ))
    .unwrap();
    assert_eq!(segs[2].style, Style::HeaderName);
    assert_eq!(segs[2].text, "x-first");
    assert_eq!(segs[3].style, Style::Plain);
    assert_eq!(segs[3].text, ": 1\n");
    assert_eq!(segs[4].text, "x-second");
    assert_eq!(segs[5].text, ": 2\n");
    assert_eq!(segs[6].text, "\n");
}

#[test]
fn plain_text_body_is_printed_verbatim() {
    let segs = render_response(&view(
        200,
        "OK",
        vec![header("content-type", "text/plain")],
        "hello",
    ))
    .unwrap();
    let last = segs.last().unwrap();
    assert_eq!(last.style, Style::Plain);
    assert_eq!(last.text, "hello\n");
    assert!(segs.iter().all(|s| s.style != Style::Json));
}

#[test]
fn missing_content_type_prints_body_verbatim() {
    let segs = render_response(&view(200, "OK", vec![], "{\"a\":1}")).unwrap();
    let last = segs.last().unwrap();
    assert_eq!(last.style, Style::Plain);
    assert_eq!(last.text, "{\"a\":1}\n");
}

#[test]
fn json_body_is_pretty_printed() {
    let segs = render_response(&view(
        200,
        "OK",
        vec![header("content-type", "application/json")],
        "{\"a\":1}",
    ))
    .unwrap();
    let last = segs.last().unwrap();
    assert_eq!(last.style, Style::Json);
    assert_eq!(last.text, "{\n  \"a\": 1\n}\n");
}

#[test]
fn json_round_trip_is_multiline_and_indented() {
    let segs = render_response(&view(
        200,
        "OK",
        vec![header("content-type", "application/json")],
        "{\"a\":\"1\",\"b\":\"2\"}",
    ))
    .unwrap();
    let last = segs.last().unwrap();
    assert_eq!(last.style, Style::Json);
    assert_ne!(last.text.trim_end(), "{\"a\":\"1\",\"b\":\"2\"}");
    assert!(last.text.contains("\n  \"a\": \"1\",\n"));
    assert!(last.text.contains("\n  \"b\": \"2\"\n"));
}

#[test]
fn content_type_parameters_are_ignored() {
    let segs = render_response(&view(
        200,
        "OK",
        vec![header("content-type", "application/json; charset=utf-8")],
        "[1,2]",
    ))
    .unwrap();
    assert_eq!(segs.last().unwrap().style, Style::Json);
}

#[test]
fn content_type_header_name_is_case_insensitive() {
    let segs = render_response(&view(
        200,
        "OK",
        vec![header("Content-Type", "application/json")],
        "[]",
    ))
    .unwrap();
    assert_eq!(segs.last().unwrap().style, Style::Json);
}

#[test]
fn first_content_type_header_wins() {
    let segs = render_response(&view(
        200,
        "OK",
        vec![
            header("content-type", "text/plain"),
            header("content-type", "application/json"),
        ],
        "[]",
    ))
    .unwrap();
    assert_eq!(segs.last().unwrap().style, Style::Plain);
}

#[test]
fn unparsable_content_type_prints_body_verbatim() {
    let segs = render_response(&view(
        200,
        "OK",
        vec![header("content-type", "???")],
        "x",
    ))
    .unwrap();
    assert_eq!(segs.last().unwrap().style, Style::Plain);
    assert_eq!(segs.last().unwrap().text, "x\n");
}

#[test]
fn status_line_with_largest_code() {
    let segs = render_response(&view(65535, "", vec![], "")).unwrap();
    assert_eq!(segs[0].text, "HTTP/1.1 65535");
}

#[test]
fn render_error_message_carries_reason() {
    let e = httpie::render::RenderError::InvalidJson("bad".to_string());
    assert!(e.message().contains("bad"));
}

#[test]
fn post_body_echo_round_trip_is_pretty_printed() {
    let tokens = vec!["a=1".to_string(), "b=2".to_string()];
    let spec = httpie::args::plan_post("https://example.test/echo", &tokens).unwrap();
    let echoed = spec.body.unwrap();
    assert_eq!(echoed, "{\"a\":\"1\",\"b\":\"2\"}");
    let segs = render_response(&view(
        200,
        "OK",
        vec![header("content-type", "application/json")],
        &echoed,
    ))
    .unwrap();
    let last = segs.last().unwrap();
    assert_eq!(last.style, Style::Json);
    assert_eq!(last.text, "{\n  \"a\": \"1\",\n  \"b\": \"2\"\n}\n");
}

#[test]
fn get_response_end_to_end() {
    let spec = httpie::args::plan_get("https://example.test/ok").unwrap();
    assert_eq!(spec.url, "https://example.test/ok");
    let segs = render_response(&view(
        200,
        "OK",
        vec![header("x-test", "1"), header("content-type", "application/json")],
        "{\"a\":1}",
    ))
    .unwrap();
    let text = full_text(&segs);
    assert!(text.contains("200"));
    assert!(text.contains("x-test: 1"));
    assert!(text.contains("{\n  \"a\": 1\n}"));
}
