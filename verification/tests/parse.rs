use workplate::parse::extract_code;

#[test]
fn wellformed_line_extracts_value() {
    let r = extract_code("GET /callback?state=abc&code=XYZ&foo=bar HTTP/1.1");
    assert_eq!(r, Some("XYZ".to_string()));
}

#[test]
fn concrete_redirect_extracts_code() {
    let r = extract_code("GET /?code=abc123&state=xyz HTTP/1.1");
    assert_eq!(r, Some("abc123".to_string()));
}

#[test]
fn concrete_redirect_with_crlf_extracts_code() {
    let r = extract_code("GET /?code=abc123&state=xyz HTTP/1.1\r\n");
    assert_eq!(r, Some("abc123".to_string()));
}

#[test]
fn line_without_code_yields_none() {
    assert_eq!(extract_code("GET /?state=abc HTTP/1.1"), None);
}

#[test]
fn first_of_two_codes_wins() {
    let r = extract_code("GET /?code=first&code=second HTTP/1.1");
    assert_eq!(r, Some("first".to_string()));
}

#[test]
fn first_of_two_codes_wins_on_a_callback_target() {
    let r = extract_code("GET /callback?code=first&code=second HTTP/1.1");
    assert_eq!(r, Some("first".to_string()));
}

#[test]
fn value_is_taken_verbatim_not_decoded() {
    let r = extract_code("GET /?code=a%2Fb%3D&state=x HTTP/1.1");
    assert_eq!(r, Some("a%2Fb%3D".to_string()));
}

#[test]
fn empty_value_is_extracted_empty() {
    let r = extract_code("GET /?code=&state=x HTTP/1.1");
    assert_eq!(r, Some("".to_string()));
}

#[test]
fn code_key_without_equals_yields_none() {
    assert_eq!(extract_code("GET /?code HTTP/1.1"), None);
    assert_eq!(extract_code("GET /?code&state=x HTTP/1.1"), None);
}

#[test]
fn key_must_be_exactly_code() {
    assert_eq!(extract_code("GET /?codex=1 HTTP/1.1"), None);
    assert_eq!(extract_code("GET /?xcode=1 HTTP/1.1"), None);
    assert_eq!(extract_code("GET /?cod=1 HTTP/1.1"), None);
}

#[test]
fn target_without_query_yields_none() {
    assert_eq!(extract_code("GET / HTTP/1.1"), None);
    assert_eq!(extract_code("GET /callback HTTP/1.1"), None);
}

#[test]
fn query_starts_after_first_question_mark() {
    // a later `?` stays inside the value, verbatim
    let r = extract_code("GET /?code=x?y HTTP/1.1");
    assert_eq!(r, Some("x?y".to_string()));
}

#[test]
fn too_short_lines_yield_none() {
    assert_eq!(extract_code(""), None);
    assert_eq!(extract_code("GET"), None);
    assert_eq!(extract_code("   "), None);
    assert_eq!(extract_code("  GET  "), None);
}

#[test]
fn leading_whitespace_is_skipped() {
    let r = extract_code("  GET   /?code=ok HTTP/1.1");
    assert_eq!(r, Some("ok".to_string()));
}

#[test]
fn later_pair_is_found_after_non_matching_ones() {
    let r = extract_code("GET /cb?a=1&b=2&code=deep&c=3 HTTP/1.1");
    assert_eq!(r, Some("deep".to_string()));
}
