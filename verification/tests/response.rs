use workplate::response::confirmation_response;

const BODY: &str = "<html><body><h1>Connected!</h1><p>You can close this tab and return to the application.</p></body></html>";

#[test]
fn response_is_the_fixed_page() {
    let expected = format!(
        "HTTP/1.1 200 OK\r\nContent-Type: text/html\r\nContent-Length: {}\r\nConnection: close\r\n\r\n{}",
        BODY.len(),
        BODY
    );
    assert_eq!(confirmation_response(), expected);
}

#[test]
fn response_body_confirms_success() {
    assert!(confirmation_response().contains("Connected!"));
}

#[test]
fn content_length_matches_body_bytes() {
    let resp = confirmation_response();
    let (head, body) = resp.split_once("\r\n\r\n").expect("header/body separator");
    let mut length: Option<usize> = None;
    for line in head.split("\r\n") {
        if let Some(v) = line.strip_prefix("Content-Length: ") {
            length = v.parse().ok();
        }
    }
    assert_eq!(length, Some(body.as_bytes().len()));
}

#[test]
fn response_headers_close_the_connection() {
    let resp = confirmation_response();
    assert!(resp.starts_with("HTTP/1.1 200 OK\r\n"));
    assert!(resp.contains("\r\nConnection: close\r\n"));
    assert!(resp.contains("\r\nContent-Type: text/html\r\n"));
}
