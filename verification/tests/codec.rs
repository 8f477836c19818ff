use rust_webserver::HttpError;
use rust_webserver::HttpMethod;
use rust_webserver::HttpRequest;
use rust_webserver::HttpResponse;
use rust_webserver::HttpVersion;

fn bytes_to_string(b: Vec<u8>) -> String {
    String::from_utf8(b).expect("responses are valid UTF-8")
}

#[test]
fn parse_basic_request() {
    let text = "GET /about?x=1 HTTP/1.1\r\nHost: example.com\r\nAccept: text/html\r\n\r\nhello\r\nworld";
    let req = HttpRequest::from(text).expect("well-formed request");
    assert_eq!(req.method, HttpMethod::GET);
    assert_eq!(req.path, "/about");
    assert_eq!(req.query.len(), 1);
    assert_eq!(req.query[0].0, "x");
    assert_eq!(req.query[0].1, "1");
    assert_eq!(req.version, HttpVersion::HTTP11);
    assert_eq!(req.headers.len(), 2);
    assert_eq!(req.headers[0].0, "Host");
    assert_eq!(req.headers[0].1, "example.com");
    assert_eq!(req.headers[1].0, "Accept");
    assert_eq!(req.headers[1].1, "text/html");
    assert_eq!(req.body, "hello\r\nworld");
}

#[test]
fn parse_method_and_version_case_insensitive() {
    let req = HttpRequest::from("get / http/1.1\r\n\r\n").expect("well-formed");
    assert_eq!(req.method, HttpMethod::GET);
    assert_eq!(req.version, HttpVersion::HTTP11);
    let req = HttpRequest::from("post / http/2.0\r\n\r\n").expect("well-formed");
    assert_eq!(req.method, HttpMethod::POST);
    assert_eq!(req.version, HttpVersion::HTTP20);
}

#[test]
fn parse_unknown_tokens_map_to_uninitialized() {
    let req = HttpRequest::from("BREW / COFFEE/1.0\r\n\r\n").expect("well-formed");
    assert_eq!(req.method, HttpMethod::UNINITIALIZED);
    assert_eq!(req.version, HttpVersion::UNINITIALIZED);
}

#[test]
fn parse_empty_input_gives_uninitialized_request() {
    let req = HttpRequest::from("").expect("empty input parses");
    assert_eq!(req.method, HttpMethod::UNINITIALIZED);
    assert_eq!(req.version, HttpVersion::UNINITIALIZED);
    assert_eq!(req.path, "");
    assert_eq!(req.body, "");
    assert!(req.query.is_empty());
    assert!(req.headers.is_empty());
}

#[test]
fn parse_missing_token_is_error() {
    assert_eq!(HttpRequest::from("GET /\r\n\r\n").unwrap_err(), HttpError::MissingToken);
    assert_eq!(HttpRequest::from("GET\r\n").unwrap_err(), HttpError::MissingToken);
    assert_eq!(HttpRequest::from("\r\n").unwrap_err(), HttpError::MissingToken);
}

#[test]
fn parse_malformed_query_is_error() {
    assert_eq!(
        HttpRequest::from("GET /a?x HTTP/1.1\r\n\r\n").unwrap_err(),
        HttpError::MalformedQueryPair
    );
    assert_eq!(
        HttpRequest::from("GET /a? HTTP/1.1\r\n\r\n").unwrap_err(),
        HttpError::MalformedQueryPair
    );
    assert_eq!(
        HttpRequest::from("GET /a?x=1&y HTTP/1.1\r\n\r\n").unwrap_err(),
        HttpError::MalformedQueryPair
    );
}

#[test]
fn parse_query_value_stops_at_second_equals() {
    let req = HttpRequest::from("GET /a?x=1=2 HTTP/1.1\r\n\r\n").expect("well-formed");
    assert_eq!(req.query.len(), 1);
    assert_eq!(req.query[0].0, "x");
    assert_eq!(req.query[0].1, "1");
}

#[test]
fn parse_query_duplicate_key_last_wins() {
    let req = HttpRequest::from("GET /a?x=1&y=2&x=3 HTTP/1.1\r\n\r\n").expect("well-formed");
    assert_eq!(req.query.len(), 2);
    assert_eq!(req.query[0].0, "y");
    assert_eq!(req.query[0].1, "2");
    assert_eq!(req.query[1].0, "x");
    assert_eq!(req.query[1].1, "3");
}

#[test]
fn parse_header_without_colon_is_error() {
    assert_eq!(
        HttpRequest::from("GET / HTTP/1.1\r\nBadHeader\r\n\r\n").unwrap_err(),
        HttpError::MalformedHeader
    );
}

#[test]
fn parse_header_sides_are_trimmed() {
    let req = HttpRequest::from("GET / HTTP/1.1\r\n  Key  :  some value \r\n\r\n")
        .expect("well-formed");
    assert_eq!(req.headers.len(), 1);
    assert_eq!(req.headers[0].0, "Key");
    assert_eq!(req.headers[0].1, "some value");
}

#[test]
fn parse_duplicate_header_last_wins() {
    let req = HttpRequest::from("GET / HTTP/1.1\r\nHost: a\r\nOther: o\r\nHost: b\r\n\r\n")
        .expect("well-formed");
    assert_eq!(req.headers.len(), 2);
    assert_eq!(req.headers[0].0, "Other");
    assert_eq!(req.headers[1].0, "Host");
    assert_eq!(req.headers[1].1, "b");
}

#[test]
fn parse_without_blank_line_has_empty_body() {
    let req = HttpRequest::from("GET / HTTP/1.1\r\nHost: a").expect("well-formed");
    assert_eq!(req.headers.len(), 1);
    assert_eq!(req.body, "");
}

#[test]
fn encode_empty_headers_emits_exactly_one_default_content_type() {
    let resp = HttpResponse::from_status(404, None);
    let text = bytes_to_string(resp.as_bytes());
    assert_eq!(text, "HTTP/1.1 404 Not Found\r\nContent-Type: text/html\r\n\r\n");
    let head = text.split("\r\n\r\n").next().expect("has separator");
    assert_eq!(head.matches("Content-Type: text/html").count(), 1);
}

#[test]
fn encode_with_content_sets_status_and_header() {
    let resp = HttpResponse::with_content(
        HttpVersion::HTTP11,
        "text/css".to_string(),
        "body { color: red }".to_string(),
    );
    let text = bytes_to_string(resp.as_bytes());
    assert_eq!(
        text,
        "HTTP/1.1 200 OK\r\nContent-Type: text/css\r\n\r\nbody { color: red }"
    );
}

#[test]
fn encode_status_reasons_and_codes() {
    let forbidden = bytes_to_string(HttpResponse::from_status(403, None).as_bytes());
    assert!(forbidden.starts_with("HTTP/1.1 403 Forbidden\r\n"));
    let odd = bytes_to_string(HttpResponse::from_status(500, Some("oops".to_string())).as_bytes());
    assert_eq!(odd, "HTTP/1.1 500 Unknown\r\nContent-Type: text/html\r\n\r\noops");
    let large = bytes_to_string(HttpResponse::from_status(65535, None).as_bytes());
    assert!(large.starts_with("HTTP/1.1 65535 Unknown\r\n"));
}

#[test]
fn decode_then_encode_preserves_version_token() {
    let req = HttpRequest::from("GET /x.html HTTP/1.0\r\n\r\n").expect("well-formed");
    let resp = HttpResponse::with_content(
        req.version,
        "text/html".to_string(),
        "<p>hi</p>".to_string(),
    );
    let text = bytes_to_string(resp.as_bytes());
    assert!(text.starts_with("HTTP/1.0 "));
}

#[test]
fn default_response_is_blank() {
    let resp = HttpResponse::default();
    assert_eq!(resp.version, HttpVersion::UNINITIALIZED);
    assert_eq!(resp.status_code, "");
    assert_eq!(resp.status_text, "");
    assert!(resp.headers.is_empty());
    assert!(resp.body.is_none());
}
