use rust_webserver::ContentType;
use rust_webserver::HttpRequest;
use rust_webserver::HttpRequestHandler;
use rust_webserver::HttpVersion;
use rust_webserver::Route;
use rust_webserver::Router;
use rust_webserver::ServePlan;

#[test]
fn traversal_after_first_character_is_rejected() {
    let req = HttpRequest::from("GET /a/../b HTTP/1.1\r\n\r\n").expect("well-formed");
    let plan = HttpRequestHandler::new(req).handle();
    assert!(matches!(plan, ServePlan::Reject(403)));
}

#[test]
fn traversal_anywhere_after_start_is_rejected() {
    let req = HttpRequest::from("GET /.. HTTP/1.1\r\n\r\n").expect("well-formed");
    let plan = HttpRequestHandler::new(req).handle();
    assert!(matches!(plan, ServePlan::Reject(403)));
}

#[test]
fn leading_double_dot_alone_is_not_blocked() {
    let req = HttpRequest::from("GET ..x HTTP/1.1\r\n\r\n").expect("well-formed");
    let plan = HttpRequestHandler::new(req).handle();
    match plan {
        ServePlan::Probe(path) => assert_eq!(path, "public/..x"),
        ServePlan::Reject(code) => panic!("unexpected rejection {}", code),
    }
}

#[test]
fn non_get_is_rejected_with_501() {
    let req = HttpRequest::from("POST /x HTTP/1.1\r\n\r\n").expect("well-formed");
    let plan = HttpRequestHandler::new(req).handle();
    assert!(matches!(plan, ServePlan::Reject(501)));
    let req = HttpRequest::from("BREW /x HTTP/1.1\r\n\r\n").expect("well-formed");
    let plan = HttpRequestHandler::new(req).handle();
    assert!(matches!(plan, ServePlan::Reject(501)));
}

#[test]
fn classification_goes_by_text_after_first_dot() {
    let classify = HttpRequestHandler::get_response_file_content;
    assert!(matches!(classify("public/a.html".to_string()), Some(ContentType::HTML)));
    assert!(matches!(classify("public/style.css".to_string()), Some(ContentType::CSS)));
    assert!(matches!(classify("public/app.js".to_string()), Some(ContentType::JS)));
    assert!(classify("public/notes.txt".to_string()).is_none());
    assert!(classify("public/noextension".to_string()).is_none());
    assert!(classify("public/a.b.html".to_string()).is_none());
}

#[test]
fn directories_resolve_to_their_index() {
    assert_eq!(
        HttpRequestHandler::resolve_dir("public/docs".to_string(), true),
        "public/docs/index.html"
    );
    assert_eq!(
        HttpRequestHandler::resolve_dir("public/a.html".to_string(), false),
        "public/a.html"
    );
}

#[test]
fn unrouted_request_serves_existing_file_with_its_content_type() {
    // The end-to-end path of one connection, with the file system played by
    // this test: request, no matching route, probe, classify, serve.
    let req = HttpRequest::from("GET /about.html?x=1 HTTP/1.1\r\n\r\n").expect("well-formed");
    let router: Router<u32> = Router::new(Vec::<Route<u32>>::new());
    assert!(router.get_handler(&req.path).is_none());
    let version = req.version;
    let plan = HttpRequestHandler::new(req).handle();
    let probe = match plan {
        ServePlan::Probe(p) => p,
        ServePlan::Reject(code) => panic!("unexpected rejection {}", code),
    };
    assert_eq!(probe, "public/about.html");
    let resolved = HttpRequestHandler::resolve_dir(probe, false);
    let content_type = HttpRequestHandler::get_response_file_content(resolved);
    let contents = "<h1>about</h1>".to_string();
    let resp = HttpRequestHandler::finish_probe(
        version,
        content_type,
        Some(contents.clone()),
        None,
    );
    assert_eq!(resp.status_code, "200");
    assert_eq!(resp.headers.len(), 1);
    assert_eq!(resp.headers[0].0, "Content-Type");
    assert_eq!(resp.headers[0].1, "text/html");
    assert_eq!(resp.body, Some(contents));
    let text = String::from_utf8(resp.as_bytes()).expect("valid UTF-8");
    assert!(!text.contains("text/css"));
    assert!(text.starts_with("HTTP/1.1 200 OK\r\n"));
}

#[test]
fn unknown_extension_yields_404_with_status_page_body() {
    let req = HttpRequest::from("GET /notes.txt HTTP/1.1\r\n\r\n").expect("well-formed");
    let version = req.version;
    let plan = HttpRequestHandler::new(req).handle();
    let probe = match plan {
        ServePlan::Probe(p) => p,
        ServePlan::Reject(code) => panic!("unexpected rejection {}", code),
    };
    let resolved = HttpRequestHandler::resolve_dir(probe, false);
    let content_type = HttpRequestHandler::get_response_file_content(resolved);
    assert!(content_type.is_none());
    let page = "<h1>not found</h1>".to_string();
    let resp = HttpRequestHandler::finish_probe(version, content_type, None, Some(page.clone()));
    assert_eq!(resp.status_code, "404");
    assert_eq!(resp.status_text, "Not Found");
    assert!(resp.headers.is_empty());
    assert_eq!(resp.body, Some(page));
}

#[test]
fn missing_status_page_yields_404_with_empty_body() {
    let resp = HttpRequestHandler::finish_probe(HttpVersion::HTTP11, None, None, None);
    assert_eq!(resp.status_code, "404");
    assert!(resp.body.is_none());
    let text = String::from_utf8(resp.as_bytes()).expect("valid UTF-8");
    assert_eq!(text, "HTTP/1.1 404 Not Found\r\nContent-Type: text/html\r\n\r\n");
}
