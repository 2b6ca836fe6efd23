use http_proxy::error::HttpError;
use http_proxy::headers::HeaderMap;
use http_proxy::message::Http;
use http_proxy::request::HttpRequest;

#[test]
fn test_request_parse_and_rewrite() {
    let head = "GET /page HTTP/1.1\r\nAccept: text/html\r\nX-Proxy-Destination: http://example.com:8080/x\r\n\r\n";
    let req = HttpRequest::parse(head, &None).unwrap();
    assert_eq!(req.method, "GET");
    assert_eq!(req.path, "/page");
    assert_eq!(req.version, "HTTP/1.1");
    assert_eq!(req.destination.hostname, "example.com");
    assert_eq!(req.destination.port, 8080);
    assert!(req.body.is_none());
    // the reserved header is gone; host and connection are rewritten
    assert!(!req.headers.contains_key("x-proxy-destination"));
    assert_eq!(req.headers.get("host").unwrap(), "example.com");
    assert_eq!(req.headers.get("connection").unwrap(), "close");
    assert_eq!(req.headers.get("accept").unwrap(), "text/html");
}

#[test]
fn test_request_default_destination() {
    let head = "GET / HTTP/1.1\r\n\r\n";
    let default = Some("https://fallback.example:9443".to_string());
    let req = HttpRequest::parse(head, &default).unwrap();
    assert_eq!(req.destination.hostname, "fallback.example");
    assert_eq!(req.destination.port, 9443);
    assert_eq!(req.headers.get("host").unwrap(), "fallback.example");
}

#[test]
fn test_request_no_destination() {
    let r = HttpRequest::parse("GET / HTTP/1.1\r\n\r\n", &None);
    match r {
        Err(HttpError::NoDestination(m)) => assert_eq!(m, "No destination found"),
        _ => panic!("expected the missing-destination error"),
    }
}

#[test]
fn test_request_bad_destination() {
    let head = "GET / HTTP/1.1\r\nX-Proxy-Destination: invalid-url\r\n\r\n";
    let r = HttpRequest::parse(head, &None);
    match r {
        Err(HttpError::DestinationError(m)) => {
            assert_eq!(m, "Missing protocol in URL: invalid-url")
        },
        _ => panic!("expected the destination error"),
    }
}

#[test]
fn test_request_malformed_line() {
    let r = HttpRequest::parse("GET /\r\nHost: x\r\n\r\n", &None);
    assert!(matches!(r, Err(HttpError::MalformedRequestLine(_))));
    let r = HttpRequest::parse("GET / HTTP/1.1 extra\r\n\r\n", &None);
    assert!(matches!(r, Err(HttpError::MalformedRequestLine(_))));
    let r = HttpRequest::parse("", &None);
    assert!(matches!(r, Err(HttpError::MalformedRequestLine(_))));
}

#[test]
fn test_request_header_lines_without_colon_skipped() {
    let head =
        "GET / HTTP/1.1\r\nthis line has no colon\r\nAccept: */*\r\nX-Proxy-Destination: http://h\r\n\r\n";
    let req = HttpRequest::parse(head, &None).unwrap();
    assert_eq!(req.headers.get("accept").unwrap(), "*/*");
    assert!(req.headers.get("this line has no colon").is_none());
}

#[test]
fn test_request_serialization() {
    let head = "GET / HTTP/1.1\r\nAccept: text/html\r\nX-Proxy-Destination: http://example.com\r\n\r\n";
    let req = HttpRequest::parse(head, &None).unwrap();
    let bytes = req.to_bytes();
    assert_eq!(
        bytes,
        b"GET / HTTP/1.1\r\naccept: text/html\r\nhost: example.com\r\nconnection: close\r\n\r\n"
            .to_vec()
    );
}

#[test]
fn test_get_destination_direct() {
    let mut hs = HeaderMap::new();
    hs.insert("x-proxy-destination".to_string(), "https://h:1".to_string());
    let url = HttpRequest::get_destination(&hs, &None).unwrap();
    assert_eq!(url.hostname, "h");
    assert_eq!(url.port, 1);

    let empty = HeaderMap::new();
    let r = HttpRequest::get_destination(&empty, &None);
    assert_eq!(r.unwrap_err(), "No destination found");
}

#[test]
fn test_header_destination_preferred_over_default() {
    let head = "GET / HTTP/1.1\r\nX-Proxy-Destination: http://from-header\r\n\r\n";
    let default = Some("http://from-default".to_string());
    let req = HttpRequest::parse(head, &default).unwrap();
    assert_eq!(req.destination.hostname, "from-header");
}

#[test]
fn test_request_serialization_strips_transfer_encoding() {
    let head =
        "GET / HTTP/1.1\r\nTransfer-Encoding: chunked\r\nX-Proxy-Destination: http://h\r\n\r\n";
    let req = HttpRequest::parse(head, &None).unwrap();
    let bytes = req.to_bytes();
    assert_eq!(
        bytes,
        b"GET / HTTP/1.1\r\nhost: h\r\nconnection: close\r\n\r\n".to_vec()
    );
}

#[test]
fn test_request_getters() {
    let head = "POST /submit HTTP/1.1\r\nX-Proxy-Destination: http://h:1234\r\n\r\n";
    let req = HttpRequest::parse(head, &None).unwrap();
    assert_eq!(req.get_first_line(), "POST /submit HTTP/1.1");
    assert!(req.get_body().is_none());
    let hs = req.get_headers();
    assert_eq!(hs.len(), 2);
    assert_eq!(hs.get("host").unwrap(), "h");
}
