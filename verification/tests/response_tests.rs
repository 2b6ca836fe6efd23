use http_proxy::error::HttpError;
use http_proxy::message::Http;
use http_proxy::response::HttpResponse;

#[test]
fn test_response_parse_close_delimited() {
    let input = b"HTTP/1.1 200 OK\r\nContent-Type: text/plain\r\n\r\nhello there".to_vec();
    let resp = HttpResponse::parse(&input).unwrap();
    assert_eq!(resp.version, "HTTP/1.1");
    assert_eq!(resp.code, 200);
    assert_eq!(resp.reason, "OK");
    assert_eq!(resp.headers.get("content-type").unwrap(), "text/plain");
    assert_eq!(resp.body, Some(b"hello there".to_vec()));
}

#[test]
fn test_response_reason_keeps_spaces() {
    let input = b"HTTP/1.1 404 Not Found\r\n\r\n".to_vec();
    let resp = HttpResponse::parse(&input).unwrap();
    assert_eq!(resp.code, 404);
    assert_eq!(resp.reason, "Not Found");
    assert_eq!(resp.body, Some(Vec::new()));
}

#[test]
fn test_response_malformed_status_line() {
    let r = HttpResponse::parse(&b"HTTP/1.1 200\r\n\r\n".to_vec());
    assert!(matches!(r, Err(HttpError::MalformedStatusLine(_))));
    let r = HttpResponse::parse(&b"\r\n".to_vec());
    assert!(matches!(r, Err(HttpError::MalformedStatusLine(_))));
    let r = HttpResponse::parse(&b"HTTP/1.1 12345678 Too Big\r\n\r\n".to_vec());
    assert!(matches!(r, Err(HttpError::MalformedStatusLine(_))));
    let r = HttpResponse::parse(&b"\xff\xfe 200 OK\r\n\r\n".to_vec());
    assert!(matches!(r, Err(HttpError::MalformedStatusLine(_))));
}

#[test]
fn test_response_header_casing_dedup() {
    let input = b"HTTP/1.1 200 OK\r\nHost: X\r\nHOST: Y\r\n\r\n".to_vec();
    let resp = HttpResponse::parse(&input).unwrap();
    assert_eq!(resp.headers.len(), 1);
    assert_eq!(resp.headers.get("host").unwrap(), "Y");
}

#[test]
fn test_response_non_ascii_header_value() {
    let input = b"HTTP/1.1 200 OK\r\nX-Name: caf\xc3\xa9\r\n\r\n".to_vec();
    let resp = HttpResponse::parse(&input).unwrap();
    assert_eq!(resp.headers.get("x-name").unwrap(), "caf\u{e9}");
}

#[test]
fn test_chunked_decode_body() {
    let input =
        b"HTTP/1.1 200 OK\r\nTransfer-Encoding: chunked\r\n\r\n4\r\nWiki\r\n5\r\npedia\r\n0\r\n\r\n"
            .to_vec();
    let resp = HttpResponse::parse(&input).unwrap();
    assert_eq!(resp.body, Some(b"Wikipedia".to_vec()));
}

#[test]
fn test_chunked_decode_direct() {
    let input = b"4\r\nWiki\r\n5\r\npedia\r\n0\r\n\r\n".to_vec();
    let body = HttpResponse::decode_chunked(&input, 0).unwrap();
    assert_eq!(body, b"Wikipedia".to_vec());
}

#[test]
fn test_chunked_invalid_size() {
    let input = b"zz\r\nWiki\r\n0\r\n\r\n".to_vec();
    let r = HttpResponse::decode_chunked(&input, 0);
    match r {
        Err(HttpError::InvalidChunkSize(m)) => assert_eq!(m, "Invalid chunk size: 'zz'"),
        _ => panic!("expected the chunk-size error"),
    }
}

#[test]
fn test_chunked_missing_terminator() {
    let input = b"4\r\nWikiXX5\r\npedia\r\n0\r\n\r\n".to_vec();
    let r = HttpResponse::decode_chunked(&input, 0);
    match r {
        Err(HttpError::MissingChunkTerminator(m)) => {
            assert_eq!(m, "Expected CRLF after chunk, got [88, 88]")
        },
        _ => panic!("expected the terminator error"),
    }
}

#[test]
fn test_chunked_truncated_stream() {
    let input = b"ff\r\nonly a few bytes".to_vec();
    let r = HttpResponse::decode_chunked(&input, 0);
    assert!(matches!(r, Err(HttpError::MissingChunkTerminator(_))));
}

#[test]
fn test_chunked_trailers_discarded() {
    let input =
        b"HTTP/1.1 200 OK\r\nTransfer-Encoding: chunked\r\n\r\n4\r\nWiki\r\n0\r\nX-Trailer: v\r\n\r\n"
            .to_vec();
    let resp = HttpResponse::parse(&input).unwrap();
    assert_eq!(resp.body, Some(b"Wiki".to_vec()));
    assert!(resp.headers.get("x-trailer").is_none());
    assert_eq!(resp.headers.len(), 1);
}

#[test]
fn test_serialization_strips_transfer_encoding() {
    let input =
        b"HTTP/1.1 200 OK\r\nTransfer-Encoding: chunked\r\n\r\n4\r\nWiki\r\n5\r\npedia\r\n0\r\n\r\n"
            .to_vec();
    let resp = HttpResponse::parse(&input).unwrap();
    let bytes = resp.to_bytes();
    assert_eq!(
        bytes,
        b"HTTP/1.1 200 OK\r\nContent-Length: 9\r\n\r\nWikipedia".to_vec()
    );
}

#[test]
fn test_serialization_keeps_explicit_content_length() {
    let input = b"HTTP/1.1 200 OK\r\nContent-Length: 2\r\n\r\nab".to_vec();
    let resp = HttpResponse::parse(&input).unwrap();
    let bytes = resp.to_bytes();
    assert_eq!(bytes, b"HTTP/1.1 200 OK\r\ncontent-length: 2\r\n\r\nab".to_vec());
}

#[test]
fn test_response_getters() {
    let input = b"HTTP/1.1 204 No Content\r\n\r\n".to_vec();
    let resp = HttpResponse::parse(&input).unwrap();
    assert_eq!(resp.get_first_line(), "HTTP/1.1 204 No Content");
    assert_eq!(resp.get_body(), Some(Vec::new()));
    assert_eq!(resp.get_headers().len(), 0);
}
