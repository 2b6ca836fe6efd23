use http_proxy::error::HttpError;
use http_proxy::proxy::{
    bad_gateway_response, build_simple_response, Forwarder, ProxyAction, ProxyState, ProxyEvent,
    HEADER_PROXY_DESTINATION,
};
use http_proxy::request::HttpRequest;
use http_proxy::response::HttpResponse;

#[test]
fn test_destination_header_name() {
    assert_eq!(HEADER_PROXY_DESTINATION, "x-proxy-destination");
}

#[test]
fn test_build_simple_response() {
    let bytes = build_simple_response(400, "Bad Request", "oops");
    assert_eq!(
        bytes,
        b"HTTP/1.1 400 Bad Request\r\nContent-Length: 6\r\n\r\noops\r\n".to_vec()
    );
}

#[test]
fn test_bad_gateway_bytes_and_empty_body() {
    let bytes = bad_gateway_response();
    assert_eq!(
        bytes,
        b"HTTP/1.1 502 Bad Gateway\r\nContent-Length: 0\r\n\r\n".to_vec()
    );
    // the synthesized reply itself parses as a response with an empty body
    let resp = HttpResponse::parse(&bytes).unwrap();
    assert_eq!(resp.code, 502);
    assert_eq!(resp.reason, "Bad Gateway");
    assert_eq!(resp.body, Some(Vec::new()));
}

#[test]
fn test_forward_success_path() {
    let head = "GET / HTTP/1.1\r\nX-Proxy-Destination: http://upstream.example:8080\r\n\r\n";
    let req = HttpRequest::parse(head, &None).unwrap();
    let mut fw = Forwarder::new();

    let a = fw.step(ProxyEvent::RequestRead(req));
    match a {
        ProxyAction::Connect(h, p) => {
            assert_eq!(h, "upstream.example");
            assert_eq!(p, 8080);
        },
        _ => panic!("expected a connect action"),
    }

    let a = fw.step(ProxyEvent::Connected);
    match a {
        ProxyAction::SendUpstream(b) => assert_eq!(
            b,
            b"GET / HTTP/1.1\r\nhost: upstream.example\r\nconnection: close\r\n\r\n".to_vec()
        ),
        _ => panic!("expected the forward action"),
    }

    let a = fw.step(ProxyEvent::Forwarded);
    assert!(matches!(a, ProxyAction::ReadResponse));

    let input = b"HTTP/1.1 200 OK\r\nContent-Length: 2\r\n\r\nok".to_vec();
    let resp = HttpResponse::parse(&input).unwrap();
    let a = fw.step(ProxyEvent::ResponseRead(resp));
    match a {
        ProxyAction::SendClient(b) => {
            assert_eq!(b, b"HTTP/1.1 200 OK\r\ncontent-length: 2\r\n\r\nok".to_vec())
        },
        _ => panic!("expected the relay action"),
    }

    let a = fw.step(ProxyEvent::Relayed);
    assert!(matches!(a, ProxyAction::Close));
    assert!(matches!(fw.state, ProxyState::Closed));
}

#[test]
fn test_no_destination_yields_400_end_to_end() {
    let err = match HttpRequest::parse("GET / HTTP/1.1\r\n\r\n", &None) {
        Err(e) => e,
        Ok(_) => panic!("a request without any destination must fail"),
    };
    assert!(matches!(err, HttpError::NoDestination(_)));
    let mut fw = Forwarder::new();
    let a = fw.step(ProxyEvent::RequestFailed(err));
    match a {
        ProxyAction::SendClient(b) => assert_eq!(
            b,
            b"HTTP/1.1 400 Bad Request\r\nContent-Length: 22\r\n\r\nNo destination found\r\n"
                .to_vec()
        ),
        _ => panic!("expected an error response"),
    }
    let a = fw.step(ProxyEvent::Relayed);
    assert!(matches!(a, ProxyAction::Close));
    assert!(matches!(fw.state, ProxyState::Closed));
}

#[test]
fn test_connect_refused_yields_502_and_closes() {
    let head = "GET / HTTP/1.1\r\nX-Proxy-Destination: http://127.0.0.1:1\r\n\r\n";
    let req = HttpRequest::parse(head, &None).unwrap();
    let mut fw = Forwarder::new();
    let a = fw.step(ProxyEvent::RequestRead(req));
    assert!(matches!(a, ProxyAction::Connect(_, _)));

    let a = fw.step(ProxyEvent::ConnectFailed);
    match a {
        ProxyAction::SendClient(b) => {
            assert_eq!(
                b,
                b"HTTP/1.1 502 Bad Gateway\r\nContent-Length: 0\r\n\r\n".to_vec()
            );
            let resp = HttpResponse::parse(&b).unwrap();
            assert_eq!(resp.code, 502);
            assert_eq!(resp.body, Some(Vec::new()));
        },
        _ => panic!("expected the bad-gateway response"),
    }

    // the exchange still closes cleanly afterwards
    let a = fw.step(ProxyEvent::Relayed);
    assert!(matches!(a, ProxyAction::Close));
    assert!(matches!(fw.state, ProxyState::Closed));
}

#[test]
fn test_forward_failure_yields_502() {
    let head = "GET / HTTP/1.1\r\nX-Proxy-Destination: http://h\r\n\r\n";
    let req = HttpRequest::parse(head, &None).unwrap();
    let mut fw = Forwarder::new();
    fw.step(ProxyEvent::RequestRead(req));
    fw.step(ProxyEvent::Connected);
    let a = fw.step(ProxyEvent::ForwardFailed);
    match a {
        ProxyAction::SendClient(b) => assert_eq!(
            b,
            b"HTTP/1.1 502 Bad Gateway\r\nContent-Length: 0\r\n\r\n".to_vec()
        ),
        _ => panic!("expected the bad-gateway response"),
    }
}

#[test]
fn test_response_failure_yields_400_with_cause() {
    let head = "GET / HTTP/1.1\r\nX-Proxy-Destination: http://h\r\n\r\n";
    let req = HttpRequest::parse(head, &None).unwrap();
    let mut fw = Forwarder::new();
    fw.step(ProxyEvent::RequestRead(req));
    fw.step(ProxyEvent::Connected);
    fw.step(ProxyEvent::Forwarded);
    let bad = match HttpResponse::parse(&b"zz\r\n\r\n".to_vec()) {
        Err(e) => e,
        Ok(_) => panic!("a garbled status line must fail"),
    };
    let a = fw.step(ProxyEvent::ResponseFailed(bad));
    match a {
        ProxyAction::SendClient(b) => {
            let text = String::from_utf8(b).unwrap();
            assert!(text.starts_with("HTTP/1.1 400 Bad Request\r\n"));
            assert!(text.contains("Malformed status line"));
        },
        _ => panic!("expected an error response"),
    }
}
