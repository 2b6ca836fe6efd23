use http_proxy::url::URL;

#[test]
fn test_url_parsing() {
    let url = URL::new("https://localhost:8080/test").unwrap();
    assert_eq!(url.protocol, "https");
    assert_eq!(url.hostname, "localhost");
    assert_eq!(url.port, 8080);
    assert_eq!(url.path, Some("/test".to_string()));

    let url = URL::new("https://localhost/v1/test").unwrap();
    assert_eq!(url.port, 443);
    assert_eq!(url.path, Some("/v1/test".to_string()));

    let url = URL::new("http://localhost").unwrap();
    assert_eq!(url.port, 80);
    assert_eq!(url.path, None);

    assert!(URL::new("invalid-url").is_err());
    assert!(URL::new("https://example.com:abc").is_err());
}

#[test]
fn test_from_str() {
    let url: URL = "https://api.localhost:9000/v1/test-str".parse().unwrap();
    assert_eq!(url.protocol, "https");
    assert_eq!(url.hostname, "api.localhost");
    assert_eq!(url.port, 9000);
    assert_eq!(url.path, Some("/v1/test-str".to_string()));
}

#[test]
fn test_url_default_port_http() {
    let url = URL::new("http://example.com/a/b").unwrap();
    assert_eq!(url.protocol, "http");
    assert_eq!(url.hostname, "example.com");
    assert_eq!(url.port, 80);
    assert_eq!(url.path, Some("/a/b".to_string()));
}

#[test]
fn test_url_error_messages() {
    assert_eq!(
        URL::new("invalid-url").unwrap_err(),
        "Missing protocol in URL: invalid-url"
    );
    assert_eq!(
        URL::new("ftp://example.com").unwrap_err(),
        "Unsupported protocol: ftp"
    );
    assert_eq!(
        URL::new("https://example.com:abc").unwrap_err(),
        "Invalid port 'abc' in URL: https://example.com:abc"
    );
    assert_eq!(
        URL::new("https://:8080").unwrap_err(),
        "Empty hostname in URL: https://:8080"
    );
}

#[test]
fn test_url_port_out_of_range() {
    assert!(URL::new("http://host:65536").is_err());
    let url = URL::new("http://host:65535").unwrap();
    assert_eq!(url.port, 65535);
}

#[test]
fn test_url_to_string() {
    let url = URL::new("https://localhost:8080/test").unwrap();
    assert_eq!(url.to_string(), "https://localhost:8080!/test");

    let url = URL::new("http://localhost").unwrap();
    assert_eq!(url.to_string(), "http://localhost:80");
}
