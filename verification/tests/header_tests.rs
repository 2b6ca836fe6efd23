use http_proxy::headers::HeaderMap;

#[test]
fn test_insert_replaces_in_place() {
    let mut hs = HeaderMap::new();
    hs.insert("accept".to_string(), "text/html".to_string());
    hs.insert("host".to_string(), "a".to_string());
    hs.insert("accept".to_string(), "*/*".to_string());
    assert_eq!(hs.len(), 2);
    let (k, v) = hs.entry_at(0);
    assert_eq!(k, "accept");
    assert_eq!(v, "*/*");
    assert_eq!(hs.get("host").unwrap(), "a");
}

#[test]
fn test_remove_key() {
    let mut hs = HeaderMap::new();
    hs.insert("a".to_string(), "1".to_string());
    hs.insert("b".to_string(), "2".to_string());
    hs.remove("a");
    assert_eq!(hs.len(), 1);
    assert!(hs.get("a").is_none());
    assert_eq!(hs.get("b").unwrap(), "2");
}

#[test]
fn test_insert_line_lowers_and_trims() {
    let mut hs = HeaderMap::new();
    hs.insert_line("Content-Type:   text/html  ");
    assert_eq!(hs.get("content-type").unwrap(), "text/html");
    hs.insert_line("no colon here at all");
    assert_eq!(hs.len(), 1);
}
