use http_proxy::size::format_size;

#[test]
fn test_format_size_bytes() {
    assert_eq!(format_size(0), "0 B");
    assert_eq!(format_size(1), "1 B");
    assert_eq!(format_size(512), "512 B");
    assert_eq!(format_size(1023), "1023 B");
}

#[test]
fn test_format_size_units() {
    assert_eq!(format_size(1024), "1.0 KB");
    assert_eq!(format_size(1536), "1.5 KB");
    assert_eq!(format_size(10240), "10.0 KB");
    assert_eq!(format_size(1048576), "1.0 MB");
    assert_eq!(format_size(5 * 1024 * 1024 * 1024), "5.0 GB");
    assert_eq!(format_size(1024 * 1024 * 1024 * 1024), "1.0 TB");
}

#[test]
fn test_format_size_rounding() {
    // 1048575 bytes is 1023.999 KB: one decimal place rounds up
    assert_eq!(format_size(1048575), "1024.0 KB");
    // 1075 bytes is 1.0498 KB: rounds down
    assert_eq!(format_size(1075), "1.0 KB");
    // 1126 bytes is 1.0996 KB: rounds up
    assert_eq!(format_size(1126), "1.1 KB");
}
