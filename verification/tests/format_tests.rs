use netmon::text::{format_bandwidth, format_bytes, format_duration, truncate_string};

#[test]
fn test_format_bytes() {
    assert_eq!(format_bytes(0), "0 B");
    assert_eq!(format_bytes(1024), "1.00 KB");
    assert_eq!(format_bytes(1048576), "1.00 MB");
    assert_eq!(format_bytes(1073741824), "1.00 GB");
}

#[test]
fn test_format_bandwidth() {
    assert_eq!(format_bandwidth(125), "1.00 Kbps");
    assert_eq!(format_bandwidth(125000), "1.00 Mbps");
}

#[test]
fn test_format_duration() {
    assert_eq!(format_duration(30), "30s");
    assert_eq!(format_duration(90), "1m 30s");
    assert_eq!(format_duration(3661), "1h 1m");
    assert_eq!(format_duration(90061), "1d 1h");
}

#[test]
fn test_truncate_string() {
    assert_eq!(truncate_string("hello", 10), "hello");
    assert_eq!(truncate_string("hello world", 8), "hello...");
    assert_eq!(truncate_string("hi", 2), "hi");
}

#[test]
fn ip_address_display_formatting() {
    assert_eq!(netmon::text::format_ip_address("127.0.0.1"), "127.0.0.1");
    assert_eq!(netmon::text::format_ip_address("[::1]"), "::1");
    assert_eq!(
        netmon::text::format_ip_address("2001:0db8:85a3:0000:0000:8a2e:0370:7334"),
        "2001:0db8:85a3:00..."
    );
}
