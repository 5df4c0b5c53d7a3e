use netmon::net::endpoint_string;
use netmon::procfs::{
    parse_address, parse_counter, parse_tcp_line, parse_tcp_state, parse_tcp_table,
    parse_udp_table, filter_interfaces, TcpState,
};

#[test]
fn test_tcp_state_display() {
    assert_eq!(TcpState::Established.display_name(), "ESTABLISHED");
    assert_eq!(TcpState::Listen.display_name(), "LISTEN");
    assert_eq!(TcpState::Unknown(42).display_name(), "UNKNOWN(42)");
}

#[test]
fn test_parse_tcp_state() {
    assert!(matches!(parse_tcp_state(0x01), TcpState::Established));
    assert!(matches!(parse_tcp_state(0x0A), TcpState::Listen));
    assert!(matches!(parse_tcp_state(0xFF), TcpState::Unknown(255)));
}

#[test]
fn test_parse_address() {
    let addr = parse_address("0100007F:0050").expect("valid address should parse");
    assert_eq!(endpoint_string(&addr), "127.0.0.1:80");
}

#[test]
fn malformed_addresses_yield_nothing() {
    assert!(parse_address("0100007F").is_none());
    assert!(parse_address("0100007F:0050:1").is_none());
    assert!(parse_address("0100007:0050").is_none());
    assert!(parse_address("0100007G:0050").is_none());
    assert!(parse_address("0100007F:").is_none());
    assert!(parse_address("0100007F:10050").is_none());
}

#[test]
fn socket_table_parses_and_skips_bad_lines() {
    let content = "  sl  local_address rem_address   st tx_queue rx_queue tr tm->when retrnsmt   uid  timeout inode\n   0: 0100007F:0050 00000000:0000 0A 00000000:00000000 00:00000000 00000000  1000        0 12345 1 0000000000000000 100 0 0 10 0\n   garbage line\n   1: 0101A8C0:1F90 0100007F:0050 01 00000000:00000000 00:00000000 00000000  0        0 999 1 0000000000000000 100 0 0 10 0\n";
    let conns = parse_tcp_table(content);
    assert_eq!(conns.len(), 2);
    assert_eq!(endpoint_string(&conns[0].local_addr), "127.0.0.1:80");
    assert!(matches!(conns[0].state, TcpState::Listen));
    assert_eq!(conns[0].uid, 1000);
    assert_eq!(conns[0].inode, 12345);
    assert_eq!(endpoint_string(&conns[1].local_addr), "192.168.1.1:8080");
    assert!(matches!(conns[1].state, TcpState::Established));

    let udp = parse_udp_table(content);
    assert_eq!(udp.len(), 2);
    assert!(matches!(udp[1].state, TcpState::Listen));
}

#[test]
fn single_line_parses() {
    let line = "   0: 0100007F:1538 00000000:0000 0A 00000000:00000000 00:00000000 00000000  1000        0 4242";
    let conn = parse_tcp_line(line).unwrap();
    assert_eq!(endpoint_string(&conn.local_addr), "127.0.0.1:5432");
    assert_eq!(conn.inode, 4242);
}

#[test]
fn counter_parsing() {
    assert_eq!(parse_counter("12345\n"), Some(12345));
    assert_eq!(parse_counter("  7 "), Some(7));
    assert_eq!(parse_counter(""), None);
    assert_eq!(parse_counter("12x"), None);
    assert_eq!(parse_counter("18446744073709551615"), Some(u64::MAX));
    assert_eq!(parse_counter("18446744073709551616"), None);
}

#[test]
fn interface_filtering_sorts_and_omits_virtual_names() {
    let names = vec![
        "veth0".to_string(),
        "eth1".to_string(),
        "lo".to_string(),
        "eth0".to_string(),
        "wlan0".to_string(),
    ];
    let kept = filter_interfaces(&names);
    assert_eq!(kept, vec!["eth0".to_string(), "eth1".to_string(), "wlan0".to_string()]);
}
