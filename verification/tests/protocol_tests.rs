use netmon::packet::{PacketMeta, TransportTag};
use netmon::protocols::{ProtocolAnalyzer, ProtocolInfo, ProtocolType};

fn tcp_packet(length: usize, src_port: u16, dst_port: u16) -> PacketMeta {
    PacketMeta::new(
        0,
        length,
        TransportTag::Tcp,
        Some(netmon::net::IpAddress::v4(192, 168, 1, 1)),
        Some(netmon::net::IpAddress::v4(192, 168, 1, 2)),
        Some(src_port),
        Some(dst_port),
    )
}

fn find_record(analyzer: &ProtocolAnalyzer, t: ProtocolType) -> Option<ProtocolInfo> {
    analyzer.get_protocol_statistics().iter().find(|r| r.protocol_type == t).copied()
}

#[test]
fn test_protocol_identification() {
    let mut analyzer = ProtocolAnalyzer::new();

    let http_packet = tcp_packet(1024, 12345, 80);
    let protocol = analyzer.analyze_packet(&http_packet);
    assert_eq!(protocol, ProtocolType::Http);

    let https_packet = tcp_packet(512, 54321, 443);
    let protocol = analyzer.analyze_packet(&https_packet);
    assert_eq!(protocol, ProtocolType::Https);
}

#[test]
fn test_protocol_statistics() {
    let mut analyzer = ProtocolAnalyzer::new();

    let packet = tcp_packet(100, 12345, 80);
    for _ in 0..5 {
        analyzer.analyze_packet(&packet);
    }

    let http_stats = find_record(&analyzer, ProtocolType::Http).unwrap();
    assert_eq!(http_stats.packet_count, 5);
    assert_eq!(http_stats.byte_count, 500);
}

#[test]
fn well_known_port_classification() {
    let mut analyzer = ProtocolAnalyzer::new();
    let packet = tcp_packet(512, 54321, 443);
    let protocol = analyzer.analyze_packet(&packet);
    assert_eq!(protocol, ProtocolType::Https);
    let record = find_record(&analyzer, ProtocolType::Https).unwrap();
    assert_eq!(record.packet_count, 1);
    assert_eq!(record.byte_count, 512);
}

#[test]
fn source_port_fallback_and_qualified_tags() {
    let mut analyzer = ProtocolAnalyzer::new();
    let from_ssh = tcp_packet(64, 22, 50000);
    assert_eq!(analyzer.analyze_packet(&from_ssh), ProtocolType::Ssh);
    let plain = tcp_packet(64, 50000, 50001);
    assert_eq!(analyzer.analyze_packet(&plain), ProtocolType::Tcp(50001));
    let icmp = PacketMeta::new(0, 64, TransportTag::Icmp, None, None, None, None);
    assert_eq!(analyzer.analyze_packet(&icmp), ProtocolType::Icmp);
    let other = PacketMeta::new(
        0,
        64,
        TransportTag::Other("IPv6".to_string()),
        None,
        None,
        None,
        None,
    );
    assert_eq!(analyzer.analyze_packet(&other), ProtocolType::Unknown);
}

#[test]
fn protocol_attributes() {
    assert!(ProtocolType::Https.is_encrypted());
    assert!(ProtocolType::Ssh.is_encrypted());
    assert!(!ProtocolType::Http.is_encrypted());
    assert_eq!(ProtocolType::Dns.default_port(), Some(53));
    assert_eq!(ProtocolType::Tcp(9000).default_port(), Some(9000));
    assert_eq!(ProtocolType::Unknown.default_port(), None);
    assert_eq!(ProtocolType::Udp(53).display_name(), "UDP:53");
    assert_eq!(ProtocolType::Http.description(), "Hypertext Transfer Protocol");
}

#[test]
fn reset_clears_records() {
    let mut analyzer = ProtocolAnalyzer::new();
    analyzer.analyze_packet(&tcp_packet(10, 1, 80));
    assert_eq!(analyzer.get_total_packets(), 1);
    analyzer.reset_statistics();
    assert_eq!(analyzer.get_total_packets(), 0);
    assert_eq!(analyzer.get_total_bytes(), 0);
}

#[test]
fn classification_is_deterministic() {
    let analyzer = ProtocolAnalyzer::new();
    let packet = tcp_packet(64, 4242, 8080);
    let twin = tcp_packet(64, 4242, 8080);
    assert_eq!(analyzer.identify_protocol(&packet), analyzer.identify_protocol(&packet));
    assert_eq!(analyzer.identify_protocol(&packet), analyzer.identify_protocol(&twin));
    assert_eq!(
        analyzer.deep_packet_inspection(&packet, None),
        analyzer.identify_protocol(&packet)
    );
}
