use netmon::net::IpAddress;
use netmon::packet::{parse_packet, TransportTag};

fn tcp_frame() -> Vec<u8> {
    let mut frame = vec![0u8; 54];
    // link-layer type: IPv4
    frame[12] = 0x08;
    frame[13] = 0x00;
    // IPv4 header: version 4, header length 5 words
    frame[14] = 0x45;
    // protocol: TCP
    frame[23] = 6;
    // source 192.168.1.1
    frame[26] = 192;
    frame[27] = 168;
    frame[28] = 1;
    frame[29] = 1;
    // destination 10.0.0.1
    frame[30] = 10;
    frame[31] = 0;
    frame[32] = 0;
    frame[33] = 1;
    // ports 12345 -> 443
    frame[34] = 0x30;
    frame[35] = 0x39;
    frame[36] = 0x01;
    frame[37] = 0xBB;
    frame
}

#[test]
fn tcp_frame_yields_the_four_tuple() {
    let frame = tcp_frame();
    let meta = parse_packet(&frame, 99);
    assert_eq!(meta.timestamp, 99);
    assert_eq!(meta.length, 54);
    assert!(matches!(meta.tag, TransportTag::Tcp));
    assert_eq!(meta.src_ip, Some(IpAddress::v4(192, 168, 1, 1)));
    assert_eq!(meta.dst_ip, Some(IpAddress::v4(10, 0, 0, 1)));
    assert_eq!(meta.src_port, Some(12345));
    assert_eq!(meta.dst_port, Some(443));
}

#[test]
fn udp_frame_yields_the_four_tuple() {
    let mut frame = tcp_frame();
    frame[23] = 17;
    let meta = parse_packet(&frame, 0);
    assert!(matches!(meta.tag, TransportTag::Udp));
    assert_eq!(meta.dst_port, Some(443));
}

#[test]
fn other_frames_carry_descriptive_tags() {
    let mut v6 = vec![0u8; 60];
    v6[12] = 0x86;
    v6[13] = 0xDD;
    let meta = parse_packet(&v6, 0);
    match meta.tag {
        TransportTag::Other(s) => assert_eq!(s, "IPv6"),
        _ => panic!("expected a descriptive tag"),
    }
    assert_eq!(meta.src_ip, None);

    let mut arp = vec![0u8; 60];
    arp[12] = 0x08;
    arp[13] = 0x06;
    let meta = parse_packet(&arp, 0);
    match meta.tag {
        TransportTag::Other(s) => assert_eq!(s, "Ethernet-0x806"),
        _ => panic!("expected a descriptive tag"),
    }

    let short = vec![0u8; 10];
    let meta = parse_packet(&short, 0);
    match meta.tag {
        TransportTag::Other(s) => assert_eq!(s, "Unknown"),
        _ => panic!("expected the unknown tag"),
    }
    assert_eq!(meta.length, 10);

    let mut icmp = tcp_frame();
    icmp[23] = 1;
    let meta = parse_packet(&icmp, 0);
    match meta.tag {
        TransportTag::Other(s) => assert_eq!(s, "IPv4-1"),
        _ => panic!("expected a descriptive tag"),
    }
    assert_eq!(meta.src_ip, Some(IpAddress::v4(192, 168, 1, 1)));
}
