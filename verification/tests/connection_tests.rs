use netmon::connections::{ConnectionState, ConnectionTracker};
use netmon::net::{pair_key, Endpoint, IpAddress};
use netmon::packet::{PacketMeta, TransportTag};
use netmon::procfs::{ProcConnection, TcpState};

fn packet(src: (u8, u8, u8, u8), sp: u16, dst: (u8, u8, u8, u8), dp: u16, length: usize) -> PacketMeta {
    PacketMeta::new(
        0,
        length,
        TransportTag::Tcp,
        Some(IpAddress::v4(src.0, src.1, src.2, src.3)),
        Some(IpAddress::v4(dst.0, dst.1, dst.2, dst.3)),
        Some(sp),
        Some(dp),
    )
}

#[test]
fn test_connection_tracking() {
    let mut tracker = ConnectionTracker::new();

    let p = packet((192, 168, 1, 1), 12345, (192, 168, 1, 2), 80, 1024);
    tracker.track_packet(&p, 10);

    assert_eq!(tracker.get_connection_count(), 1);
    let conn = &tracker.get_active_connections()[0];
    assert_eq!(conn.bytes_sent, 1024);
    assert_eq!(conn.packets_sent, 1);
}

#[test]
fn test_tcp_state_conversion() {
    assert_eq!(
        ConnectionTracker::convert_tcp_state(&TcpState::Established),
        ConnectionState::Established
    );
    assert_eq!(
        ConnectionTracker::convert_tcp_state(&TcpState::Listen),
        ConnectionState::Established
    );
    assert_eq!(
        ConnectionTracker::convert_tcp_state(&TcpState::Close),
        ConnectionState::Closed
    );
}

#[test]
fn tcp_state_folding() {
    assert_eq!(
        ConnectionTracker::convert_tcp_state(&TcpState::SynSent),
        ConnectionState::Establishing
    );
    assert_eq!(
        ConnectionTracker::convert_tcp_state(&TcpState::TimeWait),
        ConnectionState::Closing
    );
    assert_eq!(
        ConnectionTracker::convert_tcp_state(&TcpState::Unknown(0xFF)),
        ConnectionState::Unknown
    );
}

#[test]
fn reversed_tuple_yields_same_key() {
    let a = Endpoint::new(IpAddress::v4(192, 168, 1, 1), 12345);
    let b = Endpoint::new(IpAddress::v4(10, 0, 0, 1), 80);
    assert_eq!(pair_key(&a, &b), pair_key(&b, &a));

    let mut tracker = ConnectionTracker::new();
    tracker.track_packet(&packet((192, 168, 1, 1), 12345, (10, 0, 0, 1), 80, 100), 1);
    tracker.track_packet(&packet((10, 0, 0, 1), 80, (192, 168, 1, 1), 12345, 100), 2);
    assert_eq!(tracker.get_connection_count(), 1);
    let conn = &tracker.get_active_connections()[0];
    assert_eq!(conn.packets_sent, 2);
    assert_eq!(conn.bytes_sent, 200);
}

#[test]
fn reconciliation_keeps_exactly_the_snapshot() {
    let mut tracker = ConnectionTracker::new();
    tracker.track_packet(&packet((192, 168, 1, 1), 1111, (10, 0, 0, 1), 80, 10), 1);
    tracker.track_packet(&packet((192, 168, 1, 1), 2222, (10, 0, 0, 2), 80, 10), 1);
    assert_eq!(tracker.get_connection_count(), 2);

    let snapshot = vec![ProcConnection {
        local_addr: Endpoint::new(IpAddress::v4(192, 168, 1, 1), 1111),
        remote_addr: Endpoint::new(IpAddress::v4(10, 0, 0, 1), 80),
        state: TcpState::Established,
        inode: 1,
        uid: 0,
    }];
    tracker.update_from_proc(&snapshot, 2);

    assert_eq!(tracker.get_connection_count(), 1);
    let conn = &tracker.get_active_connections()[0];
    assert_eq!(conn.state, ConnectionState::Established);
    assert_eq!(conn.last_seen, 2);
}

#[test]
fn eviction_caps_the_active_set_oldest_first() {
    let mut tracker = ConnectionTracker::with_config(300, 2);
    tracker.track_packet(&packet((192, 168, 1, 1), 1000, (10, 0, 0, 1), 80, 1), 1);
    tracker.track_packet(&packet((192, 168, 1, 1), 1001, (10, 0, 0, 1), 80, 1), 2);
    tracker.track_packet(&packet((192, 168, 1, 1), 1002, (10, 0, 0, 1), 80, 1), 3);
    assert_eq!(tracker.get_connection_count(), 3);
    tracker.cleanup_old_connections(3);
    assert_eq!(tracker.get_connection_count(), 2);
    for conn in tracker.get_active_connections().iter() {
        assert!(conn.last_seen >= 2);
    }
}

#[test]
fn idle_timeout_drops_stale_entries() {
    let mut tracker = ConnectionTracker::with_config(10, 100);
    tracker.track_packet(&packet((192, 168, 1, 1), 1000, (10, 0, 0, 1), 80, 1), 0);
    tracker.cleanup_old_connections(5);
    assert_eq!(tracker.get_connection_count(), 1);
    tracker.cleanup_old_connections(20);
    assert_eq!(tracker.get_connection_count(), 0);
}

#[test]
fn queries_filter_and_rank() {
    let mut tracker = ConnectionTracker::new();
    tracker.track_packet(&packet((192, 168, 1, 1), 1000, (10, 0, 0, 1), 443, 500), 1);
    tracker.track_packet(&packet((192, 168, 1, 1), 1001, (10, 0, 0, 2), 80, 100), 1);
    let https = tracker.get_connections_by_protocol(&netmon::protocols::ProtocolType::Https);
    assert_eq!(https.len(), 1);
    assert_eq!(https[0].bytes_sent, 500);
    let established = tracker.get_connections_by_state(&ConnectionState::Established);
    assert_eq!(established.len(), 2);
    let (sent, received) = tracker.get_total_bytes_transferred();
    assert_eq!(sent, 600);
    assert_eq!(received, 0);
    let top = tracker.get_top_connections_by_traffic(1);
    assert_eq!(top.len(), 1);
    assert_eq!(top[0].bytes_sent, 500);
}
