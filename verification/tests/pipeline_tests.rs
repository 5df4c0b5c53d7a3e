use netmon::net::{Endpoint, IpAddress};
use netmon::packet::{PacketMeta, TransportTag};
use netmon::pipeline::Pipeline;
use netmon::procfs::{InterfaceStats, ProcConnection, TcpState};

fn packet(dst_port: u16, length: usize) -> PacketMeta {
    PacketMeta::new(
        0,
        length,
        TransportTag::Tcp,
        Some(IpAddress::v4(192, 168, 1, 50)),
        Some(IpAddress::v4(8, 8, 8, 8)),
        Some(40000),
        Some(dst_port),
    )
}

#[test]
fn a_tick_feeds_every_component_and_publishes() {
    let mut pipeline = Pipeline::new(0, true);
    let packets = vec![packet(443, 500), packet(80, 300)];
    let conns = vec![ProcConnection {
        local_addr: Endpoint::new(IpAddress::v4(127, 0, 0, 1), 631),
        remote_addr: Endpoint::new(IpAddress::v4(0, 0, 0, 0), 0),
        state: TcpState::Listen,
        inode: 1,
        uid: 0,
    }];
    let stats = vec![InterfaceStats {
        interface: "eth0".to_string(),
        rx_bytes: 1000,
        tx_bytes: 2000,
        rx_packets: 10,
        tx_packets: 20,
        rx_errors: 0,
        tx_errors: 0,
        rx_dropped: 0,
        tx_dropped: 0,
    }];
    let snapshot = pipeline.tick(packets, conns, stats, 1);

    assert_eq!(snapshot.packets_captured, 2);
    assert_eq!(snapshot.bytes_captured, 800);
    assert!(snapshot.capture_available);
    // both live pairs and the socket-table pair are tracked
    assert_eq!(snapshot.active_connections.len(), 1);
    assert_eq!(snapshot.recent_packets.len(), 2);
    assert_eq!(snapshot.interface_metrics.len(), 1);
    assert_eq!(snapshot.network_statistics.total_packets, 2);
    assert_eq!(snapshot.firewall_stats.total_packets_processed, 3);
    assert_eq!(snapshot.traffic_analysis.analysis_timestamp, 1);
}

#[test]
fn totals_never_decrease_across_ticks() {
    let mut pipeline = Pipeline::new(0, false);
    let mut last_packets = 0;
    let mut last_bytes = 0;
    for tick in 0..5u64 {
        let snapshot = pipeline.tick(vec![packet(80, 100)], Vec::new(), Vec::new(), tick * 2);
        assert!(snapshot.packets_captured >= last_packets);
        assert!(snapshot.bytes_captured >= last_bytes);
        last_packets = snapshot.packets_captured;
        last_bytes = snapshot.bytes_captured;
    }
    assert_eq!(last_packets, 5);
    assert_eq!(last_bytes, 500);
}

#[test]
fn recent_packet_ring_respects_its_cap() {
    let mut pipeline = Pipeline::new(0, true);
    for round in 0..30u64 {
        let batch: Vec<PacketMeta> = (0..5).map(|i| packet(1000 + i, 10)).collect();
        let snapshot = pipeline.tick(batch, Vec::new(), Vec::new(), round);
        assert!(snapshot.recent_packets.len() <= 100);
    }
    assert_eq!(pipeline.recent_packets.len(), 100);
}
