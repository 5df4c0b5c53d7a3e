use netmon::flows::{EventSeverity, FlowDirection, TrafficEventType, TrafficInspector};
use netmon::net::IpAddress;
use netmon::packet::{PacketMeta, TransportTag};
use netmon::protocols::ProtocolType;

fn packet(src: (u8, u8, u8, u8), sp: u16, dst: (u8, u8, u8, u8), dp: u16, length: usize) -> PacketMeta {
    PacketMeta::new(
        0,
        length,
        TransportTag::Tcp,
        Some(IpAddress::v4(src.0, src.1, src.2, src.3)),
        Some(IpAddress::v4(dst.0, dst.1, dst.2, dst.3)),
        Some(sp),
        Some(dp),
    )
}

#[test]
fn test_traffic_inspector_creation() {
    let inspector = TrafficInspector::new();
    assert_eq!(inspector.get_active_flows().len(), 0);
    assert!(inspector.local_networks.len() > 0);
}

#[test]
fn test_flow_direction_detection() {
    let inspector = TrafficInspector::new();

    let local = IpAddress::v4(192, 168, 1, 100);
    let external = IpAddress::v4(8, 8, 8, 8);

    assert_eq!(
        inspector.determine_flow_direction(&local, &external),
        FlowDirection::Outbound
    );
    assert_eq!(
        inspector.determine_flow_direction(&external, &local),
        FlowDirection::Inbound
    );
    assert_eq!(
        inspector.determine_flow_direction(&local, &local),
        FlowDirection::Internal
    );
    assert_eq!(
        inspector.determine_flow_direction(&external, &external),
        FlowDirection::Unknown
    );
}

#[test]
fn a_packet_starts_and_updates_a_flow() {
    let mut inspector = TrafficInspector::new();
    inspector.inspect_packet(&packet((192, 168, 1, 1), 1000, (8, 8, 8, 8), 443, 500), ProtocolType::Https, 10);
    assert_eq!(inspector.get_active_flows().len(), 1);
    let flow = &inspector.get_active_flows()[0];
    assert_eq!(flow.packet_count, 1);
    assert_eq!(flow.byte_count, 500);
    assert!(flow.is_active);
    let events = inspector.get_recent_events(10);
    assert_eq!(events.len(), 1);
    assert_eq!(events[0].event_type, TrafficEventType::FlowStarted);
    assert_eq!(events[0].severity, EventSeverity::Info);

    inspector.inspect_packet(&packet((8, 8, 8, 8), 443, (192, 168, 1, 1), 1000, 300), ProtocolType::Https, 12);
    assert_eq!(inspector.get_active_flows().len(), 1);
    let flow = &inspector.get_active_flows()[0];
    assert_eq!(flow.packet_count, 2);
    assert_eq!(flow.byte_count, 800);
}

#[test]
fn flow_rate_sanity() {
    let mut inspector = TrafficInspector::new();
    inspector.inspect_packet(&packet((192, 168, 1, 1), 1000, (8, 8, 8, 8), 443, 1000), ProtocolType::Https, 0);
    inspector.inspect_packet(&packet((192, 168, 1, 1), 1000, (8, 8, 8, 8), 443, 1000), ProtocolType::Https, 4);
    let flow = &inspector.get_active_flows()[0];
    let elapsed = (flow.last_seen - flow.start_time).max(1);
    assert!(flow.bytes_per_second <= flow.byte_count / elapsed);
    assert_eq!(flow.bytes_per_second, 2000 / 4);
}

#[test]
fn high_bandwidth_is_flagged() {
    let mut inspector = TrafficInspector::with_config(100, 1000, 300, 10);
    inspector.inspect_packet(&packet((192, 168, 1, 1), 1000, (8, 8, 8, 8), 80, 5000), ProtocolType::Http, 0);
    inspector.inspect_packet(&packet((192, 168, 1, 1), 1000, (8, 8, 8, 8), 80, 5000), ProtocolType::Http, 2);
    let warnings = inspector.get_events_by_severity(EventSeverity::Warning);
    assert_eq!(warnings.len(), 1);
    assert_eq!(warnings[0].event_type, TrafficEventType::HighBandwidth);
}

#[test]
fn idle_flows_retire_to_history() {
    let mut inspector = TrafficInspector::with_config(1_000_000, 1000, 10, 100);
    inspector.inspect_packet(&packet((192, 168, 1, 1), 1000, (8, 8, 8, 8), 80, 100), ProtocolType::Http, 0);
    inspector.cleanup_expired_flows(5);
    assert_eq!(inspector.get_active_flows().len(), 1);
    inspector.cleanup_expired_flows(100);
    assert_eq!(inspector.get_active_flows().len(), 0);
    assert_eq!(inspector.get_flow_history().len(), 1);
    assert!(!inspector.get_flow_history()[0].is_active);
    let infos = inspector.get_events_by_severity(EventSeverity::Info);
    assert!(infos.iter().any(|e| e.event_type == TrafficEventType::FlowEnded));
}

#[test]
fn flow_statistics_aggregate() {
    let mut inspector = TrafficInspector::new();
    inspector.inspect_packet(&packet((192, 168, 1, 1), 1000, (8, 8, 8, 8), 80, 100), ProtocolType::Http, 0);
    inspector.inspect_packet(&packet((8, 8, 4, 4), 53, (192, 168, 1, 2), 5353, 100), ProtocolType::Dns, 0);
    let stats = inspector.get_flow_statistics();
    assert_eq!(stats.total_active_flows, 2);
    assert_eq!(stats.flows_outbound, 1);
    assert_eq!(stats.flows_inbound, 1);
    assert_eq!(stats.recent_events_count, 2);
}
