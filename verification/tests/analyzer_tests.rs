use netmon::analyzer::{
    analyze_bandwidth, analyze_protocols, collect_bandwidth_sample, detect_ddos_pattern,
    detect_port_scan_pattern, PatternType, TrafficAnalyzer,
};
use netmon::flows::{FlowDirection, TrafficFlow};
use netmon::net::{pair_key, Endpoint, IpAddress};
use netmon::protocols::ProtocolType;

fn flow(src: (u8, u8, u8, u8), sp: u16, dst: (u8, u8, u8, u8), dp: u16, bps: u64) -> TrafficFlow {
    let s = Endpoint::new(IpAddress::v4(src.0, src.1, src.2, src.3), sp);
    let d = Endpoint::new(IpAddress::v4(dst.0, dst.1, dst.2, dst.3), dp);
    TrafficFlow {
        flow_id: pair_key(&s, &d),
        src_addr: s,
        dst_addr: d,
        protocol: ProtocolType::Tcp(dp),
        direction: FlowDirection::Outbound,
        start_time: 0,
        last_seen: 1,
        packet_count: 10,
        byte_count: bps,
        packets_per_second: 10,
        bytes_per_second: bps,
        is_active: true,
    }
}

#[test]
fn test_traffic_analyzer_creation() {
    let analyzer = TrafficAnalyzer::new();
    assert_eq!(analyzer.get_bandwidth_history().len(), 0);
    assert_eq!(analyzer.get_pattern_history().len(), 0);
}

#[test]
fn test_bandwidth_sample_collection() {
    let flows: Vec<TrafficFlow> = Vec::new();
    let sample = collect_bandwidth_sample(&flows, 0);
    assert_eq!(sample.total_bps, 0);
}

#[test]
fn samples_split_by_direction() {
    let mut flows = vec![flow((192, 168, 1, 1), 1, (8, 8, 8, 8), 80, 100)];
    flows[0].direction = FlowDirection::Inbound;
    flows.push(flow((192, 168, 1, 1), 2, (8, 8, 8, 8), 81, 200));
    let sample = collect_bandwidth_sample(&flows, 5);
    assert_eq!(sample.inbound_bps, 100);
    assert_eq!(sample.outbound_bps, 200);
    assert_eq!(sample.total_bps, 300);
    assert_eq!(sample.timestamp, 5);
}

#[test]
fn port_scan_detection() {
    let mut flows = Vec::new();
    for port in 0..25u16 {
        flows.push(flow((203, 0, 113, 9), 40000 + port, (10, 0, 0, 1), 1000 + port, 10));
    }
    let mut analyzer = TrafficAnalyzer::new();
    let result = analyzer.analyze_traffic(&flows, 100);
    let scans: Vec<_> = result
        .patterns
        .iter()
        .filter(|p| p.pattern_type == PatternType::PortScan)
        .collect();
    assert_eq!(scans.len(), 1);
    assert_eq!(scans[0].source, Some(IpAddress::v4(203, 0, 113, 9)));
    assert_eq!(scans[0].related_flows.len(), 25);
}

#[test]
fn no_port_scan_below_the_threshold() {
    let mut flows = Vec::new();
    for port in 0..20u16 {
        flows.push(flow((203, 0, 113, 9), 40000 + port, (10, 0, 0, 1), 1000 + port, 10));
    }
    assert!(detect_port_scan_pattern(&flows, 0).is_none());
}

#[test]
fn ddos_detection_counts_flows_per_source() {
    let mut flows = Vec::new();
    for i in 0..101u16 {
        flows.push(flow((203, 0, 113, 9), 40000 + i, (10, 0, 0, 1), 80, 10));
    }
    let pattern = detect_ddos_pattern(&flows, 100, 9).unwrap();
    assert_eq!(pattern.pattern_type, PatternType::DDoSPattern);
    assert_eq!(pattern.source, Some(IpAddress::v4(203, 0, 113, 9)));
    assert!(detect_ddos_pattern(&flows, 200, 9).is_none());
}

#[test]
fn bandwidth_analysis_summarizes_the_ring() {
    let flows = vec![flow((192, 168, 1, 1), 1, (8, 8, 8, 8), 80, 100)];
    let mut analyzer = TrafficAnalyzer::new();
    analyzer.analyze_traffic(&flows, 0);
    let analysis = analyze_bandwidth(analyzer.get_bandwidth_history());
    assert_eq!(analysis.total_bandwidth, 100);
    assert_eq!(analysis.peak_bandwidth, 100);
    assert_eq!(analysis.average_bandwidth, 100);
    assert_eq!(analysis.bandwidth_history.len(), 1);
}

#[test]
fn protocol_breakdown_accumulates() {
    let flows = vec![
        flow((192, 168, 1, 1), 1, (8, 8, 8, 8), 80, 300),
        flow((192, 168, 1, 1), 2, (8, 8, 8, 8), 80, 100),
        flow((192, 168, 1, 1), 3, (8, 8, 8, 8), 81, 100),
    ];
    let breakdown = analyze_protocols(&flows);
    assert_eq!(breakdown.total_flows, 3);
    assert_eq!(breakdown.total_bandwidth, 500);
    let http_like = breakdown
        .protocol_stats
        .iter()
        .find(|e| e.protocol == ProtocolType::Tcp(80))
        .unwrap();
    assert_eq!(http_like.flow_count, 2);
    assert_eq!(http_like.bandwidth_bps, 400);
    assert_eq!(http_like.percentage_of_total, 80);
    assert_eq!(breakdown.top_protocols[0].0, ProtocolType::Tcp(80));
}

#[test]
fn cache_serves_within_the_interval() {
    let flows = vec![flow((192, 168, 1, 1), 1, (8, 8, 8, 8), 80, 100)];
    let mut analyzer = TrafficAnalyzer::with_config(300, 10, 3600, 10);
    let first = analyzer.analyze_traffic(&flows, 100);
    assert_eq!(analyzer.get_bandwidth_history().len(), 1);
    let cached = analyzer.analyze_traffic(&flows, 105);
    assert_eq!(analyzer.get_bandwidth_history().len(), 1);
    assert_eq!(cached.analysis_timestamp, first.analysis_timestamp);
    let fresh = analyzer.analyze_traffic(&flows, 111);
    assert_eq!(analyzer.get_bandwidth_history().len(), 2);
    assert_eq!(fresh.analysis_timestamp, 111);
}
