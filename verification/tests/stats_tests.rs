use netmon::procfs::InterfaceStats;
use netmon::stats::{InterfaceMetrics, StatisticsCollector};

fn reading(name: &str, rx_bytes: u64, tx_bytes: u64) -> InterfaceStats {
    InterfaceStats {
        interface: name.to_string(),
        rx_bytes,
        tx_bytes,
        rx_packets: 0,
        tx_packets: 0,
        rx_errors: 0,
        tx_errors: 0,
        rx_dropped: 0,
        tx_dropped: 0,
    }
}

#[test]
fn test_statistics_collector() {
    let mut collector = StatisticsCollector::new(0);

    collector.update_packet_stats(100, 50000, 0);
    assert_eq!(collector.total_packets, 100);
    assert_eq!(collector.total_bytes, 50000);

    let (pps, bps) = collector.calculate_rates(0);
    assert_eq!(pps, 0);
    assert_eq!(bps, 0);
}

#[test]
fn test_interface_metrics() {
    let metrics = InterfaceMetrics {
        interface_name: "eth0".to_string(),
        rx_bytes: 1000,
        tx_bytes: 2000,
        rx_packets: 10,
        tx_packets: 20,
        rx_errors: 1,
        tx_errors: 2,
        rx_dropped: 0,
        tx_dropped: 1,
        rx_rate_bps: 100,
        tx_rate_bps: 200,
        last_update: 0,
    };

    assert_eq!(metrics.get_total_bytes(), 3000);
    assert_eq!(metrics.get_total_packets(), 30);
    assert_eq!(metrics.get_total_errors(), 3);
    assert_eq!(metrics.get_total_dropped(), 1);
    assert_eq!(metrics.get_total_rate_bps(), 300);
}

#[test]
fn interface_rates_come_from_saturating_deltas() {
    let mut collector = StatisticsCollector::new(0);
    let first = vec![reading("eth0", 1000, 2000)];
    let metrics = collector.update_interface_stats(&first, 0);
    assert_eq!(metrics[0].rx_rate_bps, 0);

    let second = vec![reading("eth0", 11000, 2000)];
    let metrics = collector.update_interface_stats(&second, 10);
    assert_eq!(metrics[0].rx_rate_bps, 1000);
    assert_eq!(metrics[0].tx_rate_bps, 0);

    let reset = vec![reading("eth0", 0, 0)];
    let metrics = collector.update_interface_stats(&reset, 20);
    assert_eq!(metrics[0].rx_rate_bps, 0);
    assert_eq!(metrics[0].tx_rate_bps, 0);
}

#[test]
fn short_term_rates_use_the_ten_second_window() {
    let mut collector = StatisticsCollector::new(0);
    collector.update_packet_stats(100, 1000, 0);
    collector.update_packet_stats(200, 3000, 5);
    let (pps, bps) = collector.calculate_rates(5);
    assert_eq!(pps, (200 - 100) / 10);
    assert_eq!(bps, (3000 - 1000) / 10);
}

#[test]
fn history_respects_the_window() {
    let mut collector = StatisticsCollector::new(0);
    collector.update_packet_stats(1, 1, 0);
    collector.update_packet_stats(2, 2, 30);
    collector.update_packet_stats(3, 3, 100);
    assert_eq!(collector.packet_history.len(), 1);
    assert_eq!(collector.packet_history[0].0, 100);
}

#[test]
fn derived_rates_are_percentages() {
    let collector = StatisticsCollector::new(0);
    let metrics = InterfaceMetrics {
        interface_name: "eth0".to_string(),
        rx_bytes: 0,
        tx_bytes: 0,
        rx_packets: 90,
        tx_packets: 10,
        rx_errors: 5,
        tx_errors: 0,
        rx_dropped: 2,
        tx_dropped: 0,
        rx_rate_bps: 500000,
        tx_rate_bps: 500000,
        last_update: 0,
    };
    assert_eq!(collector.get_error_rate(&metrics), 5);
    assert_eq!(collector.get_drop_rate(&metrics), 2);
    assert_eq!(collector.get_bandwidth_utilization(&metrics, Some(8)), Some(12));
    assert_eq!(collector.get_bandwidth_utilization(&metrics, None), None);
}
