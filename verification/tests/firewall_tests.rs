use netmon::engine::FirewallEngine;
use netmon::net::IpAddress;
use netmon::packet::{PacketMeta, TransportTag};
use netmon::rules::{FirewallRule, RuleAction, RuleDirection, RuleProtocol, RuleTemplates};

fn inbound_tcp(dst_port: u16) -> PacketMeta {
    PacketMeta::new(
        0,
        64,
        TransportTag::Tcp,
        Some(IpAddress::v4(8, 8, 8, 8)),
        Some(IpAddress::v4(192, 168, 1, 1)),
        Some(40000),
        Some(dst_port),
    )
}

#[test]
fn test_firewall_engine_creation() {
    let engine = FirewallEngine::new();
    assert_eq!(engine.get_rules().len(), 0);
    assert!(engine.is_enabled());
    assert_eq!(engine.get_stats().total_packets_processed, 0);
}

#[test]
fn test_add_remove_rules() {
    let mut engine = FirewallEngine::new();

    let rule_id = engine.add_rule(RuleTemplates::allow_ssh());
    assert_eq!(engine.get_rules().len(), 1);
    assert_eq!(engine.get_stats().active_rules, 1);

    assert!(engine.remove_rule(rule_id));
    assert_eq!(engine.get_rules().len(), 0);
    assert_eq!(engine.get_stats().active_rules, 0);

    assert!(!engine.remove_rule(999));
}

#[test]
fn test_rule_priority_ordering() {
    let mut engine = FirewallEngine::new();

    let low_priority = FirewallRule::new(
        1,
        "Low".to_string(),
        RuleAction::Allow,
        RuleDirection::Inbound,
        RuleProtocol::TCP,
    )
    .with_priority(100);

    let high_priority = FirewallRule::new(
        2,
        "High".to_string(),
        RuleAction::Block,
        RuleDirection::Inbound,
        RuleProtocol::TCP,
    )
    .with_priority(200);

    engine.add_rule(low_priority);
    engine.add_rule(high_priority);

    assert_eq!(engine.get_rules()[0].priority, 200);
    assert_eq!(engine.get_rules()[1].priority, 100);
}

#[test]
fn test_packet_processing() {
    let mut engine = FirewallEngine::new();
    engine.add_rule(RuleTemplates::allow_ssh());

    let ssh_packet = PacketMeta::new(
        0,
        64,
        TransportTag::Tcp,
        Some(IpAddress::v4(192, 168, 1, 100)),
        Some(IpAddress::v4(192, 168, 1, 1)),
        Some(12345),
        Some(22),
    );

    let action = engine.process_packet(&ssh_packet, 7);
    assert_eq!(action, RuleAction::Allow);
    assert_eq!(engine.get_stats().total_packets_processed, 1);
    assert_eq!(engine.get_stats().packets_allowed, 1);
}

#[test]
fn test_rule_creation() {
    let rule = FirewallRule::new(
        1,
        "Test Rule".to_string(),
        RuleAction::Allow,
        RuleDirection::Inbound,
        RuleProtocol::TCP,
    );

    assert_eq!(rule.id, 1);
    assert_eq!(rule.name, "Test Rule");
    assert_eq!(rule.action, RuleAction::Allow);
    assert!(rule.enabled);
}

#[test]
fn test_rule_matching() {
    let rule = FirewallRule::new(
        1,
        "SSH Rule".to_string(),
        RuleAction::Allow,
        RuleDirection::Inbound,
        RuleProtocol::TCP,
    )
    .with_destination_port(22);

    let src_ip = IpAddress::v4(192, 168, 1, 100);
    let dst_ip = IpAddress::v4(192, 168, 1, 1);

    assert!(rule.matches_packet(
        &src_ip,
        &dst_ip,
        12345,
        22,
        &RuleProtocol::TCP,
        &RuleDirection::Inbound
    ));

    assert!(!rule.matches_packet(
        &src_ip,
        &dst_ip,
        12345,
        80,
        &RuleProtocol::TCP,
        &RuleDirection::Inbound
    ));
}

#[test]
fn test_rule_templates() {
    let ssh_rule = RuleTemplates::allow_ssh();
    assert_eq!(ssh_rule.action, RuleAction::Allow);
    assert_eq!(ssh_rule.protocol, RuleProtocol::TCP);
    assert!(ssh_rule.destination_ports.as_ref().unwrap().contains(&22));

    let block_rule = RuleTemplates::block_all_incoming();
    assert_eq!(block_rule.action, RuleAction::Block);
    assert_eq!(block_rule.direction, RuleDirection::Inbound);
}

#[test]
fn firewall_priority_scenario() {
    let mut engine = FirewallEngine::new();
    let block_ssh = FirewallRule::new(
        0,
        "Block SSH".to_string(),
        RuleAction::Block,
        RuleDirection::Inbound,
        RuleProtocol::TCP,
    )
    .with_destination_port(22)
    .with_priority(200);
    let allow_tcp = FirewallRule::new(
        0,
        "Allow TCP".to_string(),
        RuleAction::Allow,
        RuleDirection::Inbound,
        RuleProtocol::TCP,
    )
    .with_priority(100);
    engine.add_rule(allow_tcp);
    engine.add_rule(block_ssh);

    assert_eq!(engine.process_packet(&inbound_tcp(22), 1), RuleAction::Block);
    assert_eq!(engine.process_packet(&inbound_tcp(80), 2), RuleAction::Allow);
    assert_eq!(engine.get_stats().total_packets_processed, 2);
    assert_eq!(engine.get_stats().packets_blocked, 1);
    assert_eq!(engine.get_stats().packets_allowed, 1);
}

#[test]
fn log_rules_never_terminate_the_walk() {
    let mut engine = FirewallEngine::new();
    engine.add_rule(RuleTemplates::log_all_connections());
    let block = FirewallRule::new(
        0,
        "Block all".to_string(),
        RuleAction::Block,
        RuleDirection::Bidirectional,
        RuleProtocol::Any,
    )
    .with_priority(0);
    engine.add_rule(block);

    let action = engine.process_packet(&inbound_tcp(4444), 1);
    assert_eq!(action, RuleAction::Block);
    assert_eq!(engine.get_stats().packets_logged, 1);
    assert_eq!(engine.get_stats().packets_blocked, 1);
    assert_eq!(engine.get_stats().rules_matched, 2);
    assert_eq!(engine.get_recent_events().len(), 2);
}

#[test]
fn fail_open_without_addresses() {
    let mut engine = FirewallEngine::new();
    engine.add_rule(RuleTemplates::block_all_incoming());
    let bare = PacketMeta::new(0, 64, TransportTag::Tcp, None, None, None, None);
    assert_eq!(engine.process_packet(&bare, 1), RuleAction::Allow);
    let mut disabled = FirewallEngine::new();
    disabled.set_enabled(false);
    assert_eq!(disabled.process_packet(&inbound_tcp(22), 1), RuleAction::Allow);
    assert_eq!(disabled.get_stats().total_packets_processed, 0);
}

#[test]
fn enable_disable_and_import() {
    let mut engine = FirewallEngine::new();
    let id = engine.add_rule(RuleTemplates::allow_ssh());
    assert!(engine.disable_rule(id));
    assert!(!engine.get_rule(id).unwrap().enabled);
    assert!(engine.enable_rule(id));
    assert!(engine.get_rule(id).unwrap().enabled);
    let batch = vec![RuleTemplates::allow_http_https(), RuleTemplates::block_suspicious_ports()];
    let count = engine.import_rules(batch);
    assert_eq!(count, 2);
    assert_eq!(engine.get_rules().len(), 3);
}

#[test]
fn event_ring_respects_its_cap() {
    let mut engine = FirewallEngine::new();
    engine.add_rule(RuleTemplates::log_all_connections());
    for i in 0..1100u64 {
        engine.process_packet(&inbound_tcp((i % 60000) as u16), i);
    }
    assert_eq!(engine.get_recent_events().len(), 1000);
    assert_eq!(engine.get_stats().packets_logged, 1100);
}

#[test]
fn event_summaries_and_ages() {
    let mut engine = FirewallEngine::new();
    engine.add_rule(RuleTemplates::allow_ssh());
    let packet = PacketMeta::new(
        5,
        64,
        TransportTag::Tcp,
        Some(IpAddress::v4(8, 8, 8, 8)),
        Some(IpAddress::v4(192, 168, 1, 1)),
        Some(12345),
        Some(22),
    );
    engine.process_packet(&packet, 5);
    let event = &engine.get_recent_events()[0];
    assert_eq!(
        event.format_summary(),
        "Allow TCP 8.8.8.8:12345 -> 192.168.1.1:22 (Allow SSH)"
    );
    assert_eq!(event.get_age(12), 7);
    assert_eq!(event.get_age(3), 0);

    let rule = engine.get_rule(1).unwrap();
    assert_eq!(rule.get_age(30), 30);
    assert_eq!(rule.get_time_since_last_match(9), Some(4));
    let untouched = RuleTemplates::log_all_connections();
    assert_eq!(untouched.get_time_since_last_match(9), None);
}
