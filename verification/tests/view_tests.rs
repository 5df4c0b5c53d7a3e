use netmon::engine::FirewallEngine;
use netmon::view::{FirewallView, ViewKey};

#[test]
fn test_firewall_view_creation() {
    let view = FirewallView::new();
    assert_eq!(view.get_selected_rule(), 0);
    assert_eq!(view.get_selected_event(), 0);
    assert!(!view.is_rule_editor_open());
    assert!(view.is_stats_view());
}

#[test]
fn test_navigation() {
    let mut view = FirewallView::new();
    let mut engine = FirewallEngine::new();
    engine.load_default_rules();

    view.handle_key(ViewKey::Down, &mut engine, 0);
    assert_eq!(view.get_selected_rule(), 1);

    view.handle_key(ViewKey::Up, &mut engine, 0);
    assert_eq!(view.get_selected_rule(), 0);

    view.handle_key(ViewKey::ToggleStats, &mut engine, 0);
    assert!(!view.is_stats_view());
}

#[test]
fn enter_toggles_and_delete_removes() {
    let mut view = FirewallView::new();
    let mut engine = FirewallEngine::new();
    engine.load_default_rules();
    let first_enabled = engine.get_rules()[0].enabled;
    view.handle_key(ViewKey::Enter, &mut engine, 0);
    assert_eq!(engine.get_rules()[0].enabled, !first_enabled);
    let count = engine.get_rules().len();
    view.handle_key(ViewKey::Delete, &mut engine, 0);
    assert_eq!(engine.get_rules().len(), count - 1);
}
