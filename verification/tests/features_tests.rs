use netmon::features::AdvancedFeatures;

#[test]
fn test_advanced_features_default() {
    let features = AdvancedFeatures::new();
    assert!(!features.has_any_advanced_features());
    assert_eq!(features.get_enabled_features().len(), 0);
}

#[test]
fn test_advanced_features_from_cli() {
    let features = AdvancedFeatures::from_cli_args(true, false, false, false);
    assert!(features.firewall_enabled);
    assert!(!features.metrics_explorer_enabled);
    assert!(!features.fuzzy_search_enabled);
}

#[test]
fn test_enable_all_advanced() {
    let features = AdvancedFeatures::from_cli_args(false, false, false, true);
    assert!(features.has_any_advanced_features());
    assert!(features.firewall_enabled);
    assert!(features.metrics_explorer_enabled);
    assert!(features.fuzzy_search_enabled);
}

#[test]
fn enabled_feature_names_follow_the_flags_in_order() {
    let mut features = AdvancedFeatures::new();
    features.enable_search();
    features.enable_firewall();
    assert_eq!(
        features.get_enabled_features(),
        vec!["Firewall".to_string(), "Fuzzy Search".to_string()]
    );
    let all = AdvancedFeatures::from_cli_args(false, false, false, true);
    assert_eq!(
        all.get_enabled_features(),
        vec![
            "Firewall".to_string(),
            "Metrics Explorer".to_string(),
            "Fuzzy Search".to_string(),
            "Deep Packet Inspection".to_string(),
            "Historical Analysis".to_string(),
        ]
    );
}

#[test]
fn memory_estimate_follows_switches() {
    let mut features = AdvancedFeatures::new();
    assert_eq!(features.get_memory_usage_estimate(), 0);
    features.enable_metrics();
    assert_eq!(features.get_memory_usage_estimate(), 1024 + 1536);
    features.disable_metrics();
    features.enable_firewall();
    assert_eq!(features.get_memory_usage_estimate(), 512);
}
