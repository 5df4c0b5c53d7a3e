use netmon::errors::CaptureError;

#[test]
fn messages_name_each_failure() {
    assert_eq!(
        CaptureError::CaptureUnavailable.message(),
        "Insufficient privileges. Grant the raw-socket capability: setcap cap_net_raw,cap_net_admin=eip"
    );
    assert_eq!(
        CaptureError::InterfaceNotFound("eth9".to_string(), vec!["eth0".to_string()]).message(),
        "Network interface not found: eth9"
    );
    assert_eq!(
        CaptureError::CaptureFailed("timeout".to_string()).message(),
        "Packet capture failed: timeout"
    );
    assert_eq!(
        CaptureError::DeviceFailed("gone".to_string()).message(),
        "Device error: gone"
    );
    assert_eq!(
        CaptureError::ProcReadFailed("/proc/net/tcp".to_string()).message(),
        "Cannot read kernel file: /proc/net/tcp"
    );
    assert_eq!(
        CaptureError::ProcParseFailed("/proc/net/udp".to_string(), "bad line".to_string())
            .message(),
        "Cannot parse kernel file: /proc/net/udp"
    );
    assert_eq!(
        CaptureError::ConfigInvalid("no interface".to_string()).message(),
        "Configuration invalid: no interface"
    );
    assert_eq!(
        CaptureError::RuleImportFailed("bad json".to_string()).message(),
        "Rule import failed: bad json"
    );
}

#[test]
fn only_configuration_trouble_is_fatal() {
    assert!(!CaptureError::CaptureUnavailable.is_fatal());
    assert!(!CaptureError::ProcReadFailed("x".to_string()).is_fatal());
    assert!(CaptureError::ConfigInvalid("x".to_string()).is_fatal());
}
