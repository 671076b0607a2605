use dd_wrt_wol::config::{HostConfig, HostConfigError};

fn host(name: &str, mac: &str, ip: &str) -> HostConfig {
    HostConfig {
        name: name.to_string(),
        mac_address: mac.to_string(),
        broadcast_ip: ip.to_string(),
    }
}

#[test]
fn host_config_parses_three_keys() {
    let parsed =
        HostConfig::from_str("name=foo,mac_address=AA:BB:CC:DD:EE:FF,broadcast_ip=192.168.1.255");
    assert_eq!(parsed, Ok(host("foo", "AA:BB:CC:DD:EE:FF", "192.168.1.255")));
}

#[test]
fn host_config_accepts_any_order_and_ignores_unknown_keys() {
    let parsed = HostConfig::from_str("broadcast_ip=10.0.0.255,colour=red,mac_address=m,name=bar");
    assert_eq!(parsed, Ok(host("bar", "m", "10.0.0.255")));
}

#[test]
fn host_config_last_repeated_key_wins() {
    let parsed = HostConfig::from_str("name=a,mac_address=m,broadcast_ip=b,name=z");
    assert_eq!(parsed, Ok(host("z", "m", "b")));
}

#[test]
fn host_config_rejects_item_without_value() {
    assert_eq!(
        HostConfig::from_str("name=foo,mac_address,broadcast_ip=b"),
        Err(HostConfigError::MalformedItem {
            item: "mac_address".to_string(),
            parts: 1
        })
    );
}

#[test]
fn host_config_rejects_item_with_two_equals() {
    assert_eq!(
        HostConfig::from_str("name=a=b,mac_address=m,broadcast_ip=b"),
        Err(HostConfigError::MalformedItem {
            item: "name=a=b".to_string(),
            parts: 3
        })
    );
}

#[test]
fn host_config_rejects_empty_text() {
    assert_eq!(
        HostConfig::from_str(""),
        Err(HostConfigError::MalformedItem {
            item: String::new(),
            parts: 1
        })
    );
}

#[test]
fn host_config_reports_missing_keys_in_order() {
    assert_eq!(
        HostConfig::from_str("mac_address=m"),
        Err(HostConfigError::MissingName)
    );
    assert_eq!(
        HostConfig::from_str("name=n,broadcast_ip=b"),
        Err(HostConfigError::MissingMacAddress)
    );
    assert_eq!(
        HostConfig::from_str("name=n,mac_address=m"),
        Err(HostConfigError::MissingBroadcastIp)
    );
}
