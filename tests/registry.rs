use dd_wrt_wol::config::{Config, HostConfig};
use dd_wrt_wol::events::{Event, Wakeup};
use dd_wrt_wol::registry::{Host, HostRegistry};

fn host(name: &str, mac: &str, ip: &str) -> HostConfig {
    HostConfig {
        name: name.to_string(),
        mac_address: mac.to_string(),
        broadcast_ip: ip.to_string(),
    }
}

fn registry_with(name: &str, times: &[u64]) -> HostRegistry {
    let mut registry = HostRegistry::new();
    registry.add_host(&host(name, "AA:BB:CC:DD:EE:FF", "192.168.1.255"));
    for t in times {
        assert_eq!(registry.record_wake(name, *t), Some(*t));
    }
    registry
}

fn wakeup(time: u64) -> Event {
    Event::Wakeup(Wakeup {
        mac_address: "AA:BB:CC:DD:EE:FF".to_string(),
        broadcast_ip: "192.168.1.255".to_string(),
        time_of_occurrence: time,
    })
}

#[test]
fn answer_reports_last_entry_after_cursor() {
    let registry = registry_with("pc", &[100, 200, 300]);
    assert_eq!(registry.answer("pc", 150), wakeup(300));
    assert_eq!(registry.answer("pc", 300), Event::Ignore);
    assert_eq!(registry.answer("pc", 50), wakeup(300));
}

#[test]
fn answer_ignores_cursor_past_every_entry() {
    let registry = registry_with("pc", &[100, 200, 300]);
    assert_eq!(registry.answer("pc", 301), Event::Ignore);
    assert_eq!(registry.answer("pc", u64::MAX), Event::Ignore);
}

#[test]
fn answer_ignores_host_without_wakes() {
    let registry = registry_with("pc", &[]);
    assert_eq!(registry.answer("pc", 0), Event::Ignore);
}

#[test]
fn answer_reports_newest_even_if_log_is_out_of_order() {
    let registry = registry_with("pc", &[500, 100]);
    assert_eq!(registry.answer("pc", 50), wakeup(100));
    assert_eq!(registry.answer("pc", 200), wakeup(500));
}

#[test]
fn answer_unknown_machine_is_not_found() {
    let registry = registry_with("pc", &[100]);
    assert_eq!(registry.answer("ghost", 0), Event::MachineNotFound);
    assert_eq!(registry.answer("ghost", 100), Event::MachineNotFound);
    assert_eq!(registry.answer("ghost", u64::MAX), Event::MachineNotFound);
    assert_eq!(HostRegistry::new().answer("pc", 0), Event::MachineNotFound);
}

#[test]
fn answer_is_idempotent() {
    let registry = registry_with("pc", &[100, 200]);
    let first = registry.answer("pc", 150);
    let second = registry.answer("pc", 150);
    assert_eq!(first, second);
    assert_eq!(registry.list_entries("pc"), Some(&vec![100, 200]));
}

#[test]
fn record_wake_appends_once_per_call() {
    let mut registry = registry_with("pc", &[]);
    let n: u64 = 25;
    for t in 0..n {
        assert_eq!(registry.record_wake("pc", 1000 + t), Some(1000 + t));
    }
    let entries = registry.list_entries("pc").unwrap();
    assert_eq!(entries.len() as u64, n);
    assert!(entries.windows(2).all(|w| w[0] < w[1]));
}

#[test]
fn record_wake_unknown_machine_changes_nothing() {
    let mut registry = registry_with("pc", &[7]);
    assert_eq!(registry.record_wake("ghost", 9), None);
    assert_eq!(registry.list_entries("pc"), Some(&vec![7]));
    assert_eq!(registry.list_entries("ghost"), None);
}

#[test]
fn record_wake_keeps_other_hosts() {
    let mut registry = HostRegistry::new();
    registry.add_host(&host("a", "m1", "b1"));
    registry.add_host(&host("b", "m2", "b2"));
    registry.record_wake("a", 10);
    registry.record_wake("b", 20);
    registry.record_wake("a", 30);
    assert_eq!(registry.list_entries("a"), Some(&vec![10, 30]));
    assert_eq!(registry.list_entries("b"), Some(&vec![20]));
}

#[test]
fn wake_then_poll_end_to_end() {
    let mut registry = HostRegistry::new();
    registry.add_host(&host("foo", "AA:BB:CC:DD:EE:FF", "192.168.1.255"));
    let t1 = registry.record_wake("foo", 1_700_000_000).unwrap();
    assert_eq!(registry.list_entries("foo"), Some(&vec![t1]));
    assert_eq!(registry.answer("foo", 0), wakeup(t1));
    assert_eq!(registry.answer("foo", t1), Event::Ignore);
    let t2 = registry.record_wake("foo", 1_700_000_060).unwrap();
    assert_eq!(registry.list_entries("foo"), Some(&vec![t1, t2]));
    assert_eq!(registry.answer("foo", t1), wakeup(t2));
}

#[test]
fn get_returns_host_fields() {
    let registry = registry_with("pc", &[42]);
    let h: &Host = registry.get("pc").unwrap();
    assert_eq!(h.mac_address(), "AA:BB:CC:DD:EE:FF");
    assert_eq!(h.broadcast_ip(), "192.168.1.255");
    assert_eq!(h.entries(), &vec![42]);
    assert!(registry.get("other").is_none());
}

#[test]
fn host_new_has_empty_log() {
    let h = Host::new("m".to_string(), "b".to_string());
    assert!(h.entries().is_empty());
    assert_eq!(h.mac_address(), "m");
}

#[test]
fn add_host_replaces_same_name() {
    let mut registry = registry_with("pc", &[1, 2]);
    registry.add_host(&host("pc", "new-mac", "new-ip"));
    assert_eq!(registry.list_entries("pc"), Some(&vec![]));
    assert_eq!(registry.get("pc").unwrap().mac_address(), "new-mac");
}

#[test]
fn from_config_registers_every_host() {
    let config = Config {
        hosts: vec![
            host("a", "m1", "b1"),
            host("b", "m2", "b2"),
            host("a", "m3", "b3"),
        ],
    };
    let registry = HostRegistry::from_config(&config);
    assert_eq!(registry.get("a").unwrap().mac_address(), "m3");
    assert_eq!(registry.get("b").unwrap().broadcast_ip(), "b2");
    assert_eq!(registry.list_entries("a"), Some(&vec![]));
    assert!(registry.get("c").is_none());
}
