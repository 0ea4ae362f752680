use namib_core::address::IpAddress;
use namib_core::firewall::Device;
use namib_core::server::{
    config_is_current, create_configuration, heartbeat, next_config_version, retry_op, Admission, RetryAction,
    SessionTable, MAX_CONCURRENT_CHANNELS,
};

fn device(id: i64, ipv4_addr: Option<u32>, ipv6_addr: Option<u128>) -> Device {
    Device {
        id,
        name: None,
        hostname: String::new(),
        vendor_class: String::new(),
        mud_url: None,
        ipv4_addr,
        ipv6_addr,
        collect_info: false,
        mud_data: None,
    }
}

fn fleet() -> Vec<Device> {
    vec![device(1, Some(10), None), device(2, None, None), device(3, None, Some(99))]
}

#[test]
fn heartbeat_with_current_version_gets_nothing() {
    assert!(heartbeat(5, Some(5), &fleet(), None).is_none());
    assert!(config_is_current(5, Some(5)));
}

#[test]
fn heartbeat_with_stale_version_gets_current_config() {
    let config = heartbeat(5, Some(4), &fleet(), Some("ctl.example.test".to_string())).unwrap();
    assert_eq!(config.version, 5);
    assert_eq!(config.known_domain, Some("ctl.example.test".to_string()));
    assert_eq!(config.firewall_devices.len(), 2);
    assert!(!config_is_current(5, Some(4)));
}

#[test]
fn heartbeat_without_version_gets_current_config() {
    let config = heartbeat(0, None, &fleet(), None).unwrap();
    assert_eq!(config.version, 0);
    assert!(!config_is_current(0, None));
}

#[test]
fn configuration_skips_devices_without_address() {
    let config = create_configuration(9, &fleet(), None);
    let ids: Vec<i64> = config.firewall_devices.iter().map(|d| d.id).collect();
    assert_eq!(ids, vec![1, 3]);
    assert_eq!(config.firewall_devices[1].ipv6_addr, Some(99));
    assert!(config.firewall_devices[0].rules.is_empty());
}

#[test]
fn version_counts_up_and_wraps() {
    assert_eq!(next_config_version(0), 1);
    assert_eq!(next_config_version(41), 42);
    assert_eq!(next_config_version(u64::MAX), 0);
}

#[test]
fn second_channel_of_a_peer_is_dropped() {
    let mut table = SessionTable::new();
    let peer = IpAddress::V4(0x0a00_0001);
    assert_eq!(table.accept_channel(peer), Admission::Serve);
    assert_eq!(table.accept_channel(peer), Admission::Drop);
    assert_eq!(table.accept_channel(IpAddress::V6(0x0a00_0001)), Admission::Serve);
}

#[test]
fn channels_past_the_cap_wait_and_take_freed_slots() {
    let mut table = SessionTable::new();
    for k in 0..MAX_CONCURRENT_CHANNELS as u32 {
        assert_eq!(table.accept_channel(IpAddress::V4(k)), Admission::Serve);
    }
    assert_eq!(table.accept_channel(IpAddress::V4(100)), Admission::Wait);
    assert_eq!(table.accept_channel(IpAddress::V4(101)), Admission::Wait);
    assert_eq!(table.accept_channel(IpAddress::V4(100)), Admission::Drop);
    assert_eq!(table.close_channel(IpAddress::V4(3)), Some(IpAddress::V4(100)));
    assert_eq!(table.close_channel(IpAddress::V4(101)), None);
    assert_eq!(table.close_channel(IpAddress::V4(0)), None);
    assert_eq!(table.close_channel(IpAddress::V4(0)), None);
    assert_eq!(table.accept_channel(IpAddress::V4(0)), Admission::Serve);
    assert_eq!(table.accept_channel(IpAddress::V4(3)), Admission::Wait);
}

#[test]
fn call_out_is_tried_ten_times_a_minute_apart() {
    assert_eq!(retry_op(0, true), RetryAction::Done);
    assert_eq!(retry_op(0, false), RetryAction::RetryAfter(60));
    assert_eq!(retry_op(8, false), RetryAction::RetryAfter(60));
    assert_eq!(retry_op(9, false), RetryAction::GiveUp);
    assert_eq!(retry_op(9, true), RetryAction::Done);
    assert_eq!(retry_op(u32::MAX, false), RetryAction::GiveUp);
}
