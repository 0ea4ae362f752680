use namib_core::acl::{merge_acls, Ace, AceAction, AceMatches, AceProtocol, Acl, AclDirection, AclType};
use namib_core::address::IpAddress;
use namib_core::firewall::{
    convert_device_to_fw_rules, remote_rule_target, Device, FirewallDevice, FirewallRule, Protocol, RuleName, RuleTarget, Verdict,
};
use namib_core::profile::MudData;

fn matches(protocol: Option<AceProtocol>, dnsname: Option<&str>) -> AceMatches {
    AceMatches {
        protocol,
        direction_initiated: None,
        address_mask: None,
        dnsname: dnsname.map(String::from),
        source_port: None,
        destination_port: None,
    }
}

fn ace(name: &str, action: AceAction, protocol: Option<AceProtocol>, dnsname: Option<&str>) -> Ace {
    Ace {
        name: name.to_string(),
        action,
        matches: matches(protocol, dnsname),
    }
}

fn acl(name: &str, direction: AclDirection, acl_type: AclType, ace: Vec<Ace>) -> Acl {
    Acl {
        name: name.to_string(),
        packet_direction: direction,
        acl_type,
        ace,
    }
}

fn profile(acllist: Vec<Acl>, acl_override: Vec<Acl>) -> MudData {
    MudData {
        url: "example.com/.well-known/mud".to_string(),
        masa_url: None,
        last_update: "some_last_update".to_string(),
        systeminfo: Some("some_systeminfo".to_string()),
        mfg_name: Some("some_mfg_name".to_string()),
        model_name: Some("some_model_name".to_string()),
        documentation: Some("some_documentation".to_string()),
        expiration: 0,
        acllist,
        acl_override,
    }
}

fn device(mud_data: Option<MudData>, collect_info: bool) -> Device {
    Device {
        id: 0,
        name: None,
        hostname: "".to_string(),
        vendor_class: "".to_string(),
        mud_url: Some("http://example.com/mud_url.json".to_string()),
        ipv4_addr: Some(0x7f00_0001),
        ipv6_addr: None,
        collect_info,
        mud_data,
    }
}

fn rule(name: &str, src: RuleTarget, dst: RuleTarget, protocol: Protocol, verdict: Verdict) -> FirewallRule {
    FirewallRule::new(RuleName::new(String::from(name)), src, dst, protocol, verdict)
}

fn host(name: &str) -> RuleTarget {
    RuleTarget::Hostname(String::from(name))
}

fn names(d: &FirewallDevice) -> Vec<String> {
    d.rules.iter().map(|r| r.name.0.clone()).collect()
}

#[test]
fn test_acl_merging() {
    let original_acls = vec![
        acl(
            "acl_to_device",
            AclDirection::ToDevice,
            AclType::IPV6,
            vec![ace("acl_to_device_0", AceAction::Accept, Some(AceProtocol::Tcp), None)],
        ),
        acl(
            "acl_from_device",
            AclDirection::FromDevice,
            AclType::IPV4,
            vec![ace("acl_from_device_0", AceAction::Deny, Some(AceProtocol::Tcp), None)],
        ),
    ];
    let override_acls = vec![
        acl(
            "acl_to_device",
            AclDirection::ToDevice,
            AclType::IPV4,
            vec![ace("acl_to_device_0", AceAction::Accept, Some(AceProtocol::Tcp), None)],
        ),
        acl(
            "acl_around_device_or_sth",
            AclDirection::FromDevice,
            AclType::IPV4,
            vec![ace("acl_around_device_or_sth_0", AceAction::Accept, Some(AceProtocol::Udp), None)],
        ),
    ];

    let merged_acls = merge_acls(&original_acls, &override_acls);

    let to_device_acl = merged_acls
        .iter()
        .find(|acl| acl.name == "acl_to_device")
        .expect("acl_to_device not in acls");
    assert_eq!(to_device_acl.ace, override_acls[0].ace);
    assert_eq!(to_device_acl.acl_type, override_acls[0].acl_type);
    assert_eq!(to_device_acl.packet_direction, override_acls[0].packet_direction);

    let from_device_acl = merged_acls
        .iter()
        .find(|acl| acl.name == "acl_from_device")
        .expect("acl_from_device not in acls");
    assert_eq!(from_device_acl.ace, original_acls[1].ace);
    assert_eq!(from_device_acl.acl_type, original_acls[1].acl_type);
    assert_eq!(from_device_acl.packet_direction, original_acls[1].packet_direction);

    let around_device_or_sth_acl = merged_acls
        .iter()
        .find(|acl| acl.name == "acl_around_device_or_sth")
        .expect("acl_around_device_or_sth not in acls");
    assert_eq!(around_device_or_sth_acl.ace, override_acls[1].ace);
    assert_eq!(around_device_or_sth_acl.acl_type, override_acls[1].acl_type);
    assert_eq!(
        around_device_or_sth_acl.packet_direction,
        override_acls[1].packet_direction
    );
}

#[test]
fn test_overridden_acls_to_firewall_rules() {
    let mud_data = profile(
        vec![acl(
            "some_acl_name",
            AclDirection::ToDevice,
            AclType::IPV6,
            vec![ace("some_ace_name", AceAction::Accept, Some(AceProtocol::Tcp), Some("www.example.test"))],
        )],
        vec![acl(
            "some_acl_name",
            AclDirection::ToDevice,
            AclType::IPV4,
            vec![ace("overriden_ace", AceAction::Deny, Some(AceProtocol::Udp), Some("www.example.test"))],
        )],
    );
    let device = device(Some(mud_data), false);

    let x = convert_device_to_fw_rules(&device);

    let resulting_device = FirewallDevice {
        id: device.id,
        ipv4_addr: device.ipv4_addr,
        ipv6_addr: device.ipv6_addr,
        rules: vec![
            rule("rule_0", host("www.example.test"), RuleTarget::ThisDevice, Protocol::Udp, Verdict::Reject),
            rule("rule_default_1", RuleTarget::ThisDevice, RuleTarget::Unspecified, Protocol::All, Verdict::Reject),
            rule("rule_default_2", RuleTarget::Unspecified, RuleTarget::ThisDevice, Protocol::All, Verdict::Reject),
        ],
        collect_data: false,
    };

    assert!(x.eq(&resulting_device));
}

#[test]
fn firewall_configuration_service_test_converting() {
    let mud_data = profile(
        vec![acl(
            "some_acl_name",
            AclDirection::ToDevice,
            AclType::IPV6,
            vec![ace("some_ace_name", AceAction::Accept, Some(AceProtocol::Tcp), Some("www.example.test"))],
        )],
        Vec::default(),
    );
    let device = device(Some(mud_data), true);

    let x = convert_device_to_fw_rules(&device);

    let resulting_device = FirewallDevice {
        id: device.id,
        ipv4_addr: device.ipv4_addr,
        ipv6_addr: device.ipv6_addr,
        rules: vec![
            rule("rule_0", host("www.example.test"), RuleTarget::ThisDevice, Protocol::Tcp, Verdict::Accept),
            rule("rule_default_1", RuleTarget::ThisDevice, RuleTarget::Unspecified, Protocol::All, Verdict::Reject),
            rule("rule_default_2", RuleTarget::Unspecified, RuleTarget::ThisDevice, Protocol::All, Verdict::Reject),
        ],
        collect_data: true,
    };

    assert!(x.eq(&resulting_device));
}

#[test]
fn device_without_profile_gets_no_rules() {
    let mut d = device(None, true);
    d.id = 7;
    d.ipv6_addr = Some(1);
    let x = convert_device_to_fw_rules(&d);
    assert_eq!(x.id, 7);
    assert_eq!(x.ipv4_addr, d.ipv4_addr);
    assert_eq!(x.ipv6_addr, Some(1));
    assert!(x.collect_data);
    assert!(x.rules.is_empty());
}

#[test]
fn empty_profile_gets_only_default_rules() {
    let x = convert_device_to_fw_rules(&device(Some(profile(vec![], vec![])), false));
    assert_eq!(
        x.rules,
        vec![
            rule("rule_default_0", RuleTarget::ThisDevice, RuleTarget::Unspecified, Protocol::All, Verdict::Reject),
            rule("rule_default_1", RuleTarget::Unspecified, RuleTarget::ThisDevice, Protocol::All, Verdict::Reject),
        ]
    );
}

#[test]
fn entries_without_endpoint_leave_index_gaps() {
    let p = profile(
        vec![
            acl(
                "a",
                AclDirection::FromDevice,
                AclType::IPV4,
                vec![
                    ace("a0", AceAction::Accept, None, Some("one.example.test")),
                    ace("a1", AceAction::Accept, Some(AceProtocol::Tcp), None),
                ],
            ),
            acl(
                "b",
                AclDirection::ToDevice,
                AclType::IPV4,
                vec![ace("b0", AceAction::Deny, Some(AceProtocol::Protocol(1)), Some("two.example.test"))],
            ),
        ],
        vec![],
    );
    let x = convert_device_to_fw_rules(&device(Some(p), false));
    assert_eq!(names(&x), vec!["rule_0", "rule_2", "rule_default_3", "rule_default_4"]);
    assert_eq!(x.rules[0], rule("rule_0", RuleTarget::ThisDevice, host("one.example.test"), Protocol::All, Verdict::Accept));
    assert_eq!(x.rules[1], rule("rule_2", host("two.example.test"), RuleTarget::ThisDevice, Protocol::All, Verdict::Reject));
}

#[test]
fn literal_addresses_become_ip_targets() {
    let p = profile(
        vec![acl(
            "a",
            AclDirection::FromDevice,
            AclType::IPV4,
            vec![
                ace("v4", AceAction::Accept, Some(AceProtocol::Udp), Some("192.168.1.20")),
                ace("v6", AceAction::Accept, Some(AceProtocol::Tcp), Some("2001:db8::1")),
                ace("name", AceAction::Accept, Some(AceProtocol::Tcp), Some("192.168.1.x")),
            ],
        )],
        vec![],
    );
    let x = convert_device_to_fw_rules(&device(Some(p), false));
    let v4: u32 = 0xc0a8_0114;
    let v6: u128 = 0x2001_0db8_0000_0000_0000_0000_0000_0001;
    assert_eq!(x.rules[0].dst, RuleTarget::LiteralIp(IpAddress::V4(v4)));
    assert_eq!(x.rules[0].protocol, Protocol::Udp);
    assert_eq!(x.rules[1].dst, RuleTarget::LiteralIp(IpAddress::V6(v6)));
    assert_eq!(x.rules[2].dst, host("192.168.1.x"));
    assert_eq!(x.rules.len(), 5);
}

#[test]
fn rule_names_past_nine_use_all_digits() {
    let aces: Vec<Ace> = (0..12)
        .map(|k| ace(&format!("e{}", k), AceAction::Accept, None, Some("h.example.test")))
        .collect();
    let p = profile(vec![acl("a", AclDirection::FromDevice, AclType::IPV4, aces)], vec![]);
    let x = convert_device_to_fw_rules(&device(Some(p), false));
    let n = names(&x);
    assert_eq!(n.len(), 14);
    assert_eq!(n[10], "rule_10");
    assert_eq!(n[11], "rule_11");
    assert_eq!(n[12], "rule_default_12");
    assert_eq!(n[13], "rule_default_13");
}

#[test]
fn compiling_twice_gives_same_names() {
    let p = profile(
        vec![acl(
            "a",
            AclDirection::FromDevice,
            AclType::IPV4,
            vec![
                ace("x", AceAction::Accept, None, None),
                ace("y", AceAction::Deny, None, Some("h.example.test")),
            ],
        )],
        vec![],
    );
    let d = device(Some(p), false);
    let first = convert_device_to_fw_rules(&d);
    let second = convert_device_to_fw_rules(&d);
    assert_eq!(names(&first), names(&second));
    assert_eq!(first, second);
}

#[test]
fn merge_keeps_base_order_then_overrides() {
    let base = vec![
        acl("a", AclDirection::FromDevice, AclType::IPV4, vec![]),
        acl("b", AclDirection::FromDevice, AclType::IPV4, vec![]),
        acl("c", AclDirection::ToDevice, AclType::IPV4, vec![]),
    ];
    let overrides = vec![
        acl("d", AclDirection::ToDevice, AclType::IPV6, vec![]),
        acl("b", AclDirection::ToDevice, AclType::IPV6, vec![]),
    ];
    let m = merge_acls(&base, &overrides);
    let order: Vec<&str> = m.iter().map(|a| a.name.as_str()).collect();
    assert_eq!(order, vec!["a", "c", "d", "b"]);
    assert_eq!(m[3].packet_direction, AclDirection::ToDevice);
}

#[test]
fn merge_without_overrides_keeps_base() {
    let base = vec![
        acl("a", AclDirection::FromDevice, AclType::IPV4, vec![]),
        acl("b", AclDirection::ToDevice, AclType::IPV6, vec![]),
    ];
    let m = merge_acls(&base, &[]);
    let copied: Vec<Acl> = m.into_iter().cloned().collect();
    assert_eq!(copied, base);
}

#[test]
fn remote_target_prefers_the_literal_address() {
    let text = "10.0.0.1".to_string();
    assert_eq!(
        remote_rule_target(&text, Some(IpAddress::V4(0x0a00_0001))),
        RuleTarget::LiteralIp(IpAddress::V4(0x0a00_0001))
    );
    assert_eq!(remote_rule_target(&text, None), host("10.0.0.1"));
}
