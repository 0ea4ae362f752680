//! Firewall rules, and their compilation from a device's usage profile.

use vstd::prelude::*;
use vstd::string::StringExecFns;

use crate::acl::{derefs, merge_acls, Ace, AceAction, AceProtocol, Acl, AclDirection};
use crate::address::{ip_literal_of, parse_ip_literal, IpAddress};
use crate::profile::{effective_acls, MudData};

verus! {

/// The transport protocol a rule applies to.
#[derive(Clone, Copy, Debug, PartialEq, Eq, Structural)]
pub enum Protocol {
    Tcp,
    Udp,
    All,
}

/// What the enforcer does with matching traffic.
#[derive(Clone, Copy, Debug, PartialEq, Eq, Structural)]
pub enum Verdict {
    Accept,
    Reject,
}

/// One end of a rule.
#[derive(Clone, Debug, PartialEq, Eq)]
pub enum RuleTarget {
    /// Any host.
    Unspecified,
    /// The device that the enforcer protects.
    ThisDevice,
    /// A literal address.
    LiteralIp(IpAddress),
    /// A host name, left for the enforcer to resolve.
    Hostname(String),
}

/// A rule target with its text as a sequence of characters.
pub enum TargetModel {
    Unspecified,
    ThisDevice,
    LiteralIp(IpAddress),
    Hostname(Seq<char>),
}

impl View for RuleTarget {
    type V = TargetModel;

    open spec fn view(&self) -> TargetModel {
        match self {
            RuleTarget::Unspecified => TargetModel::Unspecified,
            RuleTarget::ThisDevice => TargetModel::ThisDevice,
            RuleTarget::LiteralIp(a) => TargetModel::LiteralIp(*a),
            RuleTarget::Hostname(h) => TargetModel::Hostname(h@),
        }
    }
}

/// The name of a rule.
#[derive(Clone, Debug, PartialEq, Eq)]
pub struct RuleName(pub String);

impl RuleName {
    pub fn new(name: String) -> (r: RuleName)
        ensures
            r.0@ == name@,
    {
        RuleName(name)
    }
}

/// A compiled firewall rule.
#[derive(Clone, Debug, PartialEq, Eq)]
pub struct FirewallRule {
    pub name: RuleName,
    pub src: RuleTarget,
    pub dst: RuleTarget,
    pub protocol: Protocol,
    pub verdict: Verdict,
}

/// A rule with its texts as sequences of characters.
pub struct RuleModel {
    pub name: Seq<char>,
    pub src: TargetModel,
    pub dst: TargetModel,
    pub protocol: Protocol,
    pub verdict: Verdict,
}

impl View for FirewallRule {
    type V = RuleModel;

    open spec fn view(&self) -> RuleModel {
        RuleModel {
            name: self.name.0@,
            src: self.src@,
            dst: self.dst@,
            protocol: self.protocol,
            verdict: self.verdict,
        }
    }
}

impl FirewallRule {
    pub fn new(
        name: RuleName,
        src: RuleTarget,
        dst: RuleTarget,
        protocol: Protocol,
        verdict: Verdict,
    ) -> (r: FirewallRule)
        ensures
            r.name == name,
            r.src == src,
            r.dst == dst,
            r.protocol == protocol,
            r.verdict == verdict,
    {
        FirewallRule { name, src, dst, protocol, verdict }
    }
}

/// The rules of a list, as models.
pub open spec fn rule_models(rules: Seq<FirewallRule>) -> Seq<RuleModel> {
    rules.map_values(|r: FirewallRule| r@)
}

/// A device as the rule compiler sees it, with its resolved usage profile.
#[derive(Clone, Debug, PartialEq, Eq)]
pub struct Device {
    pub id: i64,
    pub name: Option<String>,
    pub hostname: String,
    pub vendor_class: String,
    pub mud_url: Option<String>,
    pub ipv4_addr: Option<u32>,
    pub ipv6_addr: Option<u128>,
    pub collect_info: bool,
    pub mud_data: Option<MudData>,
}

/// A device with its compiled rules, as sent to an enforcer.
#[derive(Clone, Debug, PartialEq, Eq)]
pub struct FirewallDevice {
    pub id: i64,
    pub ipv4_addr: Option<u32>,
    pub ipv6_addr: Option<u128>,
    pub rules: Vec<FirewallRule>,
    pub collect_data: bool,
}

/// The decimal digit `d` as a character.
pub open spec fn digit_char(d: nat) -> char {
    seq!['0', '1', '2', '3', '4', '5', '6', '7', '8', '9'][(d % 10) as int]
}

/// The decimal numeral of `n`, without sign or leading zeros.
pub open spec fn decimal(n: nat) -> Seq<char>
    decreases n,
{
    if n < 10 {
        seq![digit_char(n)]
    } else {
        decimal(n / 10).push(digit_char(n % 10))
    }
}

/// Relies on `<u128 as ToString>::to_string`: the decimal numeral of `n`.
#[verifier::external_body]
fn decimal_text(n: u128) -> (r: String)
    ensures
        r@ == decimal(n as nat),
{
    n.to_string()
}

fn indexed_name(prefix: &str, index: u128) -> (r: RuleName)
    ensures
        r.0@ == prefix@ + decimal(index as nat),
{
    let digits = decimal_text(index);
    RuleName::new(String::from_str(prefix).concat(digits.as_str()))
}

/// The name of the rule compiled from the entry at `index`.
pub open spec fn rule_name(index: nat) -> Seq<char> {
    "rule_"@ + decimal(index)
}

/// The name of a default rule at `index`.
pub open spec fn default_rule_name(index: nat) -> Seq<char> {
    "rule_default_"@ + decimal(index)
}

/// The entries of a list, each with the list's direction.
pub open spec fn acl_entries(acl: Acl) -> Seq<(AclDirection, Ace)> {
    acl.ace@.map_values(|e: Ace| (acl.packet_direction, e))
}

/// The entries of `acls`, list after list, each with its list's direction.
pub open spec fn entries(acls: Seq<Acl>) -> Seq<(AclDirection, Ace)>
    decreases acls.len(),
{
    if acls.len() == 0 {
        Seq::empty()
    } else {
        entries(acls.drop_last()) + acl_entries(acls.last())
    }
}

/// The rule protocol of an entry's protocol: all protocols where the entry
/// names none, or one that rules cannot express.
pub open spec fn protocol_of(p: Option<AceProtocol>) -> Protocol {
    match p {
        Some(AceProtocol::Tcp) => Protocol::Tcp,
        Some(AceProtocol::Udp) => Protocol::Udp,
        _ => Protocol::All,
    }
}

/// The verdict of an entry's action.
pub open spec fn verdict_of(a: AceAction) -> Verdict {
    match a {
        AceAction::Accept => Verdict::Accept,
        AceAction::Deny => Verdict::Reject,
    }
}

/// The target that a remote endpoint's text denotes: an address where the text
/// is an IP literal, else a host name.
pub open spec fn remote_target(endpoint: Seq<char>) -> TargetModel {
    match ip_literal_of(endpoint) {
        Some(a) => TargetModel::LiteralIp(a),
        None => TargetModel::Hostname(endpoint),
    }
}

/// The rule compiled from the entry at `index`: none where the entry names no
/// remote endpoint.
pub open spec fn entry_rule(index: nat, entry: (AclDirection, Ace)) -> Option<RuleModel> {
    let (direction, ace) = entry;
    match ace.matches.dnsname {
        None => None,
        Some(endpoint) => {
            let remote = remote_target(endpoint@);
            Some(
                RuleModel {
                    name: rule_name(index),
                    src: match direction {
                        AclDirection::FromDevice => TargetModel::ThisDevice,
                        AclDirection::ToDevice => remote,
                    },
                    dst: match direction {
                        AclDirection::FromDevice => remote,
                        AclDirection::ToDevice => TargetModel::ThisDevice,
                    },
                    protocol: protocol_of(ace.matches.protocol),
                    verdict: verdict_of(ace.action),
                },
            )
        },
    }
}

/// The rules compiled from `es`, each entry numbered by its position.
pub open spec fn emitted_rules(es: Seq<(AclDirection, Ace)>) -> Seq<RuleModel>
    decreases es.len(),
{
    if es.len() == 0 {
        Seq::empty()
    } else {
        let prev = emitted_rules(es.drop_last());
        match entry_rule((es.len() - 1) as nat, es.last()) {
            Some(r) => prev.push(r),
            None => prev,
        }
    }
}

/// The two closing rules, numbered from `index`: all egress, then all ingress,
/// rejected.
pub open spec fn default_rules(index: nat) -> Seq<RuleModel> {
    seq![
        RuleModel {
            name: default_rule_name(index),
            src: TargetModel::ThisDevice,
            dst: TargetModel::Unspecified,
            protocol: Protocol::All,
            verdict: Verdict::Reject,
        },
        RuleModel {
            name: default_rule_name(index + 1),
            src: TargetModel::Unspecified,
            dst: TargetModel::ThisDevice,
            protocol: Protocol::All,
            verdict: Verdict::Reject,
        },
    ]
}

/// The rules compiled from a profile.
pub open spec fn profile_rules(profile: MudData) -> Seq<RuleModel> {
    let es = entries(effective_acls(profile));
    emitted_rules(es) + default_rules(es.len())
}

/// The rules compiled for a device: none without a profile.
pub open spec fn device_rules(device: Device) -> Seq<RuleModel> {
    match device.mud_data {
        None => Seq::empty(),
        Some(profile) => profile_rules(profile),
    }
}

/// What compiling `device` gives: its identity, addresses and collection flag,
/// and its rules.
pub open spec fn compiles_to(device: Device, r: FirewallDevice) -> bool {
    &&& r.id == device.id
    &&& r.ipv4_addr == device.ipv4_addr
    &&& r.ipv6_addr == device.ipv6_addr
    &&& r.collect_data == device.collect_info
    &&& rule_models(r.rules@) == device_rules(device)
}

fn all_refs(acls: &[Acl]) -> (r: Vec<&Acl>)
    ensures
        derefs(r@) == acls@,
{
    let mut r: Vec<&Acl> = Vec::new();
    let mut i: usize = 0;
    while i < acls.len()
        invariant
            0 <= i <= acls@.len(),
            derefs(r@) == acls@.subrange(0, i as int),
        decreases acls@.len() - i,
    {
        let ghost old_r = r@;
        r.push(&acls[i]);
        assert(derefs(r@) =~= derefs(old_r).push(acls@[i as int]));
        i += 1;
        assert(derefs(r@) =~= acls@.subrange(0, i as int));
    }
    assert(acls@.subrange(0, acls@.len() as int) =~= acls@);
    r
}

fn compile_protocol(p: &Option<AceProtocol>) -> (r: Protocol)
    ensures
        r == protocol_of(*p),
{
    match p {
        None => Protocol::All,
        Some(AceProtocol::Tcp) => Protocol::Tcp,
        Some(AceProtocol::Udp) => Protocol::Udp,
        Some(AceProtocol::Protocol(_)) => Protocol::All,
    }
}

fn compile_verdict(a: AceAction) -> (r: Verdict)
    ensures
        r == verdict_of(a),
{
    match a {
        AceAction::Accept => Verdict::Accept,
        AceAction::Deny => Verdict::Reject,
    }
}

/// The target of a remote endpoint, given what reading its text as an IP
/// literal gave: that address, or else the text as a host name.
pub fn remote_rule_target(endpoint: &String, literal: Option<IpAddress>) -> (r: RuleTarget)
    ensures
        literal matches Some(a) ==> r == RuleTarget::LiteralIp(a),
        literal is None ==> r@ == TargetModel::Hostname(endpoint@),
{
    match literal {
        Some(a) => RuleTarget::LiteralIp(a),
        None => RuleTarget::Hostname(endpoint.clone()),
    }
}

fn compile_entry(index: u128, direction: AclDirection, ace: &Ace) -> (r: Option<FirewallRule>)
    ensures
        r matches Some(rule) ==> entry_rule(index as nat, (direction, *ace)) == Some(rule@),
        r is None ==> entry_rule(index as nat, (direction, *ace)) is None,
{
    match &ace.matches.dnsname {
        None => None,
        Some(endpoint) => {
            let remote = remote_rule_target(endpoint, parse_ip_literal(endpoint.as_str()));
            let (src, dst) = match direction {
                AclDirection::FromDevice => (RuleTarget::ThisDevice, remote),
                AclDirection::ToDevice => (remote, RuleTarget::ThisDevice),
            };
            let rule = FirewallRule::new(
                indexed_name("rule_", index),
                src,
                dst,
                compile_protocol(&ace.matches.protocol),
                compile_verdict(ace.action),
            );
            Some(rule)
        },
    }
}

proof fn lemma_entries_step(acls: Seq<Acl>, i: int)
    requires
        0 <= i < acls.len(),
    ensures
        entries(acls.subrange(0, i + 1)) == entries(acls.subrange(0, i)) + acl_entries(acls[i]),
{
    assert(acls.subrange(0, i + 1).drop_last() =~= acls.subrange(0, i));
}

proof fn lemma_index_room(i: int, j: int, m: int)
    requires
        0 <= i < m,
        0 <= j < m,
        m <= 0xffff_ffff_ffff_ffff,
    ensures
        i * m + j + 2 < 0xffff_ffff_ffff_ffff_ffff_ffff_ffff_ffff,
{
    assert(i * m <= (m - 1) * m) by (nonlinear_arith)
        requires
            0 <= i < m,
    ;
    assert((m - 1) * m + m == m * m) by (nonlinear_arith);
    assert(m * m <= 0xffff_ffff_ffff_ffff * 0xffff_ffff_ffff_ffff) by (nonlinear_arith)
        requires
            0 <= m <= 0xffff_ffff_ffff_ffff,
    ;
}

/// Compiles a device's usage profile into its firewall rules. Each entry of
/// the lists in force takes the next index, whether or not it yields a rule;
/// two rejecting default rules close the list. A device without a profile
/// gets no rules.
pub fn convert_device_to_fw_rules(device: &Device) -> (r: FirewallDevice)
    ensures
        compiles_to(*device, r),
{
    let profile = match &device.mud_data {
        None => {
            let r = FirewallDevice {
                id: device.id,
                ipv4_addr: device.ipv4_addr,
                ipv6_addr: device.ipv6_addr,
                rules: Vec::new(),
                collect_data: device.collect_info,
            };
            assert(rule_models(r.rules@) =~= Seq::empty());
            return r;
        },
        Some(p) => p,
    };
    let acls = if profile.acl_override.len() == 0 {
        all_refs(profile.acllist.as_slice())
    } else {
        merge_acls(profile.acllist.as_slice(), profile.acl_override.as_slice())
    };
    let ghost eff = derefs(acls@);
    assert(eff == effective_acls(*profile));
    let ghost m = usize::MAX as int;
    let mut rules: Vec<FirewallRule> = Vec::new();
    let mut index: u128 = 0;
    let mut i: usize = 0;
    while i < acls.len()
        invariant
            0 <= i <= acls@.len(),
            eff == derefs(acls@),
            m == usize::MAX as int,
            index == entries(eff.subrange(0, i as int)).len(),
            index <= i * m,
            rule_models(rules@) == emitted_rules(entries(eff.subrange(0, i as int))),
        decreases acls@.len() - i,
    {
        let acl: &Acl = acls[i];
        assert(*acl == eff[i as int]);
        let ghost done = entries(eff.subrange(0, i as int));
        let mut j: usize = 0;
        while j < acl.ace.len()
            invariant
                0 <= i < acls@.len(),
                i < m,
                0 <= j <= acl.ace@.len(),
                m == usize::MAX as int,
                index == done.len() + j,
                index <= i * m + j,
                rule_models(rules@) == emitted_rules(
                    done + acl_entries(*acl).subrange(0, j as int),
                ),
            decreases acl.ace@.len() - j,
        {
            let ghost before = done + acl_entries(*acl).subrange(0, j as int);
            let ghost after = done + acl_entries(*acl).subrange(0, j as int + 1);
            assert(after =~= before.push((acl.packet_direction, acl.ace@[j as int])));
            assert(after.drop_last() =~= before);
            let ghost old_rules = rules@;
            match compile_entry(index, acl.packet_direction, &acl.ace[j]) {
                Some(rule) => {
                    rules.push(rule);
                    assert(rule_models(rules@) =~= rule_models(old_rules).push(rule@));
                },
                None => {},
            }
            proof {
                lemma_index_room(i as int, j as int, m);
            }
            index += 1;
            j += 1;
        }
        proof {
            lemma_entries_step(eff, i as int);
            assert(acl_entries(*acl).subrange(0, acl.ace@.len() as int) =~= acl_entries(*acl));
            assert((i + 1) * m == i * m + m) by (nonlinear_arith);
        }
        i += 1;
    }
    assert(eff.subrange(0, acls@.len() as int) =~= eff);
    let ghost n = index as nat;
    proof {
        if i > 0 {
            lemma_index_room((i - 1) as int, m - 1, m);
            assert(i * m == (i - 1) * m + m) by (nonlinear_arith);
        }
    }
    rules.push(
        FirewallRule::new(
            indexed_name("rule_default_", index),
            RuleTarget::ThisDevice,
            RuleTarget::Unspecified,
            Protocol::All,
            Verdict::Reject,
        ),
    );
    index += 1;
    rules.push(
        FirewallRule::new(
            indexed_name("rule_default_", index),
            RuleTarget::Unspecified,
            RuleTarget::ThisDevice,
            Protocol::All,
            Verdict::Reject,
        ),
    );
    assert(rule_models(rules@) =~= emitted_rules(entries(eff)) + default_rules(n));
    FirewallDevice {
        id: device.id,
        ipv4_addr: device.ipv4_addr,
        ipv6_addr: device.ipv6_addr,
        rules,
        collect_data: device.collect_info,
    }
}

/// Compiling the same device twice gives the same number of rules, under the
/// same names in the same order.
pub proof fn compile_is_stable(device: Device, first: FirewallDevice, second: FirewallDevice)
    requires
        compiles_to(device, first),
        compiles_to(device, second),
    ensures
        first.rules@.len() == second.rules@.len(),
        forall|k: int|
            0 <= k < first.rules@.len() ==> (#[trigger] first.rules@[k]).name.0@
                == second.rules@[k].name.0@,
{
    assert forall|k: int| 0 <= k < first.rules@.len() implies (#[trigger] first.rules@[k]).name.0@
        == second.rules@[k].name.0@ by {
        assert(rule_models(first.rules@)[k] == rule_models(second.rules@)[k]);
    }
}

/// A device with a profile, even an empty one, gets rules that end with two
/// rejecting rules for all protocols: first from the device to anywhere, then
/// from anywhere to the device.
pub proof fn compile_ends_with_default_deny(device: Device, r: FirewallDevice)
    requires
        compiles_to(device, r),
        device.mud_data is Some,
    ensures
        r.rules@.len() >= 2,
        r.rules@[r.rules@.len() - 2].src == RuleTarget::ThisDevice,
        r.rules@[r.rules@.len() - 2].dst == RuleTarget::Unspecified,
        r.rules@[r.rules@.len() - 2].protocol == Protocol::All,
        r.rules@[r.rules@.len() - 2].verdict == Verdict::Reject,
        r.rules@[r.rules@.len() - 1].src == RuleTarget::Unspecified,
        r.rules@[r.rules@.len() - 1].dst == RuleTarget::ThisDevice,
        r.rules@[r.rules@.len() - 1].protocol == Protocol::All,
        r.rules@[r.rules@.len() - 1].verdict == Verdict::Reject,
{
    let models = rule_models(r.rules@);
    let n = r.rules@.len();
    assert(models.len() == n);
    assert(models[n - 2] == r.rules@[n - 2]@);
    assert(models[n - 1] == r.rules@[n - 1]@);
}

/// An entry without a remote endpoint yields no rule, yet takes its index: the
/// entry after it is numbered one further, as are the default rules.
pub proof fn entry_without_endpoint_takes_index(
    es: Seq<(AclDirection, Ace)>,
    skipped: (AclDirection, Ace),
    next: (AclDirection, Ace),
)
    requires
        skipped.1.matches.dnsname is None,
        next.1.matches.dnsname is Some,
    ensures
        emitted_rules(es.push(skipped)) == emitted_rules(es),
        emitted_rules(es.push(skipped).push(next)) == emitted_rules(es).push(
            entry_rule(es.len() + 1, next).unwrap(),
        ),
        entry_rule(es.len() + 1, next).unwrap().name == rule_name(es.len() + 1),
        default_rules(es.push(skipped).len())[0].name == default_rule_name(es.len() + 1),
{
    let once = es.push(skipped);
    let twice = once.push(next);
    assert(once.drop_last() =~= es);
    assert(twice.drop_last() =~= once);
    assert(once.last() == skipped);
    assert(twice.last() == next);
    assert(emitted_rules(once) == emitted_rules(es));
    assert((twice.len() - 1) as nat == es.len() + 1);
    assert(emitted_rules(twice) == emitted_rules(once).push(
        entry_rule(es.len() + 1, next).unwrap(),
    ));
}

/// Each entry with a remote endpoint yields its rule, numbered by its position
/// among all entries.
pub proof fn entry_with_endpoint_is_emitted(es: Seq<(AclDirection, Ace)>, k: int)
    requires
        0 <= k < es.len(),
        es[k].1.matches.dnsname is Some,
    ensures
        entry_rule(k as nat, es[k]) is Some,
        entry_rule(k as nat, es[k]).unwrap().name == rule_name(k as nat),
        emitted_rules(es).contains(entry_rule(k as nat, es[k]).unwrap()),
    decreases es.len(),
{
    let prev = es.drop_last();
    if k == es.len() - 1 {
        assert(emitted_rules(es).last() == entry_rule(k as nat, es[k]).unwrap());
    } else {
        assert(prev[k] == es[k]);
        entry_with_endpoint_is_emitted(prev, k);
        let w = choose|w: int|
            0 <= w < emitted_rules(prev).len() && emitted_rules(prev)[w] == entry_rule(
                k as nat,
                es[k],
            ).unwrap();
        assert(emitted_rules(es)[w] == emitted_rules(prev)[w]);
    }
}

} // verus!
