//! Decisions of the enforcer-facing protocol server: when a heartbeat gets a
//! new configuration and what it holds, how the configuration version moves,
//! which connections are served, and how a failing call-out is retried.

use vstd::prelude::*;

use crate::address::IpAddress;
use crate::firewall::{compiles_to, convert_device_to_fw_rules, Device, FirewallDevice};

verus! {

/// What an enforcer applies: a version, the compiled devices, and the domain
/// that the controller is known under, if any.
#[derive(Clone, Debug, PartialEq, Eq)]
pub struct EnforcerConfig {
    pub version: u64,
    pub firewall_devices: Vec<FirewallDevice>,
    pub known_domain: Option<String>,
}

/// Holds of a device with an address of either family.
pub open spec fn addressable_pred() -> spec_fn(Device) -> bool {
    |d: Device| d.ipv4_addr is Some || d.ipv6_addr is Some
}

/// The devices of `devices` that have an address, in their order.
pub open spec fn addressable(devices: Seq<Device>) -> Seq<Device> {
    devices.filter(addressable_pred())
}

/// What the configuration of `version` over `devices` is: each device with an
/// address compiled, in order, and no other.
pub open spec fn configures(
    version: u64,
    devices: Seq<Device>,
    known_domain: Option<String>,
    r: EnforcerConfig,
) -> bool {
    let ds = addressable(devices);
    &&& r.version == version
    &&& r.known_domain == known_domain
    &&& r.firewall_devices@.len() == ds.len()
    &&& forall|k: int|
        0 <= k < ds.len() ==> compiles_to(#[trigger] ds[k], r.firewall_devices@[k])
}

/// Assembles the configuration of `version`: every device with an address of
/// either family, compiled, in the order given.
pub fn create_configuration(version: u64, devices: &[Device], known_domain: Option<String>) -> (r:
    EnforcerConfig)
    ensures
        configures(version, devices@, known_domain, r),
{
    let mut compiled: Vec<FirewallDevice> = Vec::new();
    let mut i: usize = 0;
    while i < devices.len()
        invariant
            0 <= i <= devices@.len(),
            compiled@.len() == addressable(devices@.subrange(0, i as int)).len(),
            forall|k: int|
                0 <= k < compiled@.len() ==> compiles_to(
                    #[trigger] addressable(devices@.subrange(0, i as int))[k],
                    compiled@[k],
                ),
        decreases devices@.len() - i,
    {
        let ghost prefix = devices@.subrange(0, i as int);
        proof {
            prefix.lemma_filter_push(devices@[i as int], addressable_pred());
            assert(prefix.push(devices@[i as int]) =~= devices@.subrange(0, i as int + 1));
        }
        let d = &devices[i];
        if d.ipv4_addr.is_some() || d.ipv6_addr.is_some() {
            let fw = convert_device_to_fw_rules(d);
            compiled.push(fw);
        }
        i += 1;
    }
    assert(devices@.subrange(0, devices@.len() as int) =~= devices@);
    EnforcerConfig { version, firewall_devices: compiled, known_domain }
}

/// Whether an enforcer that reports `client_version` already holds the
/// configuration of `current_version`.
pub fn config_is_current(current_version: u64, client_version: Option<u64>) -> (r: bool)
    ensures
        r == (client_version == Some(current_version)),
{
    match client_version {
        Some(v) => v == current_version,
        None => false,
    }
}

/// Answers a heartbeat: nothing where the enforcer reports the current
/// version, else the configuration of the current version.
pub fn heartbeat(
    current_version: u64,
    client_version: Option<u64>,
    devices: &[Device],
    known_domain: Option<String>,
) -> (r: Option<EnforcerConfig>)
    ensures
        client_version == Some(current_version) ==> r is None,
        client_version != Some(current_version) ==> (r matches Some(config) && configures(
            current_version,
            devices@,
            known_domain,
            config,
        )),
{
    if config_is_current(current_version, client_version) {
        None
    } else {
        Some(create_configuration(current_version, devices, known_domain))
    }
}

/// The version after a change: one more, wrapping to zero after the largest.
pub fn next_config_version(version: u64) -> (r: u64)
    ensures
        version < u64::MAX ==> r == version + 1,
        version == u64::MAX ==> r == 0,
{
    version.wrapping_add(1)
}

/// How many channels are served at once.
pub const MAX_CONCURRENT_CHANNELS: usize = 10;

/// What becomes of a new authenticated connection.
#[derive(Clone, Copy, Debug, PartialEq, Eq, Structural)]
pub enum Admission {
    /// Served now.
    Serve,
    /// Held until a slot frees.
    Wait,
    /// Dropped: its peer already has a channel.
    Drop,
}

/// The peers whose channels are served and those that wait, in arrival order.
pub struct SessionModel {
    pub serving: Seq<IpAddress>,
    pub waiting: Seq<IpAddress>,
}

/// The channels of the server, at most one for each peer address.
pub struct SessionTable {
    serving: Vec<IpAddress>,
    waiting: Vec<IpAddress>,
}

impl View for SessionTable {
    type V = SessionModel;

    closed spec fn view(&self) -> SessionModel {
        SessionModel { serving: self.serving@, waiting: self.waiting@ }
    }
}

/// Whether `peer` has a channel, served or waiting.
pub open spec fn has_channel(m: SessionModel, peer: IpAddress) -> bool {
    m.serving.contains(peer) || m.waiting.contains(peer)
}

impl SessionTable {
    /// At most one channel for each peer, at most the cap served, and none
    /// waiting while a slot is free.
    pub open spec fn wf(&self) -> bool {
        let m = self@;
        &&& m.serving.len() <= MAX_CONCURRENT_CHANNELS
        &&& (m.serving + m.waiting).no_duplicates()
        &&& m.waiting.len() > 0 ==> m.serving.len() == MAX_CONCURRENT_CHANNELS
    }

    /// A table with no channels.
    pub fn new() -> (r: SessionTable)
        ensures
            r.wf(),
            r@.serving.len() == 0,
            r@.waiting.len() == 0,
    {
        let r = SessionTable { serving: Vec::new(), waiting: Vec::new() };
        assert(r@.serving + r@.waiting =~= Seq::<IpAddress>::empty());
        r
    }

    fn position(peers: &Vec<IpAddress>, peer: IpAddress) -> (r: Option<usize>)
        ensures
            r matches Some(k) ==> k < peers@.len() && peers@[k as int] == peer,
            r is None ==> !peers@.contains(peer),
    {
        let mut k: usize = 0;
        while k < peers.len()
            invariant
                0 <= k <= peers@.len(),
                forall|j: int| 0 <= j < k ==> peers@[j] != peer,
            decreases peers@.len() - k,
        {
            if peers[k] == peer {
                return Some(k);
            }
            k += 1;
        }
        None
    }

    /// Admits a new channel from `peer`: dropped where the peer already has
    /// one, else served while fewer than the cap are, else queued.
    pub fn accept_channel(&mut self, peer: IpAddress) -> (r: Admission)
        requires
            old(self).wf(),
        ensures
            final(self).wf(),
            has_channel(old(self)@, peer) ==> r == Admission::Drop && final(self)@ == old(self)@,
            !has_channel(old(self)@, peer) && old(self)@.serving.len() < MAX_CONCURRENT_CHANNELS
                ==> r == Admission::Serve
                && final(self)@.serving == old(self)@.serving.push(peer)
                && final(self)@.waiting == old(self)@.waiting,
            !has_channel(old(self)@, peer) && old(self)@.serving.len() >= MAX_CONCURRENT_CHANNELS
                ==> r == Admission::Wait
                && final(self)@.serving == old(self)@.serving
                && final(self)@.waiting == old(self)@.waiting.push(peer),
    {
        let ghost old_all = self.serving@ + self.waiting@;
        let served = Self::position(&self.serving, peer).is_some();
        if served || Self::position(&self.waiting, peer).is_some() {
            return Admission::Drop;
        }
        assert(!old_all.contains(peer)) by {
            if old_all.contains(peer) {
                let w = choose|w: int| 0 <= w < old_all.len() && old_all[w] == peer;
                if w < self.serving@.len() {
                    assert(self.serving@[w] == peer);
                } else {
                    assert(self.waiting@[w - self.serving@.len()] == peer);
                }
            }
        }
        if self.serving.len() < MAX_CONCURRENT_CHANNELS {
            self.serving.push(peer);
            assert(self@.serving + self@.waiting =~= old_all.insert(self@.serving.len() - 1, peer));
            proof {
                old_all.insert_ensures(self@.serving.len() - 1, peer);
            }
            Admission::Serve
        } else {
            self.waiting.push(peer);
            assert(self@.serving + self@.waiting =~= old_all.push(peer));
            Admission::Wait
        }
    }

    /// Closes the channel of `peer`. Where it was served and a channel waits,
    /// the first waiting one is served in its slot and returned.
    pub fn close_channel(&mut self, peer: IpAddress) -> (r: Option<IpAddress>)
        requires
            old(self).wf(),
        ensures
            final(self).wf(),
            !has_channel(old(self)@, peer) ==> r is None && final(self)@ == old(self)@,
            old(self)@.waiting.contains(peer) ==> r is None
                && final(self)@.serving == old(self)@.serving
                && final(self)@.waiting == old(self)@.waiting.remove(old(self)@.waiting.index_of(peer)),
            old(self)@.serving.contains(peer) && old(self)@.waiting.len() == 0 ==> r is None
                && final(self)@.serving == old(self)@.serving.remove(old(self)@.serving.index_of(peer))
                && final(self)@.waiting == old(self)@.waiting,
            old(self)@.serving.contains(peer) && old(self)@.waiting.len() > 0
                ==> r == Some(old(self)@.waiting[0])
                && final(self)@.serving == old(self)@.serving.remove(
                old(self)@.serving.index_of(peer),
            ).push(old(self)@.waiting[0])
                && final(self)@.waiting == old(self)@.waiting.drop_first(),
    {
        let ghost old_serving = self.serving@;
        let ghost old_waiting = self.waiting@;
        proof {
            lemma_no_dup_parts(old_serving, old_waiting);
        }
        match Self::position(&self.serving, peer) {
            Some(k) => {
                proof {
                    old_serving.index_of_first_ensures(peer);
                    lemma_unique_index(old_serving, k as int, peer);
                }
                self.serving.remove(k);
                if self.waiting.len() > 0 {
                    let next = self.waiting.remove(0);
                    self.serving.push(next);
                    proof {
                        lemma_release_keeps_unique(old_serving, old_waiting, k as int, true);
                    }
                    Some(next)
                } else {
                    proof {
                        lemma_release_keeps_unique(old_serving, old_waiting, k as int, false);
                    }
                    None
                }
            },
            None => {
                match Self::position(&self.waiting, peer) {
                    Some(k) => {
                        proof {
                            lemma_unique_index(old_waiting, k as int, peer);
                            lemma_waiting_release_keeps_unique(old_serving, old_waiting, k as int);
                        }
                        self.waiting.remove(k);
                        None
                    },
                    None => None,
                }
            },
        }
    }
}

proof fn lemma_no_dup_parts(a: Seq<IpAddress>, b: Seq<IpAddress>)
    requires
        (a + b).no_duplicates(),
    ensures
        a.no_duplicates(),
        b.no_duplicates(),
        forall|x: IpAddress| a.contains(x) ==> !b.contains(x),
{
    let ab = a + b;
    assert forall|i: int, j: int| 0 <= i < a.len() && 0 <= j < a.len() && i != j implies a[i]
        != a[j] by {
        assert(ab[i] == a[i] && ab[j] == a[j]);
    }
    assert forall|i: int, j: int| 0 <= i < b.len() && 0 <= j < b.len() && i != j implies b[i]
        != b[j] by {
        assert(ab[a.len() + i] == b[i] && ab[a.len() + j] == b[j]);
    }
    assert forall|x: IpAddress| a.contains(x) implies !b.contains(x) by {
        if b.contains(x) {
            let i = choose|i: int| 0 <= i < a.len() && a[i] == x;
            let j = choose|j: int| 0 <= j < b.len() && b[j] == x;
            assert(ab[i] == x && ab[a.len() + j] == x);
        }
    }
}

proof fn lemma_unique_index(s: Seq<IpAddress>, k: int, x: IpAddress)
    requires
        s.no_duplicates(),
        0 <= k < s.len(),
        s[k] == x,
    ensures
        s.index_of(x) == k,
{
    s.index_of_first_ensures(x);
}

proof fn lemma_join_unique(a: Seq<IpAddress>, b: Seq<IpAddress>)
    requires
        a.no_duplicates(),
        b.no_duplicates(),
        forall|x: IpAddress| a.contains(x) ==> !b.contains(x),
    ensures
        (a + b).no_duplicates(),
{
    let ab = a + b;
    assert forall|i: int, j: int| 0 <= i < ab.len() && 0 <= j < ab.len() && i != j implies ab[i]
        != ab[j] by {
        if i < a.len() && j >= a.len() {
            assert(a.contains(ab[i]) && b.contains(ab[j]));
        } else if j < a.len() && i >= a.len() {
            assert(a.contains(ab[j]) && b.contains(ab[i]));
        }
    }
}

proof fn lemma_remove_keeps(s: Seq<IpAddress>, k: int)
    requires
        s.no_duplicates(),
        0 <= k < s.len(),
    ensures
        s.remove(k).no_duplicates(),
        forall|x: IpAddress| s.remove(k).contains(x) ==> s.contains(x),
{
    s.remove_ensures(k);
    let r = s.remove(k);
    assert forall|i: int, j: int| 0 <= i < r.len() && 0 <= j < r.len() && i != j implies r[i]
        != r[j] by {
        let si = if i < k { i } else { i + 1 };
        let sj = if j < k { j } else { j + 1 };
        assert(r[i] == s[si] && r[j] == s[sj]);
    }
    assert forall|x: IpAddress| r.contains(x) implies s.contains(x) by {
        let i = choose|i: int| 0 <= i < r.len() && r[i] == x;
        let si = if i < k { i } else { i + 1 };
        assert(s[si] == x);
    }
}

proof fn lemma_release_keeps_unique(
    serving: Seq<IpAddress>,
    waiting: Seq<IpAddress>,
    k: int,
    promote: bool,
)
    requires
        serving.no_duplicates(),
        waiting.no_duplicates(),
        forall|x: IpAddress| serving.contains(x) ==> !waiting.contains(x),
        0 <= k < serving.len(),
        promote ==> waiting.len() > 0,
    ensures
        promote ==> (serving.remove(k).push(waiting[0]) + waiting.drop_first()).no_duplicates(),
        !promote ==> (serving.remove(k) + waiting).no_duplicates(),
{
    lemma_remove_keeps(serving, k);
    let s = serving.remove(k);
    if promote {
        lemma_remove_keeps(waiting, 0);
        assert(waiting.remove(0) =~= waiting.drop_first());
        let w = waiting.drop_first();
        let s2 = s.push(waiting[0]);
        assert(waiting.contains(waiting[0]));
        assert forall|i: int, j: int| 0 <= i < s2.len() && 0 <= j < s2.len() && i != j implies s2[i]
            != s2[j] by {
            if i == s.len() {
                assert(s.contains(s2[j]));
            } else if j == s.len() {
                assert(s.contains(s2[i]));
            }
        }
        assert forall|x: IpAddress| s2.contains(x) implies !w.contains(x) by {
            let i = choose|i: int| 0 <= i < s2.len() && s2[i] == x;
            if w.contains(x) {
                let j = choose|j: int| 0 <= j < w.len() && w[j] == x;
                assert(waiting[j + 1] == x);
                if i < s.len() {
                    assert(s[i] == x);
                    assert(serving.contains(x));
                } else {
                    assert(waiting[j + 1] == waiting[0]);
                }
            }
        }
        lemma_join_unique(s2, w);
    } else {
        lemma_join_unique(s, waiting);
    }
}

proof fn lemma_waiting_release_keeps_unique(
    serving: Seq<IpAddress>,
    waiting: Seq<IpAddress>,
    k: int,
)
    requires
        serving.no_duplicates(),
        waiting.no_duplicates(),
        forall|x: IpAddress| serving.contains(x) ==> !waiting.contains(x),
        0 <= k < waiting.len(),
    ensures
        (serving + waiting.remove(k)).no_duplicates(),
{
    lemma_remove_keeps(waiting, k);
    lemma_join_unique(serving, waiting.remove(k));
}

/// How many times a call-out to the identification service is tried.
pub const RETRY_ATTEMPTS: u32 = 10;

/// The pause between two tries, in seconds.
pub const RETRY_INTERVAL_SECS: u64 = 60;

/// What follows one try of a call-out.
#[derive(Clone, Copy, Debug, PartialEq, Eq, Structural)]
pub enum RetryAction {
    /// It succeeded: stop.
    Done,
    /// It failed: try again after this many seconds.
    RetryAfter(u64),
    /// It failed for the last allowed time: stop and log.
    GiveUp,
}

/// Decides what follows a try, given the tries that failed before it.
pub fn retry_op(failed_before: u32, succeeded: bool) -> (r: RetryAction)
    ensures
        succeeded ==> r == RetryAction::Done,
        !succeeded && failed_before + 1 < RETRY_ATTEMPTS ==> r == RetryAction::RetryAfter(
            RETRY_INTERVAL_SECS,
        ),
        !succeeded && failed_before + 1 >= RETRY_ATTEMPTS ==> r == RetryAction::GiveUp,
{
    if succeeded {
        RetryAction::Done
    } else if failed_before < RETRY_ATTEMPTS - 1 {
        RetryAction::RetryAfter(RETRY_INTERVAL_SECS)
    } else {
        RetryAction::GiveUp
    }
}

} // verus!
