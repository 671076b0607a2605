use vstd::prelude::*;

use crate::config::{Config, HostConfig, HostConfigView};
use crate::events::{Event, EventView, Wakeup, WakeupView};
use crate::text::views;

verus! {

/// A machine that can be woken, with the log of its wake requests.
#[derive(Debug, Clone)]
pub struct Host {
    mac_address: String,
    broadcast_ip: String,
    entries: Vec<u64>,
}

/// The mathematical form of a [`Host`].
pub struct HostView {
    pub mac_address: Seq<char>,
    pub broadcast_ip: Seq<char>,
    pub entries: Seq<u64>,
}

impl View for Host {
    type V = HostView;

    closed spec fn view(&self) -> HostView {
        HostView {
            mac_address: self.mac_address@,
            broadcast_ip: self.broadcast_ip@,
            entries: self.entries@,
        }
    }
}

impl Host {
    /// A host with an empty wake log.
    pub fn new(mac_address: String, broadcast_ip: String) -> (r: Host)
        ensures
            r@ == (HostView {
                mac_address: mac_address@,
                broadcast_ip: broadcast_ip@,
                entries: Seq::empty(),
            }),
    {
        Host { mac_address, broadcast_ip, entries: Vec::new() }
    }

    /// The MAC address that the magic packet is built from.
    pub fn mac_address(&self) -> (r: &String)
        ensures
            r@ == self@.mac_address,
    {
        &self.mac_address
    }

    /// The broadcast address that the magic packet is sent to.
    pub fn broadcast_ip(&self) -> (r: &String)
        ensures
            r@ == self@.broadcast_ip,
    {
        &self.broadcast_ip
    }

    /// The wake timestamps, oldest first.
    pub fn entries(&self) -> (r: &Vec<u64>)
        ensures
            r@ == self@.entries,
    {
        &self.entries
    }
}

/// The registry's contents: each machine name with its host.
pub type HostsMap = Map<Seq<char>, HostView>;

/// Position of the last occurrence of `k` in `s`, or -1.
pub open spec fn index_of(s: Seq<Seq<char>>, k: Seq<char>) -> int
    decreases s.len(),
{
    if s.len() == 0 {
        -1
    } else if s.last() == k {
        s.len() - 1
    } else {
        index_of(s.drop_last(), k)
    }
}

proof fn lemma_index_of(s: Seq<Seq<char>>, k: Seq<char>)
    ensures
        -1 <= index_of(s, k) < s.len(),
        index_of(s, k) >= 0 ==> s[index_of(s, k)] == k,
        index_of(s, k) == -1 ==> forall|j: int| 0 <= j < s.len() ==> s[j] != k,
    decreases s.len(),
{
    if s.len() > 0 {
        lemma_index_of(s.drop_last(), k);
        if s.last() != k && index_of(s, k) == -1 {
            assert forall|j: int| 0 <= j < s.len() implies s[j] != k by {
                if j < s.len() - 1 {
                    assert(s.drop_last()[j] == s[j]);
                }
            }
        }
    }
}

/// The registry that a list of host entries builds: each name maps to its
/// last entry, with an empty wake log.
pub open spec fn registry_of(hosts: Seq<HostConfigView>) -> HostsMap
    decreases hosts.len(),
{
    if hosts.len() == 0 {
        Map::empty()
    } else {
        let h = hosts.last();
        registry_of(hosts.drop_last()).insert(
            h.name,
            HostView { mac_address: h.mac_address, broadcast_ip: h.broadcast_ip, entries: Seq::empty() },
        )
    }
}

/// The last entry strictly after `since`, in append order.
pub open spec fn latest_after(entries: Seq<u64>, since: u64) -> Option<u64>
    decreases entries.len(),
{
    if entries.len() == 0 {
        None
    } else if entries.last() > since {
        Some(entries.last())
    } else {
        latest_after(entries.drop_last(), since)
    }
}

/// The answer to a poll for `name` with cursor `since`.
pub open spec fn answer_spec(hosts: HostsMap, name: Seq<char>, since: u64) -> EventView {
    if !hosts.contains_key(name) {
        EventView::MachineNotFound
    } else {
        match latest_after(hosts[name].entries, since) {
            None => EventView::Ignore,
            Some(t) => EventView::Wakeup(
                WakeupView {
                    mac_address: hosts[name].mac_address,
                    broadcast_ip: hosts[name].broadcast_ip,
                    time_of_occurrence: t,
                },
            ),
        }
    }
}

/// The registry after a wake of `name` at `now`: `now` is appended to that
/// host's log, and nothing else changes.
pub open spec fn record_wake_spec(hosts: HostsMap, name: Seq<char>, now: u64) -> HostsMap {
    hosts.insert(name, HostView { entries: hosts[name].entries.push(now), ..hosts[name] })
}

/// The registry after wakes of `name` at each of `times`, in order.
pub open spec fn record_wakes_spec(hosts: HostsMap, name: Seq<char>, times: Seq<u64>) -> HostsMap
    decreases times.len(),
{
    if times.len() == 0 {
        hosts
    } else {
        record_wake_spec(record_wakes_spec(hosts, name, times.drop_last()), name, times.last())
    }
}

/// Each timestamp is later than the one before it.
pub open spec fn strictly_increasing(s: Seq<u64>) -> bool {
    forall|i: int, j: int| 0 <= i < j < s.len() ==> s[i] < s[j]
}

/// Each timestamp is no earlier than the one before it.
pub open spec fn non_decreasing(s: Seq<u64>) -> bool {
    forall|i: int, j: int| 0 <= i <= j < s.len() ==> s[i] <= s[j]
}

/// A poll for a machine that the registry does not hold, whatever its cursor,
/// answers `MachineNotFound`.
pub proof fn lemma_unknown_machine_not_found(hosts: HostsMap, name: Seq<char>, since: u64)
    requires
        !hosts.contains_key(name),
    ensures
        answer_spec(hosts, name, since) == EventView::MachineNotFound,
{
}

/// Polling is idempotent: while the registry is unchanged, the same poll
/// gives the same answer. (`answer` itself only reads the registry.)
pub proof fn lemma_answer_idempotent(
    before: HostsMap,
    after: HostsMap,
    name: Seq<char>,
    since: u64,
)
    requires
        before == after,
    ensures
        answer_spec(before, name, since) == answer_spec(after, name, since),
{
}

/// Wakes recorded one after another each append exactly once: the host's log
/// grows by the recorded times, in order, and no other host changes. With
/// strictly increasing clock readings that all follow the existing log, the
/// log stays strictly increasing.
pub proof fn lemma_record_wakes(hosts: HostsMap, name: Seq<char>, times: Seq<u64>)
    requires
        hosts.contains_key(name),
    ensures
        record_wakes_spec(hosts, name, times).contains_key(name),
        record_wakes_spec(hosts, name, times)[name].entries == hosts[name].entries + times,
        record_wakes_spec(hosts, name, times)[name].entries.len() == hosts[name].entries.len()
            + times.len(),
        record_wakes_spec(hosts, name, times).remove(name) == hosts.remove(name),
        record_wakes_spec(hosts, name, times)[name].mac_address == hosts[name].mac_address,
        record_wakes_spec(hosts, name, times)[name].broadcast_ip == hosts[name].broadcast_ip,
        strictly_increasing(hosts[name].entries) && strictly_increasing(times) && (
        hosts[name].entries.len() > 0 && times.len() > 0 ==> hosts[name].entries.last()
            < times[0]) ==> strictly_increasing(
            record_wakes_spec(hosts, name, times)[name].entries,
        ),
    decreases times.len(),
{
    if times.len() > 0 {
        lemma_record_wakes(hosts, name, times.drop_last());
        let prev = record_wakes_spec(hosts, name, times.drop_last());
        assert(hosts[name].entries + times =~= (hosts[name].entries + times.drop_last()).push(
            times.last(),
        ));
        assert(record_wakes_spec(hosts, name, times).remove(name) =~= prev.remove(name));
    } else {
        assert(hosts[name].entries + times =~= hosts[name].entries);
    }
    let all = hosts[name].entries + times;
    let n = hosts[name].entries.len();
    if strictly_increasing(hosts[name].entries) && strictly_increasing(times) && (
    hosts[name].entries.len() > 0 && times.len() > 0 ==> hosts[name].entries.last() < times[0]) {
        assert forall|i: int, j: int| 0 <= i < j < all.len() implies all[i] < all[j] by {
            if j >= n && i < n {
                assert(all[j] == times[j - n]);
                assert(all[i] == hosts[name].entries[i]);
                assert(hosts[name].entries[i] <= hosts[name].entries[n - 1]);
                assert(times[0] <= times[j - n]);
            }
        }
    }
}

/// After a wake at `now`, a poll with any earlier cursor reports that wake,
/// with the host's MAC and broadcast address.
pub proof fn lemma_poll_after_wake(hosts: HostsMap, name: Seq<char>, now: u64, since: u64)
    requires
        hosts.contains_key(name),
        since < now,
    ensures
        answer_spec(record_wake_spec(hosts, name, now), name, since) == EventView::Wakeup(
            WakeupView {
                mac_address: hosts[name].mac_address,
                broadcast_ip: hosts[name].broadcast_ip,
                time_of_occurrence: now,
            },
        ),
{
    let e = hosts[name].entries.push(now);
    assert(e.drop_last() =~= hosts[name].entries);
}

/// When no entry is after `t`, nothing is reported after `t`.
proof fn lemma_latest_after_none(entries: Seq<u64>, t: u64)
    requires
        forall|i: int| 0 <= i < entries.len() ==> entries[i] <= t,
    ensures
        latest_after(entries, t) is None,
    decreases entries.len(),
{
    if entries.len() > 0 {
        lemma_latest_after_none(entries.drop_last(), t);
    }
}

/// The reported entry is the newest after the cursor: every later entry is at
/// or before the cursor.
proof fn lemma_latest_after_is_last(entries: Seq<u64>, since: u64)
    ensures
        latest_after(entries, since) matches Some(t) ==> exists|i: int|
            0 <= i < entries.len() && #[trigger] entries[i] == t && t > since && forall|j: int|
                i < j < entries.len() ==> entries[j] <= since,
    decreases entries.len(),
{
    if entries.len() > 0 && entries.last() <= since {
        let prefix = entries.drop_last();
        lemma_latest_after_is_last(prefix, since);
        if latest_after(prefix, since) is Some {
            let i = choose|i: int|
                0 <= i < prefix.len() && #[trigger] prefix[i] == latest_after(prefix, since)->0
                    && forall|j: int| i < j < prefix.len() ==> prefix[j] <= since;
            assert(entries[i] == prefix[i]);
            assert forall|j: int| i < j < entries.len() implies entries[j] <= since by {
                if j < prefix.len() {
                    assert(entries[j] == prefix[j]);
                }
            }
        }
    } else if entries.len() > 0 {
        assert(entries[entries.len() - 1] == entries.last());
    }
}

/// Re-polling with the cursor set to the reported wake does not report it
/// again, as long as the log is in time order.
pub proof fn lemma_repoll_at_cursor_ignores(hosts: HostsMap, name: Seq<char>, since: u64)
    requires
        hosts.contains_key(name),
        non_decreasing(hosts[name].entries),
        answer_spec(hosts, name, since) is Wakeup,
    ensures
        answer_spec(hosts, name, answer_spec(hosts, name, since)->Wakeup_0.time_of_occurrence)
            == EventView::Ignore,
{
    let e = hosts[name].entries;
    lemma_latest_after_is_last(e, since);
    let t = latest_after(e, since)->0;
    let i = choose|i: int|
        0 <= i < e.len() && #[trigger] e[i] == t && t > since && forall|j: int|
            i < j < e.len() ==> e[j] <= since;
    assert forall|k: int| 0 <= k < e.len() implies e[k] <= t by {
        if k > i {
            assert(e[k] <= since);
        } else {
            assert(e[k] <= e[i]);
        }
    }
    lemma_latest_after_none(e, t);
}

/// The newest entry strictly after `since`.
fn latest_entry_after(entries: &Vec<u64>, since: u64) -> (r: Option<u64>)
    ensures
        r == latest_after(entries@, since),
{
    let mut i: usize = entries.len();
    assert(entries@.subrange(0, i as int) =~= entries@);
    while i > 0
        invariant
            i <= entries.len(),
            latest_after(entries@, since) == latest_after(entries@.subrange(0, i as int), since),
        decreases i,
    {
        assert(entries@.subrange(0, i as int).drop_last() =~= entries@.subrange(0, i - 1));
        if entries[i - 1] > since {
            return Some(entries[i - 1]);
        }
        i = i - 1;
    }
    None
}

/// The machines that can be woken, by name. Shared by all request handlers
/// behind one read-write lock.
pub struct HostRegistry {
    names: Vec<String>,
    hosts: Vec<Host>,
}

impl View for HostRegistry {
    type V = HostsMap;

    closed spec fn view(&self) -> HostsMap {
        Map::new(
            |k: Seq<char>| index_of(views(self.names@), k) >= 0,
            |k: Seq<char>| self.hosts@[index_of(views(self.names@), k)]@,
        )
    }
}

impl HostRegistry {
    /// Each name has exactly one host.
    pub closed spec fn wf(&self) -> bool {
        self.names.len() == self.hosts.len()
    }

    /// An empty registry.
    pub fn new() -> (r: HostRegistry)
        ensures
            r.wf(),
            r@ == HostsMap::empty(),
    {
        let r = HostRegistry { names: Vec::new(), hosts: Vec::new() };
        assert(r@ =~= HostsMap::empty());
        r
    }

    /// Where `name` is stored.
    fn find(&self, name: &str) -> (r: Option<usize>)
        requires
            self.wf(),
        ensures
            r matches Some(i) ==> i < self.hosts.len() && i == index_of(views(self.names@), name@),
            r is None ==> index_of(views(self.names@), name@) == -1,
    {
        let wanted = name.to_owned();
        let ghost nv = views(self.names@);
        let mut i: usize = self.names.len();
        assert(nv.subrange(0, i as int) =~= nv);
        while i > 0
            invariant
                self.wf(),
                nv == views(self.names@),
                i <= self.names.len(),
                wanted@ == name@,
                index_of(nv, name@) == index_of(nv.subrange(0, i as int), name@),
            decreases i,
        {
            assert(nv.subrange(0, i as int).drop_last() =~= nv.subrange(0, i - 1));
            assert(nv.subrange(0, i as int).last() == self.names@[i - 1]@);
            if self.names[i - 1] == wanted {
                return Some(i - 1);
            }
            i = i - 1;
        }
        None
    }

    /// The host named `name`, if there is one.
    pub fn get(&self, name: &str) -> (r: Option<&Host>)
        requires
            self.wf(),
        ensures
            r matches Some(h) ==> self@.contains_key(name@) && h@ == self@[name@],
            r is None ==> !self@.contains_key(name@),
    {
        match self.find(name) {
            Some(i) => Some(&self.hosts[i]),
            None => None,
        }
    }

    /// The wake log of `name`, oldest first.
    pub fn list_entries(&self, name: &str) -> (r: Option<&Vec<u64>>)
        requires
            self.wf(),
        ensures
            r matches Some(v) ==> self@.contains_key(name@) && v@ == self@[name@].entries,
            r is None ==> !self@.contains_key(name@),
    {
        match self.get(name) {
            Some(host) => Some(&host.entries),
            None => None,
        }
    }

    /// Answers a poll: the newest wake of `name` strictly after `since`, or
    /// `Ignore` when there is none, or `MachineNotFound`.
    pub fn answer(&self, name: &str, since: u64) -> (r: Event)
        requires
            self.wf(),
        ensures
            r@ == answer_spec(self@, name@, since),
    {
        match self.get(name) {
            None => Event::MachineNotFound,
            Some(host) => match latest_entry_after(&host.entries, since) {
                None => Event::Ignore,
                Some(t) => Event::Wakeup(
                    Wakeup {
                        mac_address: host.mac_address.clone(),
                        broadcast_ip: host.broadcast_ip.clone(),
                        time_of_occurrence: t,
                    },
                ),
            },
        }
    }

    /// Appends `now` to the wake log of `name` and returns it; `None`, with
    /// nothing changed, when there is no such machine.
    pub fn record_wake(&mut self, name: &str, now: u64) -> (r: Option<u64>)
        requires
            old(self).wf(),
        ensures
            final(self).wf(),
            old(self)@.contains_key(name@) ==> r == Some(now) && final(self)@ == record_wake_spec(
                old(self)@,
                name@,
                now,
            ),
            !old(self)@.contains_key(name@) ==> r is None && final(self)@ == old(self)@,
    {
        match self.find(name) {
            None => None,
            Some(i) => {
                let ghost before = self@;
                let ghost nv = views(self.names@);
                let ghost old_hosts = self.hosts@;
                let mut host = Host::new(String::new(), String::new());
                self.hosts.set_and_swap(i, &mut host);
                host.entries.push(now);
                let ghost updated = host@;
                self.hosts.set(i, host);
                proof {
                    lemma_index_of(nv, name@);
                    assert(nv == views(self.names@));
                    assert forall|k: Seq<char>| #[trigger] self@.contains_key(k) && k != name@
                        implies self@[k] == before[k] by {
                        lemma_index_of(nv, k);
                    }
                    assert(self@ =~= record_wake_spec(before, name@, now));
                }
                Some(now)
            },
        }
    }

    /// Adds a host with an empty wake log, replacing any host of that name.
    pub fn add_host(&mut self, host: &HostConfig)
        requires
            old(self).wf(),
        ensures
            final(self).wf(),
            final(self)@ == old(self)@.insert(
                host@.name,
                HostView {
                    mac_address: host@.mac_address,
                    broadcast_ip: host@.broadcast_ip,
                    entries: Seq::empty(),
                },
            ),
    {
        let ghost before = self@;
        let ghost nv = views(self.names@);
        let entry = Host::new(host.mac_address.clone(), host.broadcast_ip.clone());
        match self.find(host.name.as_str()) {
            Some(i) => {
                self.hosts.set(i, entry);
                proof {
                    lemma_index_of(nv, host.name@);
                    assert(nv == views(self.names@));
                    assert forall|k: Seq<char>| #[trigger] self@.contains_key(k) && k != host.name@
                        implies self@[k] == before[k] by {
                        lemma_index_of(nv, k);
                    }
                }
            },
            None => {
                self.names.push(host.name.clone());
                self.hosts.push(entry);
                proof {
                    let nv2 = views(self.names@);
                    assert(nv2.drop_last() =~= nv);
                    assert forall|k: Seq<char>| k != host.name@ implies index_of(nv2, k)
                        == index_of(nv, k) by {}
                    assert forall|k: Seq<char>| #[trigger] self@.contains_key(k) && k != host.name@
                        implies self@[k] == before[k] by {
                        lemma_index_of(nv, k);
                    }
                }
            },
        }
        assert(self@ =~= before.insert(
            host@.name,
            HostView {
                mac_address: host@.mac_address,
                broadcast_ip: host@.broadcast_ip,
                entries: Seq::empty(),
            },
        ));
    }

    /// The registry of the configured hosts; a later entry for a name
    /// replaces an earlier one.
    pub fn from_config(config: &Config) -> (r: HostRegistry)
        ensures
            r.wf(),
            r@ == registry_of(config.hosts@.map_values(|h: HostConfig| h@)),
    {
        let mut registry = HostRegistry::new();
        let ghost cfgs = config.hosts@.map_values(|h: HostConfig| h@);
        let mut i: usize = 0;
        assert(cfgs.subrange(0, 0) =~= Seq::<HostConfigView>::empty());
        while i < config.hosts.len()
            invariant
                cfgs == config.hosts@.map_values(|h: HostConfig| h@),
                i <= config.hosts.len(),
                registry.wf(),
                registry@ == registry_of(cfgs.subrange(0, i as int)),
            decreases config.hosts.len() - i,
        {
            registry.add_host(&config.hosts[i]);
            assert(cfgs.subrange(0, i + 1).drop_last() =~= cfgs.subrange(0, i as int));
            i = i + 1;
        }
        assert(cfgs.subrange(0, config.hosts.len() as int) =~= cfgs);
        registry
    }
}

} // verus!
