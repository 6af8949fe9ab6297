//! The Service Discovery state machine: the phased offer lifecycle of local
//! services, the registry of remote services, and eventgroup subscriptions.
//! Time is a millisecond count handed in by the caller; sending and
//! receiving are the caller's: every operation returns the entries (with
//! their options) to emit.

use vstd::prelude::*;
use std::collections::HashMap;
use crate::codec::wire::{get_u32, get_u64, read32, read64};
use crate::sd::entries::{EntryType, SdEntry};
use crate::sd::options::{SdOption, PROTO_UDP, option_same};
use crate::sd::packet::SdPacket;
use crate::codec::wire::copy_range;

verus! {

broadcast use vstd::std_specs::hash::group_hash_axioms;

/// The offer lifecycle: Down → InitialWait → Repetition → Main.
#[derive(Debug, Clone, Copy, PartialEq, Eq, Structural)]
pub enum ServicePhase {
    Down,
    InitialWait,
    Repetition,
    Main,
}

/// Offer timings, in milliseconds, and the TTL (seconds) offers carry.
#[derive(Debug, Clone, Copy, PartialEq, Eq, Structural)]
pub struct SdTiming {
    pub initial_delay_min_ms: u64,
    pub initial_delay_max_ms: u64,
    pub repetition_base_delay_ms: u64,
    pub repetition_max: u32,
    pub cyclic_delay_ms: u64,
    pub ttl: u32,
}

/// Initial delay 10–100 ms, repetition base 100 ms, 3 repetitions, cyclic
/// delay 1 s, TTL 0xFFFFFF.
pub open spec fn default_sd_timing() -> SdTiming {
    SdTiming {
        initial_delay_min_ms: 10,
        initial_delay_max_ms: 100,
        repetition_base_delay_ms: 100,
        repetition_max: 3,
        cyclic_delay_ms: 1000,
        ttl: 0x00FF_FFFF,
    }
}

impl SdTiming {
    pub fn default_timing() -> (r: SdTiming)
        ensures
            r == default_sd_timing(),
    {
        SdTiming {
            initial_delay_min_ms: 10,
            initial_delay_max_ms: 100,
            repetition_base_delay_ms: 100,
            repetition_max: 3,
            cyclic_delay_ms: 1000,
            ttl: 0x00FF_FFFF,
        }
    }
}

/// Timer state of one offered service.
#[derive(Debug, Clone, Copy, PartialEq, Eq, Structural)]
pub struct OfferTimer {
    pub phase: ServicePhase,
    pub phase_start: u64,
    pub next_transmission: u64,
    pub repetition_count: u32,
}

/// `a + b`, capped at `u64::MAX`.
pub open spec fn sat_add(a: u64, b: u64) -> u64 {
    if a + b > u64::MAX {
        u64::MAX
    } else {
        (a + b) as u64
    }
}

pub open spec fn pow2(n: nat) -> nat
    decreases n,
{
    if n == 0 {
        1
    } else {
        2 * pow2((n - 1) as nat)
    }
}

/// The repetition delay after the `count`-th repetition:
/// `base × 2^(count-1)`, capped at `u64::MAX`.
pub open spec fn backoff(base: u64, count: u32) -> u64 {
    let d = base * pow2((count - 1) as nat);
    if count == 0 {
        base
    } else if d > u64::MAX {
        u64::MAX
    } else {
        d as u64
    }
}

/// The width of the initial-delay window (at least 1).
pub open spec fn initial_range(cfg: SdTiming) -> u64 {
    if cfg.initial_delay_max_ms > cfg.initial_delay_min_ms {
        (cfg.initial_delay_max_ms - cfg.initial_delay_min_ms) as u64
    } else {
        1
    }
}

/// The initial delay that the random draw `random` picks.
pub open spec fn initial_delay(cfg: SdTiming, random: u64) -> u64 {
    (cfg.initial_delay_min_ms + random % initial_range(cfg)) as u64
}

/// The timer after entering InitialWait at `now` with random draw `random`.
pub open spec fn enter_initial_wait(t: OfferTimer, cfg: SdTiming, now: u64, random: u64) -> OfferTimer {
    OfferTimer {
        phase: ServicePhase::InitialWait,
        phase_start: now,
        next_transmission: sat_add(now, initial_delay(cfg, random)),
        repetition_count: t.repetition_count,
    }
}

/// One poll tick of an offer timer at `now`: the new timer, and whether an
/// offer is emitted.
pub open spec fn advance(t: OfferTimer, cfg: SdTiming, now: u64) -> (OfferTimer, bool) {
    if t.phase == ServicePhase::Down || now < t.next_transmission {
        (t, false)
    } else {
        match t.phase {
            ServicePhase::InitialWait => (
                OfferTimer {
                    phase: ServicePhase::Repetition,
                    phase_start: now,
                    next_transmission: now,
                    repetition_count: 0,
                },
                true,
            ),
            ServicePhase::Repetition => {
                let c: u32 = if t.repetition_count == u32::MAX {
                    u32::MAX
                } else {
                    (t.repetition_count + 1) as u32
                };
                if c > cfg.repetition_max {
                    (
                        OfferTimer {
                            phase: ServicePhase::Main,
                            phase_start: now,
                            next_transmission: now,
                            repetition_count: c,
                        },
                        true,
                    )
                } else {
                    (
                        OfferTimer {
                            phase: ServicePhase::Repetition,
                            phase_start: t.phase_start,
                            next_transmission: sat_add(now, backoff(cfg.repetition_base_delay_ms, c)),
                            repetition_count: c,
                        },
                        true,
                    )
                }
            },
            _ => (
                OfferTimer {
                    phase: ServicePhase::Main,
                    phase_start: t.phase_start,
                    next_transmission: sat_add(now, cfg.cyclic_delay_ms),
                    repetition_count: t.repetition_count,
                },
                true,
            ),
        }
    }
}

/// Entering InitialWait at `t0` schedules the first offer in
/// `[t0 + min, t0 + max)` (when the window is non-empty and no overflow).
pub proof fn lemma_initial_wait_window(t: OfferTimer, cfg: SdTiming, t0: u64, random: u64)
    requires
        cfg.initial_delay_min_ms < cfg.initial_delay_max_ms,
        t0 + cfg.initial_delay_max_ms <= u64::MAX,
    ensures
        enter_initial_wait(t, cfg, t0, random).next_transmission >= t0 + cfg.initial_delay_min_ms,
        enter_initial_wait(t, cfg, t0, random).next_transmission < t0 + cfg.initial_delay_max_ms,
        enter_initial_wait(t, cfg, t0, random).phase == ServicePhase::InitialWait,
        fresh_timer(cfg, t0, random).next_transmission >= t0 + cfg.initial_delay_min_ms,
        fresh_timer(cfg, t0, random).next_transmission < t0 + cfg.initial_delay_max_ms,
{
}

/// A newly offered service emits its first offer at the first poll at or
/// after `t0 + max`, and that poll moves it to Repetition.
pub proof fn lemma_first_offer_by_window_end(cfg: SdTiming, t0: u64, random: u64, now: u64)
    requires
        cfg.initial_delay_min_ms < cfg.initial_delay_max_ms,
        t0 + cfg.initial_delay_max_ms <= u64::MAX,
        now >= t0 + cfg.initial_delay_max_ms,
    ensures
        advance(fresh_timer(cfg, t0, random), cfg, now).1,
        advance(fresh_timer(cfg, t0, random), cfg, now).0.phase == ServicePhase::Repetition,
{
}

/// A stopped (Down) service never emits and its timer stays put.
pub proof fn lemma_down_is_silent(t: OfferTimer, cfg: SdTiming, now: u64)
    requires
        t.phase == ServicePhase::Down,
    ensures
        advance(t, cfg, now) == (t, false),
{
}

/// `base × 2^(count-1)`, capped at `u64::MAX`.
fn backoff_delay(base: u64, count: u32) -> (r: u64)
    ensures
        r == backoff(base, count),
{
    if count == 0 {
        return base;
    }
    let mut d: u64 = base;
    let mut i: u32 = 1;
    assert(pow2(0) == 1);
    assert(base * pow2(0) == base);
    while i < count
        invariant
            1 <= i <= count,
            d == backoff(base, i),
        decreases count - i,
    {
        proof {
            assert(pow2(i as nat) == 2 * pow2((i - 1) as nat));
            assert(base * pow2(i as nat) == 2 * (base * pow2((i - 1) as nat))) by (nonlinear_arith)
                requires
                    pow2(i as nat) == 2 * pow2((i - 1) as nat),
            ;
            assert(base * pow2((i - 1) as nat) >= 0) by (nonlinear_arith);
        }
        if d > u64::MAX / 2 {
            d = u64::MAX;
        } else {
            d = d * 2;
        }
        i = i + 1;
    }
    d
}

/// The timer after entering InitialWait; see `enter_initial_wait`.
pub fn start_initial_wait(t: OfferTimer, cfg: SdTiming, now: u64, random: u64) -> (r: OfferTimer)
    ensures
        r == enter_initial_wait(t, cfg, now, random),
{
    let range: u64 = if cfg.initial_delay_max_ms > cfg.initial_delay_min_ms {
        cfg.initial_delay_max_ms - cfg.initial_delay_min_ms
    } else {
        1
    };
    let delay: u64 = cfg.initial_delay_min_ms + random % range;
    OfferTimer {
        phase: ServicePhase::InitialWait,
        phase_start: now,
        next_transmission: now.saturating_add(delay),
        repetition_count: t.repetition_count,
    }
}

/// One poll tick of an offer timer; see `advance`.
pub fn advance_timer(t: OfferTimer, cfg: SdTiming, now: u64) -> (r: (OfferTimer, bool))
    ensures
        r == advance(t, cfg, now),
{
    if t.phase == ServicePhase::Down || now < t.next_transmission {
        return (t, false);
    }
    match t.phase {
        ServicePhase::InitialWait => (
            OfferTimer {
                phase: ServicePhase::Repetition,
                phase_start: now,
                next_transmission: now,
                repetition_count: 0,
            },
            true,
        ),
        ServicePhase::Repetition => {
            let c: u32 = t.repetition_count.saturating_add(1);
            if c > cfg.repetition_max {
                (
                    OfferTimer {
                        phase: ServicePhase::Main,
                        phase_start: now,
                        next_transmission: now,
                        repetition_count: c,
                    },
                    true,
                )
            } else {
                let delay = backoff_delay(cfg.repetition_base_delay_ms, c);
                (
                    OfferTimer {
                        phase: ServicePhase::Repetition,
                        phase_start: t.phase_start,
                        next_transmission: now.saturating_add(delay),
                        repetition_count: c,
                    },
                    true,
                )
            }
        },
        _ => (
            OfferTimer {
                phase: ServicePhase::Main,
                phase_start: t.phase_start,
                next_transmission: now.saturating_add(cfg.cyclic_delay_ms),
                repetition_count: t.repetition_count,
            },
            true,
        ),
    }
}

/// An IP address, as its network-order octets.
#[derive(Debug, Clone, Copy, PartialEq, Eq)]
pub enum IpAddress {
    V4([u8; 4]),
    V6([u8; 16]),
}

/// An IP address and port.
#[derive(Debug, Clone, Copy, PartialEq, Eq)]
pub struct Endpoint {
    pub ip: IpAddress,
    pub port: u16,
}

/// Two endpoints name the same address and port.
pub open spec fn same_endpoint(a: Endpoint, b: Endpoint) -> bool {
    a.port == b.port && match (a.ip, b.ip) {
        (IpAddress::V4(x), IpAddress::V4(y)) => x@ == y@,
        (IpAddress::V6(x), IpAddress::V6(y)) => x@ == y@,
        _ => false,
    }
}

/// The SD view of one interface: its alias and local unicast addresses.
pub struct SdInterface {
    pub alias: String,
    pub local_ip_v4: Option<[u8; 4]>,
    pub local_ip_v6: Option<[u8; 16]>,
}

/// A service this node offers.
pub struct LocalService {
    /// The entry that offers are made from.
    pub entry: SdEntry,
    pub endpoint_options: Vec<SdOption>,
    pub timer: OfferTimer,
    pub timing: SdTiming,
}

/// A service another node offers.
pub struct RemoteService {
    pub service_id: u16,
    pub instance_id: u16,
    pub version_major: u8,
    pub version_minor: u32,
    pub endpoint: Vec<SdOption>,
    pub last_seen: u64,
    pub ttl: u32,
}

/// Service discovery state. Local and remote services are each kept at
/// most once per (service-id, instance-id).
pub struct ServiceDiscovery {
    pub listeners: Vec<SdInterface>,
    pub local_services: Vec<LocalService>,
    pub remote_services: Vec<RemoteService>,
    /// Subscribers per (service-id, eventgroup-id) key.
    pub subscriptions: HashMap<u32, Vec<Endpoint>>,
    /// Our subscriptions per (service-id, eventgroup-id) key: acknowledged
    /// or not.
    pub pending_subscriptions: HashMap<u32, bool>,
    pub timing: SdTiming,
}

/// The index of the first interface with alias `a`, searching from `i`.
pub open spec fn listener_from(ls: Seq<SdInterface>, a: Seq<char>, i: int) -> Option<int>
    decreases ls.len() - i,
{
    if i < 0 || i >= ls.len() {
        None
    } else if ls[i].alias@ == a {
        Some(i)
    } else {
        listener_from(ls, a, i + 1)
    }
}

/// The index of the local service with the key, searching from `i`.
pub open spec fn local_from(ls: Seq<LocalService>, sid: u16, iid: u16, i: int) -> Option<int>
    decreases ls.len() - i,
{
    if i < 0 || i >= ls.len() {
        None
    } else if ls[i].entry.service_id == sid && ls[i].entry.instance_id == iid {
        Some(i)
    } else {
        local_from(ls, sid, iid, i + 1)
    }
}

/// The index of the remote service with the key, searching from `i`.
pub open spec fn remote_from(rs: Seq<RemoteService>, sid: u16, iid: u16, i: int) -> Option<int>
    decreases rs.len() - i,
{
    if i < 0 || i >= rs.len() {
        None
    } else if rs[i].service_id == sid && rs[i].instance_id == iid {
        Some(i)
    } else {
        remote_from(rs, sid, iid, i + 1)
    }
}

/// The unicast endpoint options for an interface (IPv4 first).
pub open spec fn unicast_options(iface: Option<SdInterface>, port: u16, proto: u8) -> Seq<SdOption> {
    match iface {
        Some(l) => (match l.local_ip_v4 {
            Some(a) => seq![SdOption::Ipv4Endpoint { address: a, transport_proto: proto, port }],
            None => Seq::empty(),
        }) + (match l.local_ip_v6 {
            Some(a) => seq![SdOption::Ipv6Endpoint { address: a, transport_proto: proto, port }],
            None => Seq::empty(),
        }),
        None => Seq::empty(),
    }
}

/// The multicast option for a group, if any (always UDP).
pub open spec fn multicast_options(multicast: Option<(IpAddress, u16)>) -> Seq<SdOption> {
    match multicast {
        Some((IpAddress::V4(a), p)) => seq![
            SdOption::Ipv4Multicast { address: a, transport_proto: PROTO_UDP, port: p },
        ],
        Some((IpAddress::V6(a), p)) => seq![
            SdOption::Ipv6Multicast { address: a, transport_proto: PROTO_UDP, port: p },
        ],
        None => Seq::empty(),
    }
}

/// The endpoint options a local offer carries: the interface's unicast
/// addresses (IPv4 first) at `port`/`proto`, then the multicast group if any.
pub open spec fn offer_options(
    iface: Option<SdInterface>,
    port: u16,
    proto: u8,
    multicast: Option<(IpAddress, u16)>,
) -> Seq<SdOption> {
    unicast_options(iface, port, proto) + multicast_options(multicast)
}

/// The template entry of an offer.
pub open spec fn offer_template(sid: u16, iid: u16, major: u8, minor: u32, nopts: nat) -> SdEntry {
    SdEntry {
        entry_type: EntryType::OfferService,
        index_1: 0,
        index_2: 0,
        number_of_opts_1: nopts as u8,
        number_of_opts_2: 0,
        service_id: sid,
        instance_id: iid,
        major_version: major,
        ttl: 0,
        minor_version: minor,
    }
}

/// The timer of a service that starts being offered at `now`.
pub open spec fn fresh_timer(cfg: SdTiming, now: u64, random: u64) -> OfferTimer {
    OfferTimer {
        phase: ServicePhase::InitialWait,
        phase_start: now,
        next_transmission: sat_add(now, initial_delay(cfg, random)),
        repetition_count: 0,
    }
}

/// The entry emitted for a local service: the template with the configured
/// TTL, referencing all its options as the first run.
pub open spec fn emitted_offer(s: LocalService) -> SdEntry {
    SdEntry {
        ttl: s.timing.ttl,
        index_1: 0,
        number_of_opts_1: s.endpoint_options@.len() as u8,
        index_2: 0,
        number_of_opts_2: 0,
        ..s.entry
    }
}

/// The offers a poll at `now` emits for the first `n` local services.
pub open spec fn poll_emissions(ls: Seq<LocalService>, now: u64, n: int) -> Seq<SdEntry>
    decreases n,
{
    if n <= 0 {
        Seq::empty()
    } else if advance(ls[n - 1].timer, ls[n - 1].timing, now).1 {
        poll_emissions(ls, now, n - 1).push(emitted_offer(ls[n - 1]))
    } else {
        poll_emissions(ls, now, n - 1)
    }
}

/// The first `n` entries of a list of (entry, options) pairs, entries only.
pub open spec fn entries_of(v: Seq<(SdEntry, Vec<SdOption>)>) -> Seq<SdEntry> {
    v.map_values(|p: (SdEntry, Vec<SdOption>)| p.0)
}


/// Each reply `m` is the offer of local service `src[m]`, carrying that
/// service's endpoint options.
pub open spec fn replies_carry_options(r: Seq<(SdEntry, Vec<SdOption>)>, ls: Seq<LocalService>, src: Seq<int>) -> bool {
    &&& r.len() == src.len()
    &&& forall|m: int|
        0 <= m < r.len() ==> {
            &&& 0 <= src[m] < ls.len()
            &&& (#[trigger] r[m]).0 == emitted_offer(ls[src[m]])
            &&& r[m].1@.len() == ls[src[m]].endpoint_options@.len()
            &&& forall|x: int| 0 <= x < r[m].1@.len() ==> option_same(#[trigger] r[m].1@[x], ls[src[m]].endpoint_options@[x])
        }
}

/// The local services (by index, in order) that a poll at `now` emits an
/// offer for, among the first `n`.
pub open spec fn poll_sources(ls: Seq<LocalService>, now: u64, n: int) -> Seq<int>
    decreases n,
{
    if n <= 0 {
        Seq::empty()
    } else if advance(ls[n - 1].timer, ls[n - 1].timing, now).1 {
        poll_sources(ls, now, n - 1).push(n - 1)
    } else {
        poll_sources(ls, now, n - 1)
    }
}

/// The local services (by index, in order) that answer a FindService entry,
/// among the first `n`.
pub open spec fn find_sources(ls: Seq<LocalService>, e: SdEntry, n: int) -> Seq<int>
    decreases n,
{
    if n <= 0 {
        Seq::empty()
    } else if answers_find(ls[n - 1], e) {
        find_sources(ls, e, n - 1).push(n - 1)
    } else {
        find_sources(ls, e, n - 1)
    }
}

proof fn lemma_sources_bounded(ls: Seq<LocalService>, now: u64, e: SdEntry, n: int)
    requires
        0 <= n <= ls.len(),
    ensures
        forall|m: int| 0 <= m < poll_sources(ls, now, n).len() ==> 0 <= #[trigger] poll_sources(ls, now, n)[m] < n,
        forall|m: int| 0 <= m < find_sources(ls, e, n).len() ==> 0 <= #[trigger] find_sources(ls, e, n)[m] < n,
    decreases n,
{
    if n > 0 {
        lemma_sources_bounded(ls, now, e, n - 1);
        let p0 = poll_sources(ls, now, n - 1);
        let p1 = poll_sources(ls, now, n);
        assert forall|m: int| 0 <= m < p1.len() implies 0 <= #[trigger] p1[m] < n by {
            if m < p0.len() {
                assert(p1[m] == p0[m]);
            }
        }
        let f0 = find_sources(ls, e, n - 1);
        let f1 = find_sources(ls, e, n);
        assert forall|m: int| 0 <= m < f1.len() implies 0 <= #[trigger] f1[m] < n by {
            if m < f0.len() {
                assert(f1[m] == f0[m]);
            }
        }
    }
}

/// Copies a list of options, option by option.
fn copy_options(v: &Vec<SdOption>) -> (r: Vec<SdOption>)
    ensures
        r@.len() == v@.len(),
        forall|i: int| 0 <= i < v@.len() ==> option_same(#[trigger] r@[i], v@[i]),
{
    let mut r: Vec<SdOption> = Vec::new();
    let mut i: usize = 0;
    while i < v.len()
        invariant
            0 <= i <= v@.len(),
            r@.len() == i,
            forall|j: int| 0 <= j < i ==> option_same(#[trigger] r@[j], v@[j]),
        decreases v@.len() - i,
    {
        r.push(clone_option(&v[i]));
        i = i + 1;
    }
    r
}

impl ServiceDiscovery {
    /// Each (service-id, instance-id) key is held by at most one local and
    /// at most one remote service.
    pub open spec fn wf(&self) -> bool {
        &&& forall|i: int, j: int|
            0 <= i < j < self.local_services@.len() ==> !(
            #[trigger] self.local_services@[i].entry.service_id
                == #[trigger] self.local_services@[j].entry.service_id
                && self.local_services@[i].entry.instance_id
                == self.local_services@[j].entry.instance_id)
        &&& forall|i: int, j: int|
            0 <= i < j < self.remote_services@.len() ==> !(
            #[trigger] self.remote_services@[i].service_id
                == #[trigger] self.remote_services@[j].service_id
                && self.remote_services@[i].instance_id == self.remote_services@[j].instance_id)
        &&& forall|k: u32| #[trigger] self.subscriptions@.contains_key(k) ==> no_dup(self.subscriptions@[k]@)
        &&& forall|i: int|
            0 <= i < self.local_services@.len() ==> (#[trigger] self.local_services@[i]).entry.entry_type
                == EntryType::OfferService
    }

    /// Empty state with the default timings.
    pub fn new() -> (r: ServiceDiscovery)
        ensures
            r.wf(),
            r.listeners@.len() == 0,
            r.local_services@.len() == 0,
            r.remote_services@.len() == 0,
            r.subscriptions@ == Map::<u32, Vec<Endpoint>>::empty(),
            r.pending_subscriptions@ == Map::<u32, bool>::empty(),
            r.timing == default_sd_timing(),
    {
        Self::with_timing(SdTiming::default_timing())
    }

    /// Empty state with the given timings for the services it offers.
    pub fn with_timing(timing: SdTiming) -> (r: ServiceDiscovery)
        ensures
            r.wf(),
            r.listeners@.len() == 0,
            r.local_services@.len() == 0,
            r.remote_services@.len() == 0,
            r.subscriptions@ == Map::<u32, Vec<Endpoint>>::empty(),
            r.pending_subscriptions@ == Map::<u32, bool>::empty(),
            r.timing == timing,
    {
        ServiceDiscovery {
            listeners: Vec::new(),
            local_services: Vec::new(),
            remote_services: Vec::new(),
            subscriptions: HashMap::new(),
            pending_subscriptions: HashMap::new(),
            timing,
        }
    }

    /// Adds an interface that offers and subscriptions can name.
    pub fn add_listener(&mut self, listener: SdInterface)
        ensures
            final(self).listeners@ == old(self).listeners@.push(listener),
            final(self).local_services@ == old(self).local_services@,
            final(self).remote_services@ == old(self).remote_services@,
            final(self).subscriptions@ == old(self).subscriptions@,
            final(self).pending_subscriptions@ == old(self).pending_subscriptions@,
            final(self).timing == old(self).timing,
    {
        self.listeners.push(listener);
    }

    /// Index of the first interface with the alias.
    fn find_listener(&self, alias: &str) -> (r: Option<usize>)
        ensures
            r matches Some(k) ==> listener_from(self.listeners@, alias@, 0) == Some(k as int),
            r is None ==> listener_from(self.listeners@, alias@, 0) is None,
            r matches Some(k) ==> k < self.listeners@.len(),
    {
        proof {
            lemma_listener_from(self.listeners@, alias@, 0);
        }
        let wanted: String = alias.to_owned();
        let mut i: usize = 0;
        while i < self.listeners.len()
            invariant
                0 <= i <= self.listeners@.len(),
                wanted@ == alias@,
                listener_from(self.listeners@, alias@, 0) == listener_from(
                    self.listeners@,
                    alias@,
                    i as int,
                ),
            decreases self.listeners@.len() - i,
        {
            if self.listeners[i].alias == wanted {
                return Some(i);
            }
            i = i + 1;
        }
        None
    }

    /// Index of the local service with the key.
    fn find_local(&self, service_id: u16, instance_id: u16) -> (r: Option<usize>)
        ensures
            r matches Some(k) ==> local_from(self.local_services@, service_id, instance_id, 0)
                == Some(k as int),
            r is None ==> local_from(self.local_services@, service_id, instance_id, 0) is None,
            r matches Some(k) ==> k < self.local_services@.len(),
    {
        proof {
            lemma_local_from(self.local_services@, service_id, instance_id, 0);
        }
        let mut i: usize = 0;
        while i < self.local_services.len()
            invariant
                0 <= i <= self.local_services@.len(),
                local_from(self.local_services@, service_id, instance_id, 0) == local_from(
                    self.local_services@,
                    service_id,
                    instance_id,
                    i as int,
                ),
            decreases self.local_services@.len() - i,
        {
            if self.local_services[i].entry.service_id == service_id
                && self.local_services[i].entry.instance_id == instance_id {
                return Some(i);
            }
            i = i + 1;
        }
        None
    }
}

/// `listener_from` finds the first interface with the alias at or after
/// `start`, or reports that none has it.
pub proof fn lemma_listener_from(ls: Seq<SdInterface>, a: Seq<char>, start: int)
    requires
        0 <= start,
    ensures
        match listener_from(ls, a, start) {
            Some(k) => start <= k < ls.len() && ls[k].alias@ == a,
            None => forall|m: int| start <= m < ls.len() ==> (#[trigger] ls[m]).alias@ != a,
        },
    decreases ls.len() - start,
{
    if start < ls.len() {
        lemma_listener_from(ls, a, start + 1);
    }
}

/// `local_from` finds the first local service with the key at or after
/// `start`, or reports that none has it.
pub proof fn lemma_local_from(ls: Seq<LocalService>, sid: u16, iid: u16, start: int)
    requires
        0 <= start,
    ensures
        match local_from(ls, sid, iid, start) {
            Some(k) => start <= k < ls.len() && ls[k].entry.service_id == sid
                && ls[k].entry.instance_id == iid,
            None => forall|m: int|
                start <= m < ls.len() ==> !(#[trigger] ls[m].entry.service_id == sid
                    && ls[m].entry.instance_id == iid),
        },
    decreases ls.len() - start,
{
    if start < ls.len() {
        lemma_local_from(ls, sid, iid, start + 1);
    }
}

/// `remote_from` finds the first remote service with the key at or after
/// `start`, or reports that none has it.
pub proof fn lemma_remote_from(rs: Seq<RemoteService>, sid: u16, iid: u16, start: int)
    requires
        0 <= start,
    ensures
        match remote_from(rs, sid, iid, start) {
            Some(k) => start <= k < rs.len() && rs[k].service_id == sid && rs[k].instance_id
                == iid,
            None => forall|m: int|
                start <= m < rs.len() ==> !(#[trigger] rs[m].service_id == sid
                    && rs[m].instance_id == iid),
        },
    decreases rs.len() - start,
{
    if start < rs.len() {
        lemma_remote_from(rs, sid, iid, start + 1);
    }
}

/// A remote service whose TTL (in seconds) has run out by `now` (in ms).
pub open spec fn expired(r: RemoteService, now: u64) -> bool {
    now > r.last_seen && now - r.last_seen > r.ttl as int * 1000
}

/// The first `n` remote services that have not expired at `now`, in order.
pub open spec fn fresh_remotes(rs: Seq<RemoteService>, now: u64, n: int) -> Seq<RemoteService>
    decreases n,
{
    if n <= 0 {
        Seq::empty()
    } else if expired(rs[n - 1], now) {
        fresh_remotes(rs, now, n - 1)
    } else {
        fresh_remotes(rs, now, n - 1).push(rs[n - 1])
    }
}

impl ServiceDiscovery {
    /// The other state that an operation on local services leaves alone.
    pub open spec fn same_except_local(&self, other: &ServiceDiscovery) -> bool {
        &&& self.listeners@ == other.listeners@
        &&& self.remote_services@ == other.remote_services@
        &&& self.subscriptions@ == other.subscriptions@
        &&& self.pending_subscriptions@ == other.pending_subscriptions@
        &&& self.timing == other.timing
    }

    /// Starts offering a service on the interface `iface_alias`: the offer
    /// carries that interface's unicast addresses at `port`/`proto` and the
    /// multicast group if given, and its first transmission is drawn from
    /// the initial-delay window by `random`. An earlier offer of the same
    /// (service-id, instance-id) is replaced.
    pub fn offer_service(
        &mut self,
        service_id: u16,
        instance_id: u16,
        major: u8,
        minor: u32,
        iface_alias: &str,
        port: u16,
        proto: u8,
        multicast: Option<(IpAddress, u16)>,
        now: u64,
        random: u64,
    )
        requires
            old(self).wf(),
        ensures
            final(self).wf(),
            final(self).same_except_local(old(self)),
            ({
                let old_ls = old(self).local_services@;
                let new_ls = final(self).local_services@;
                let found = local_from(old_ls, service_id, instance_id, 0);
                let j = match found {
                    Some(k) => k,
                    None => old_ls.len() as int,
                };
                let iface = match listener_from(old(self).listeners@, iface_alias@, 0) {
                    Some(i) => Some(old(self).listeners@[i]),
                    None => None,
                };
                let opts = offer_options(iface, port, proto, multicast);
                &&& new_ls.len() == if found is Some { old_ls.len() } else { old_ls.len() + 1 }
                &&& new_ls[j].endpoint_options@ == opts
                &&& new_ls[j].entry == offer_template(
                    service_id,
                    instance_id,
                    major,
                    minor,
                    opts.len(),
                )
                &&& new_ls[j].timer == fresh_timer(old(self).timing, now, random)
                &&& new_ls[j].timing == old(self).timing
                &&& forall|m: int| 0 <= m < old_ls.len() && m != j ==> new_ls[m] == old_ls[m]
            }),
    {
        let mut options: Vec<SdOption> = Vec::new();
        proof {
            lemma_listener_from(self.listeners@, iface_alias@, 0);
        }
        let ghost iface = match listener_from(self.listeners@, iface_alias@, 0) {
            Some(i) => Some(self.listeners@[i]),
            None => None,
        };
        match self.find_listener(iface_alias) {
            Some(k) => {
                assert(iface == Some(self.listeners@[k as int]));
                match self.listeners[k].local_ip_v4 {
                    Some(a) => options.push(
                        SdOption::Ipv4Endpoint { address: a, transport_proto: proto, port },
                    ),
                    None => {},
                }
                match self.listeners[k].local_ip_v6 {
                    Some(a) => options.push(
                        SdOption::Ipv6Endpoint { address: a, transport_proto: proto, port },
                    ),
                    None => {},
                }
            },
            None => {},
        }
        assert(options@ =~= unicast_options(iface, port, proto));
        let ghost uni = options@;
        match multicast {
            Some((IpAddress::V4(a), p)) => options.push(
                SdOption::Ipv4Multicast { address: a, transport_proto: PROTO_UDP, port: p },
            ),
            Some((IpAddress::V6(a), p)) => options.push(
                SdOption::Ipv6Multicast { address: a, transport_proto: PROTO_UDP, port: p },
            ),
            None => {},
        }
        assert(options@ =~= uni + multicast_options(multicast));
        let n = options.len();
        let entry = SdEntry {
            entry_type: EntryType::OfferService,
            index_1: 0,
            index_2: 0,
            number_of_opts_1: n as u8,
            number_of_opts_2: 0,
            service_id,
            instance_id,
            major_version: major,
            ttl: 0,
            minor_version: minor,
        };
        let down = OfferTimer {
            phase: ServicePhase::Down,
            phase_start: now,
            next_transmission: now,
            repetition_count: 0,
        };
        let timer = start_initial_wait(down, self.timing, now, random);
        let service = LocalService { entry, endpoint_options: options, timer, timing: self.timing };
        let ghost old_ls = self.local_services@;
        proof {
            lemma_local_from(old_ls, service_id, instance_id, 0);
        }
        match self.find_local(service_id, instance_id) {
            Some(k) => {
                self.local_services.set(k, service);
                assert forall|i: int, j: int|
                    0 <= i < j < self.local_services@.len() implies !(
                    #[trigger] self.local_services@[i].entry.service_id
                        == #[trigger] self.local_services@[j].entry.service_id
                        && self.local_services@[i].entry.instance_id
                        == self.local_services@[j].entry.instance_id) by {
                    if i != k && j != k {
                        assert(self.local_services@[i] == old_ls[i]);
                        assert(self.local_services@[j] == old_ls[j]);
                    } else if i == k {
                        assert(self.local_services@[j] == old_ls[j]);
                        assert(old_ls[i].entry.service_id == service_id && old_ls[i].entry.instance_id == instance_id);
                        assert(!(old_ls[i].entry.service_id == old_ls[j].entry.service_id
                            && old_ls[i].entry.instance_id == old_ls[j].entry.instance_id));
                    } else {
                        assert(self.local_services@[i] == old_ls[i]);
                        assert(old_ls[j].entry.service_id == service_id && old_ls[j].entry.instance_id == instance_id);
                        assert(!(old_ls[i].entry.service_id == old_ls[j].entry.service_id
                            && old_ls[i].entry.instance_id == old_ls[j].entry.instance_id));
                    }
                }
            },
            None => {
                self.local_services.push(service);
                assert forall|i: int, j: int|
                    0 <= i < j < self.local_services@.len() implies !(
                    #[trigger] self.local_services@[i].entry.service_id
                        == #[trigger] self.local_services@[j].entry.service_id
                        && self.local_services@[i].entry.instance_id
                        == self.local_services@[j].entry.instance_id) by {
                    if j < old_ls.len() {
                        assert(self.local_services@[i] == old_ls[i]);
                        assert(self.local_services@[j] == old_ls[j]);
                    } else {
                        assert(self.local_services@[i] == old_ls[i]);
                    }
                }
            },
        }
    }

    /// Stops offering a service: its phase becomes Down, and the entry to
    /// emit once more, with TTL 0, is returned with its options. Nothing
    /// happens for a service that is not offered.
    pub fn stop_offer_service(&mut self, service_id: u16, instance_id: u16) -> (r: Option<
        (SdEntry, Vec<SdOption>),
    >)
        requires
            old(self).wf(),
        ensures
            final(self).wf(),
            final(self).same_except_local(old(self)),
            final(self).local_services@.len() == old(self).local_services@.len(),
            match local_from(old(self).local_services@, service_id, instance_id, 0) {
                Some(k) => {
                    &&& r matches Some((e, opts)) && e == (SdEntry {
                        ttl: 0,
                        ..old(self).local_services@[k].entry
                    }) && opts@.len() == old(self).local_services@[k].endpoint_options@.len()
                        && forall|i: int| 0 <= i < opts@.len() ==> option_same(#[trigger] opts@[i], old(self).local_services@[k].endpoint_options@[i])
                    &&& final(self).local_services@[k].timer.phase == ServicePhase::Down
                    &&& final(self).local_services@[k].entry == old(self).local_services@[k].entry
                    &&& final(self).local_services@[k].endpoint_options@ == old(
                        self,
                    ).local_services@[k].endpoint_options@
                    &&& final(self).local_services@[k].timing == old(self).local_services@[k].timing
                    &&& forall|m: int|
                        0 <= m < old(self).local_services@.len() && m != k
                            ==> final(self).local_services@[m] == old(self).local_services@[m]
                },
                None => r is None && final(self).local_services@ == old(self).local_services@,
            },
    {
        match self.find_local(service_id, instance_id) {
            Some(k) => {
                let ghost old_ls = self.local_services@;
                let mut t = self.local_services[k].timer;
                t.phase = ServicePhase::Down;
                self.local_services[k].timer = t;
                assert forall|i: int, j: int|
                    0 <= i < j < self.local_services@.len() implies !(
                    #[trigger] self.local_services@[i].entry.service_id
                        == #[trigger] self.local_services@[j].entry.service_id
                        && self.local_services@[i].entry.instance_id
                        == self.local_services@[j].entry.instance_id) by {
                    assert(self.local_services@[i].entry == old_ls[i].entry);
                    assert(self.local_services@[j].entry == old_ls[j].entry);
                }
                let mut e = self.local_services[k].entry;
                e.ttl = 0;
                let opts = copy_options(&self.local_services[k].endpoint_options);
                assert(e == (SdEntry { ttl: 0, ..old_ls[k as int].entry }));
                assert(self.local_services@[k as int].timer.phase == ServicePhase::Down);
                assert(opts@.len() == old_ls[k as int].endpoint_options@.len());
                assert(self.local_services@[k as int].endpoint_options@ == old_ls[k as int].endpoint_options@);
                assert(forall|m: int| 0 <= m < old_ls.len() && m != k ==> self.local_services@[m] == old_ls[m]);
                Some((e, opts))
            },
            None => None,
        }
    }

    /// One tick: advances every offer timer, returning the offers due now
    /// (each with the configured TTL and all of its options), then drops the
    /// remote services whose TTL has run out.
    pub fn poll(&mut self, now: u64) -> (r: Vec<(SdEntry, Vec<SdOption>)>)
        requires
            old(self).wf(),
        ensures
            final(self).wf(),
            entries_of(r@) == poll_emissions(
                old(self).local_services@,
                now,
                old(self).local_services@.len() as int,
            ),
            replies_carry_options(
                r@,
                old(self).local_services@,
                poll_sources(old(self).local_services@, now, old(self).local_services@.len() as int),
            ),
            final(self).local_services@.len() == old(self).local_services@.len(),
            forall|m: int|
                0 <= m < old(self).local_services@.len() ==> {
                    let o = #[trigger] old(self).local_services@[m];
                    let f = final(self).local_services@[m];
                    &&& f.timer == advance(o.timer, o.timing, now).0
                    &&& f.entry == o.entry
                    &&& f.endpoint_options@ == o.endpoint_options@
                    &&& f.timing == o.timing
                },
            final(self).remote_services@ == fresh_remotes(
                old(self).remote_services@,
                now,
                old(self).remote_services@.len() as int,
            ),
            final(self).listeners@ == old(self).listeners@,
            final(self).subscriptions@ == old(self).subscriptions@,
            final(self).pending_subscriptions@ == old(self).pending_subscriptions@,
            final(self).timing == old(self).timing,
    {
        let ghost old_ls = self.local_services@;
        let mut out: Vec<(SdEntry, Vec<SdOption>)> = Vec::new();
        let mut i: usize = 0;
        while i < self.local_services.len()
            invariant
                0 <= i <= self.local_services@.len(),
                self.local_services@.len() == old_ls.len(),
                self.wf(),
                entries_of(out@) == poll_emissions(old_ls, now, i as int),
                replies_carry_options(out@, old_ls, poll_sources(old_ls, now, i as int)),
                forall|m: int|
                    0 <= m < i ==> {
                        let o = #[trigger] old_ls[m];
                        let f = self.local_services@[m];
                        &&& f.timer == advance(o.timer, o.timing, now).0
                        &&& f.entry == o.entry
                        &&& f.endpoint_options@ == o.endpoint_options@
                        &&& f.timing == o.timing
                    },
                forall|m: int| i <= m < old_ls.len() ==> self.local_services@[m] == old_ls[m],
                self.remote_services@ == old(self).remote_services@,
                self.listeners@ == old(self).listeners@,
                self.subscriptions@ == old(self).subscriptions@,
                self.pending_subscriptions@ == old(self).pending_subscriptions@,
                self.timing == old(self).timing,
            decreases old_ls.len() - i,
        {
            let (t2, emit) = advance_timer(
                self.local_services[i].timer,
                self.local_services[i].timing,
                now,
            );
            let ghost before = self.local_services@;
            self.local_services[i].timer = t2;
            assert forall|a: int, b: int|
                0 <= a < b < self.local_services@.len() implies !(
                #[trigger] self.local_services@[a].entry.service_id
                    == #[trigger] self.local_services@[b].entry.service_id
                    && self.local_services@[a].entry.instance_id
                    == self.local_services@[b].entry.instance_id) by {
                assert(self.local_services@[a].entry == before[a].entry);
                assert(self.local_services@[b].entry == before[b].entry);
            }
            if emit {
                let svc = &self.local_services[i];
                let e = SdEntry {
                    entry_type: svc.entry.entry_type,
                    index_1: 0,
                    index_2: 0,
                    number_of_opts_1: svc.endpoint_options.len() as u8,
                    number_of_opts_2: 0,
                    service_id: svc.entry.service_id,
                    instance_id: svc.entry.instance_id,
                    major_version: svc.entry.major_version,
                    ttl: svc.timing.ttl,
                    minor_version: svc.entry.minor_version,
                };
                let opts = copy_options(&svc.endpoint_options);
                let ghost o0 = out@;
                out.push((e, opts));
                assert(entries_of(out@) =~= poll_emissions(old_ls, now, i as int + 1));
                proof {
                    lemma_sources_bounded(old_ls, now, e, i as int);
                    let src = poll_sources(old_ls, now, i as int + 1);
                    assert(src == poll_sources(old_ls, now, i as int).push(i as int));
                    assert forall|m: int| 0 <= m < out@.len() implies {
                        &&& 0 <= src[m] < old_ls.len()
                        &&& (#[trigger] out@[m]).0 == emitted_offer(old_ls[src[m]])
                        &&& out@[m].1@.len() == old_ls[src[m]].endpoint_options@.len()
                        &&& forall|x: int| 0 <= x < out@[m].1@.len() ==> option_same(#[trigger] out@[m].1@[x], old_ls[src[m]].endpoint_options@[x])
                    } by {
                        if m < o0.len() {
                            assert(out@[m] == o0[m]);
                        }
                    }
                }
            } else {
                assert(entries_of(out@) =~= poll_emissions(old_ls, now, i as int + 1));
            }
            i = i + 1;
        }
        self.evict_expired(now);
        out
    }

    /// Drops the remote services whose TTL has run out at `now`.
    fn evict_expired(&mut self, now: u64)
        requires
            old(self).wf(),
        ensures
            final(self).wf(),
            final(self).remote_services@ == fresh_remotes(
                old(self).remote_services@,
                now,
                old(self).remote_services@.len() as int,
            ),
            final(self).local_services@ == old(self).local_services@,
            final(self).listeners@ == old(self).listeners@,
            final(self).subscriptions@ == old(self).subscriptions@,
            final(self).pending_subscriptions@ == old(self).pending_subscriptions@,
            final(self).timing == old(self).timing,
    {
        let ghost old_rs = self.remote_services@;
        let mut i: usize = 0;
        let mut j: usize = 0;
        assert(old_rs.len() == self.remote_services.len());
        while i < self.remote_services.len()
            invariant
                0 <= i <= j <= old_rs.len(),
                old_rs.len() <= usize::MAX,
                self.wf(),
                i == fresh_remotes(old_rs, now, j as int).len(),
                self.remote_services@ == fresh_remotes(old_rs, now, j as int) + old_rs.subrange(
                    j as int,
                    old_rs.len() as int,
                ),
                self.local_services@ == old(self).local_services@,
                self.listeners@ == old(self).listeners@,
                self.subscriptions@ == old(self).subscriptions@,
                self.pending_subscriptions@ == old(self).pending_subscriptions@,
                self.timing == old(self).timing,
            decreases old_rs.len() - j,
        {
            assert(self.remote_services@.len() == i + (old_rs.len() - j));
            let r = &self.remote_services[i];
            assert(self.remote_services@[i as int] == old_rs[j as int]);
            let gone = now > r.last_seen && (now - r.last_seen) as u128 > (r.ttl as u128) * 1000;
            let ghost before = self.remote_services@;
            if gone {
                let _dropped = self.remote_services.remove(i);
                assert(self.remote_services@ =~= fresh_remotes(old_rs, now, j as int + 1)
                    + old_rs.subrange(j as int + 1, old_rs.len() as int));
                assert forall|a: int, b: int|
                    0 <= a < b < self.remote_services@.len() implies !(
                    #[trigger] self.remote_services@[a].service_id
                        == #[trigger] self.remote_services@[b].service_id
                        && self.remote_services@[a].instance_id
                        == self.remote_services@[b].instance_id) by {
                    let a0 = if a < i { a } else { a + 1 };
                    let b0 = if b < i { b } else { b + 1 };
                    assert(self.remote_services@[a] == before[a0]);
                    assert(self.remote_services@[b] == before[b0]);
                }
            } else {
                assert(self.remote_services@ =~= fresh_remotes(old_rs, now, j as int + 1)
                    + old_rs.subrange(j as int + 1, old_rs.len() as int));
                i = i + 1;
            }
            j = j + 1;
        }
        assert(self.remote_services@ =~= fresh_remotes(old_rs, now, old_rs.len() as int));
    }
}

/// The unicast endpoint and L4 protocol code an option names, if it is an
/// IPv4 or IPv6 endpoint option.
pub open spec fn endpoint_of(o: SdOption) -> Option<(Endpoint, u8)> {
    match o {
        SdOption::Ipv4Endpoint { address, transport_proto, port } => Some(
            (Endpoint { ip: IpAddress::V4(address), port }, transport_proto),
        ),
        SdOption::Ipv6Endpoint { address, transport_proto, port } => Some(
            (Endpoint { ip: IpAddress::V6(address), port }, transport_proto),
        ),
        _ => None,
    }
}

/// The first endpoint among options `j..`.
pub open spec fn first_endpoint(os: Seq<SdOption>, j: int) -> Option<(Endpoint, u8)>
    decreases os.len() - j,
{
    if j < 0 || j >= os.len() {
        None
    } else if endpoint_of(os[j]) is Some {
        endpoint_of(os[j])
    } else {
        first_endpoint(os, j + 1)
    }
}

/// For the wildcard instance: the first endpoint of the first remote
/// service (from `k` on) of the service id that has one.
pub open spec fn any_instance_endpoint(rs: Seq<RemoteService>, sid: u16, k: int) -> Option<
    (Endpoint, u8),
>
    decreases rs.len() - k,
{
    if k < 0 || k >= rs.len() {
        None
    } else if rs[k].service_id == sid && first_endpoint(rs[k].endpoint@, 0) is Some {
        first_endpoint(rs[k].endpoint@, 0)
    } else {
        any_instance_endpoint(rs, sid, k + 1)
    }
}

/// What `get_service` answers.
pub open spec fn lookup_endpoint(rs: Seq<RemoteService>, sid: u16, iid: u16) -> Option<(Endpoint, u8)> {
    if iid == 0xFFFF {
        any_instance_endpoint(rs, sid, 0)
    } else {
        match remote_from(rs, sid, iid, 0) {
            Some(k) => first_endpoint(rs[k].endpoint@, 0),
            None => None,
        }
    }
}

/// The options an entry references: run 1, then run 2, each only if it
/// lies inside the packet's options.
pub open spec fn resolve_runs(e: SdEntry, os: Seq<SdOption>) -> Seq<SdOption> {
    let a1 = e.index_1 as int;
    let b1 = a1 + e.number_of_opts_1 as int;
    let a2 = e.index_2 as int;
    let b2 = a2 + e.number_of_opts_2 as int;
    (if b1 <= os.len() {
        os.subrange(a1, b1)
    } else {
        Seq::empty()
    }) + (if b2 <= os.len() {
        os.subrange(a2, b2)
    } else {
        Seq::empty()
    })
}

/// The key of a (service-id, eventgroup-id) subscription.
pub open spec fn eventgroup_key(service_id: u16, eventgroup_id: u16) -> u32 {
    (service_id as int * 65536 + eventgroup_id as int) as u32
}

/// The eventgroup id an eventgroup entry carries in its last field.
pub open spec fn eventgroup_of(e: SdEntry) -> u16 {
    (e.minor_version / 65536) as u16
}

/// The (service-id, instance-id) keys of the remote registry.
pub open spec fn remote_keys(rs: Seq<RemoteService>) -> Set<(u16, u16)> {
    Set::new(|k: (u16, u16)| exists|i: int| 0 <= i < rs.len() && (#[trigger] rs[i]).service_id == k.0 && rs[i].instance_id == k.1)
}


/// No two remote services share a (service-id, instance-id) key.
pub open spec fn remotes_unique(rs: Seq<RemoteService>) -> bool {
    forall|i: int, j: int|
        0 <= i < j < rs.len() ==> !(#[trigger] rs[i].service_id == #[trigger] rs[j].service_id
            && rs[i].instance_id == rs[j].instance_id)
}

/// The remote service registered under a key, if any.
pub open spec fn remote_lookup(rs: Seq<RemoteService>, sid: u16, iid: u16) -> Option<RemoteService> {
    match remote_from(rs, sid, iid, 0) {
        Some(k) => Some(rs[k]),
        None => None,
    }
}

/// `r` is what an offer `e` with TTL > 0, received at `now` in a packet
/// with options `opts`, registers: its key, versions, TTL, the time, and
/// the options its two runs resolve to.
pub open spec fn remote_matches(r: RemoteService, e: SdEntry, opts: Seq<SdOption>, now: u64) -> bool {
    &&& r.service_id == e.service_id
    &&& r.instance_id == e.instance_id
    &&& r.version_major == e.major_version
    &&& r.version_minor == e.minor_version
    &&& r.last_seen == now
    &&& r.ttl == e.ttl
    &&& r.endpoint@.len() == resolve_runs(e, opts).len()
    &&& forall|k: int|
        0 <= k < r.endpoint@.len() ==> option_same(#[trigger] r.endpoint@[k], resolve_runs(e, opts)[k])
            && endpoint_of(r.endpoint@[k]) == endpoint_of(resolve_runs(e, opts)[k])
}

/// In a registry without duplicate keys, a service holding the key is the
/// one looked up.
pub proof fn lemma_lookup_at(rs: Seq<RemoteService>, sid: u16, iid: u16, k: int)
    requires
        remotes_unique(rs),
        0 <= k < rs.len(),
        rs[k].service_id == sid && rs[k].instance_id == iid,
    ensures
        remote_lookup(rs, sid, iid) == Some(rs[k]),
{
    lemma_remote_from(rs, sid, iid, 0);
    let f = remote_from(rs, sid, iid, 0);
    if f is None {
        assert(!(rs[k].service_id == sid && rs[k].instance_id == iid));
    } else {
        let m = f->0;
        if m < k {
            assert(!(rs[m].service_id == rs[k].service_id && rs[m].instance_id == rs[k].instance_id));
        } else if m > k {
            assert(!(rs[k].service_id == rs[m].service_id && rs[k].instance_id == rs[m].instance_id));
        }
    }
}

/// A key no service holds is looked up as absent.
pub proof fn lemma_lookup_absent(rs: Seq<RemoteService>, sid: u16, iid: u16)
    requires
        forall|m: int| 0 <= m < rs.len() ==> !(#[trigger] rs[m].service_id == sid && rs[m].instance_id == iid),
    ensures
        remote_lookup(rs, sid, iid) is None,
{
    lemma_remote_from(rs, sid, iid, 0);
    if remote_from(rs, sid, iid, 0) is Some {
        let m = remote_from(rs, sid, iid, 0)->0;
        assert(rs[m].service_id == sid && rs[m].instance_id == iid);
    }
}

/// The first endpoint of a list depends only on the endpoints its options
/// name.
pub proof fn lemma_first_endpoint_congruent(a: Seq<SdOption>, b: Seq<SdOption>, j: int)
    requires
        a.len() == b.len(),
        0 <= j,
        forall|k: int| 0 <= k < a.len() ==> endpoint_of(#[trigger] a[k]) == endpoint_of(b[k]),
    ensures
        first_endpoint(a, j) == first_endpoint(b, j),
    decreases a.len() - j,
{
    if j < a.len() {
        lemma_first_endpoint_congruent(a, b, j + 1);
    }
}

/// After an offer has registered a service, `get_service` for its key
/// answers the first endpoint among the options the offer's runs resolve to.
pub proof fn lemma_lookup_after_offer(rs: Seq<RemoteService>, e: SdEntry, opts: Seq<SdOption>, now: u64)
    requires
        remotes_unique(rs),
        e.instance_id != 0xFFFF,
        remote_lookup(rs, e.service_id, e.instance_id) matches Some(r) && remote_matches(r, e, opts, now),
    ensures
        lookup_endpoint(rs, e.service_id, e.instance_id) == first_endpoint(resolve_runs(e, opts), 0),
{
    let r = remote_lookup(rs, e.service_id, e.instance_id)->0;
    lemma_first_endpoint_congruent(r.endpoint@, resolve_runs(e, opts), 0);
}


proof fn lemma_any_instance_none(rs: Seq<RemoteService>, sid: u16, start: int)
    requires
        0 <= start,
        forall|m: int| start <= m < rs.len() ==> (#[trigger] rs[m]).service_id != sid,
    ensures
        any_instance_endpoint(rs, sid, start) is None,
    decreases rs.len() - start,
{
    if start < rs.len() {
        lemma_any_instance_none(rs, sid, start + 1);
    }
}

proof fn lemma_any_instance_single(rs: Seq<RemoteService>, sid: u16, k: int, start: int)
    requires
        0 <= start <= k < rs.len(),
        forall|m: int| 0 <= m < rs.len() && m != k ==> (#[trigger] rs[m]).service_id != sid,
        rs[k].service_id == sid,
    ensures
        any_instance_endpoint(rs, sid, start) == first_endpoint(rs[k].endpoint@, 0),
    decreases k - start,
{
    if start < k {
        lemma_any_instance_single(rs, sid, k, start + 1);
    } else {
        lemma_any_instance_none(rs, sid, k + 1);
    }
}

/// With a single registered instance of a service, the wildcard lookup
/// answers what the offer that registered it references.
pub proof fn lemma_wildcard_after_offer(rs: Seq<RemoteService>, e: SdEntry, opts: Seq<SdOption>, now: u64)
    requires
        remotes_unique(rs),
        remote_lookup(rs, e.service_id, e.instance_id) matches Some(r) && remote_matches(r, e, opts, now),
        forall|m: int| 0 <= m < rs.len() && (#[trigger] rs[m]).service_id == e.service_id ==> rs[m].instance_id == e.instance_id,
    ensures
        lookup_endpoint(rs, e.service_id, 0xFFFF) == first_endpoint(resolve_runs(e, opts), 0),
{
    lemma_remote_from(rs, e.service_id, e.instance_id, 0);
    let k = remote_from(rs, e.service_id, e.instance_id, 0)->0;
    let r = rs[k];
    assert forall|m: int| 0 <= m < rs.len() && m != k implies (#[trigger] rs[m]).service_id != e.service_id by {
        if rs[m].service_id == e.service_id {
            if m < k {
                assert(!(rs[m].service_id == rs[k].service_id && rs[m].instance_id == rs[k].instance_id));
            } else {
                assert(!(rs[k].service_id == rs[m].service_id && rs[k].instance_id == rs[m].instance_id));
            }
        }
    }
    lemma_any_instance_single(rs, e.service_id, k, 0);
    lemma_first_endpoint_congruent(r.endpoint@, resolve_runs(e, opts), 0);
}

/// Copies one option.
fn clone_option(o: &SdOption) -> (r: SdOption)
    ensures
        option_same(r, *o),
        endpoint_of(r) == endpoint_of(*o),
{
    match o {
        SdOption::Ipv4Endpoint { address, transport_proto, port } => SdOption::Ipv4Endpoint {
            address: *address,
            transport_proto: *transport_proto,
            port: *port,
        },
        SdOption::Ipv6Endpoint { address, transport_proto, port } => SdOption::Ipv6Endpoint {
            address: *address,
            transport_proto: *transport_proto,
            port: *port,
        },
        SdOption::Ipv4Multicast { address, transport_proto, port } => SdOption::Ipv4Multicast {
            address: *address,
            transport_proto: *transport_proto,
            port: *port,
        },
        SdOption::Ipv6Multicast { address, transport_proto, port } => SdOption::Ipv6Multicast {
            address: *address,
            transport_proto: *transport_proto,
            port: *port,
        },
        SdOption::Configuration { config_string } => SdOption::Configuration {
            config_string: config_string.clone(),
        },
        SdOption::LoadBalancing { priority, weight } => SdOption::LoadBalancing {
            priority: *priority,
            weight: *weight,
        },
        SdOption::Unknown { length, type_id, data } => {
            let d = copy_range(data.as_slice(), 0, data.len());
            assert(d@ =~= data@);
            SdOption::Unknown { length: *length, type_id: *type_id, data: d }
        },
    }
}

/// Copies options `start..end`, appending them to `out`.
fn append_options(out: &mut Vec<SdOption>, os: &Vec<SdOption>, start: usize, end: usize)
    requires
        start <= end <= os@.len(),
    ensures
        final(out)@.len() == old(out)@.len() + (end - start),
        forall|i: int| 0 <= i < old(out)@.len() ==> final(out)@[i] == old(out)@[i],
        forall|i: int|
            0 <= i < end - start ==> option_same(
                #[trigger] final(out)@[old(out)@.len() + i],
                os@[start + i],
            ) && endpoint_of(final(out)@[old(out)@.len() + i]) == endpoint_of(os@[start + i]),
{
    let ghost n0 = out@.len();
    let mut i: usize = start;
    while i < end
        invariant
            start <= i <= end <= os@.len(),
            out@.len() == n0 + (i - start),
            forall|m: int| 0 <= m < n0 ==> out@[m] == old(out)@[m],
            forall|m: int|
                0 <= m < i - start ==> option_same(#[trigger] out@[n0 + m], os@[start + m])
                    && endpoint_of(out@[n0 + m]) == endpoint_of(os@[start + m]),
        decreases end - i,
    {
        out.push(clone_option(&os[i]));
        i = i + 1;
    }
}

/// The options an entry references, copied; see `resolve_runs`.
fn resolve_options(e: &SdEntry, os: &Vec<SdOption>) -> (r: Vec<SdOption>)
    ensures
        r@.len() == resolve_runs(*e, os@).len(),
        forall|i: int|
            0 <= i < r@.len() ==> option_same(#[trigger] r@[i], resolve_runs(*e, os@)[i])
                && endpoint_of(r@[i]) == endpoint_of(resolve_runs(*e, os@)[i]),
{
    let mut r: Vec<SdOption> = Vec::new();
    let a1 = e.index_1 as usize;
    let b1 = a1 + e.number_of_opts_1 as usize;
    if b1 <= os.len() {
        append_options(&mut r, os, a1, b1);
    }
    let ghost n1 = r@.len();
    let ghost r1 = r@;
    let ghost run1 = if b1 <= os@.len() { os@.subrange(a1 as int, b1 as int) } else { Seq::empty() };
    assert(n1 == run1.len());
    let a2 = e.index_2 as usize;
    let b2 = a2 + e.number_of_opts_2 as usize;
    if b2 <= os.len() {
        append_options(&mut r, os, a2, b2);
    }
    proof {
        let rr = resolve_runs(*e, os@);
        let run2 = if b2 <= os@.len() { os@.subrange(a2 as int, b2 as int) } else { Seq::empty() };
        assert(rr == run1 + run2);
        assert(r@.len() == rr.len());
        assert forall|i: int| 0 <= i < r@.len() implies option_same(#[trigger] r@[i], rr[i])
            && endpoint_of(r@[i]) == endpoint_of(rr[i]) by {
            if i < n1 {
                assert(rr[i] == run1[i]);
                assert(run1[i] == os@[a1 + i]);
                assert(r@[i] == r1[i]);
                assert(r1[0 + i] == r1[i]);
            } else {
                assert(rr[i] == run2[i - n1]);
                assert(run2[i - n1] == os@[a2 + (i - n1)]);
                assert(r@[n1 + (i - n1)] == r@[i]);
            }
        }
    }
    r
}

/// The first endpoint among `os`.
fn first_endpoint_of(os: &Vec<SdOption>) -> (r: Option<(Endpoint, u8)>)
    ensures
        r == first_endpoint(os@, 0),
{
    let mut j: usize = 0;
    while j < os.len()
        invariant
            0 <= j <= os@.len(),
            first_endpoint(os@, 0) == first_endpoint(os@, j as int),
        decreases os@.len() - j,
    {
        match &os[j] {
            SdOption::Ipv4Endpoint { address, transport_proto, port } => {
                return Some((Endpoint { ip: IpAddress::V4(*address), port: *port }, *transport_proto));
            },
            SdOption::Ipv6Endpoint { address, transport_proto, port } => {
                return Some((Endpoint { ip: IpAddress::V6(*address), port: *port }, *transport_proto));
            },
            _ => {},
        }
        j = j + 1;
    }
    None
}

impl ServiceDiscovery {
    /// Index of the remote service with the key.
    fn find_remote(&self, service_id: u16, instance_id: u16) -> (r: Option<usize>)
        ensures
            r matches Some(k) ==> remote_from(self.remote_services@, service_id, instance_id, 0)
                == Some(k as int),
            r is None ==> remote_from(self.remote_services@, service_id, instance_id, 0) is None,
            r matches Some(k) ==> k < self.remote_services@.len(),
    {
        proof {
            lemma_remote_from(self.remote_services@, service_id, instance_id, 0);
        }
        let mut i: usize = 0;
        while i < self.remote_services.len()
            invariant
                0 <= i <= self.remote_services@.len(),
                remote_from(self.remote_services@, service_id, instance_id, 0) == remote_from(
                    self.remote_services@,
                    service_id,
                    instance_id,
                    i as int,
                ),
            decreases self.remote_services@.len() - i,
        {
            if self.remote_services[i].service_id == service_id
                && self.remote_services[i].instance_id == instance_id {
                return Some(i);
            }
            i = i + 1;
        }
        None
    }

    /// The remote service registered under the key, if any.
    pub fn find_service(&self, service_id: u16, instance_id: u16) -> (r: Option<&RemoteService>)
        ensures
            match remote_from(self.remote_services@, service_id, instance_id, 0) {
                Some(k) => r == Some(&self.remote_services@[k]),
                None => r is None,
            },
    {
        match self.find_remote(service_id, instance_id) {
            Some(k) => Some(&self.remote_services[k]),
            None => None,
        }
    }

    /// The first IPv4 or IPv6 endpoint, with its L4 protocol code, of the
    /// remote service registered under the key; instance 0xFFFF takes the
    /// first remote service of the service id that has one.
    pub fn get_service(&self, service_id: u16, instance_id: u16) -> (r: Option<(Endpoint, u8)>)
        ensures
            r == lookup_endpoint(self.remote_services@, service_id, instance_id),
    {
        if instance_id == 0xFFFF {
            let mut k: usize = 0;
            while k < self.remote_services.len()
                invariant
                    instance_id == 0xFFFF,
                    0 <= k <= self.remote_services@.len(),
                    any_instance_endpoint(self.remote_services@, service_id, 0)
                        == any_instance_endpoint(self.remote_services@, service_id, k as int),
                decreases self.remote_services@.len() - k,
            {
                if self.remote_services[k].service_id == service_id {
                    let found = first_endpoint_of(&self.remote_services[k].endpoint);
                    match found {
                        Some(x) => {
                            assert(self.remote_services@[k as int].service_id == service_id);
                            assert(first_endpoint(self.remote_services@[k as int].endpoint@, 0)
                                == Some(x));
                            assert(any_instance_endpoint(self.remote_services@, service_id, k as int)
                                == Some(x));
                            assert(any_instance_endpoint(self.remote_services@, service_id, 0)
                                == Some(x));
                            assert(lookup_endpoint(self.remote_services@, service_id, instance_id)
                                == Some(x));
                            return Some(x);
                        },
                        None => {},
                    }
                }
                k = k + 1;
            }
            None
        } else {
            match self.find_remote(service_id, instance_id) {
                Some(k) => first_endpoint_of(&self.remote_services[k].endpoint),
                None => None,
            }
        }
    }

    /// Registers or refreshes a remote service from an offer with TTL > 0.
    fn upsert_remote(&mut self, e: &SdEntry, options: &Vec<SdOption>, now: u64)
        requires
            old(self).wf(),
        ensures
            final(self).wf(),
            final(self).local_services@ == old(self).local_services@,
            final(self).listeners@ == old(self).listeners@,
            final(self).subscriptions@ == old(self).subscriptions@,
            final(self).pending_subscriptions@ == old(self).pending_subscriptions@,
            final(self).timing == old(self).timing,
            remote_keys(final(self).remote_services@) == remote_keys(old(self).remote_services@).insert(
                (e.service_id, e.instance_id),
            ),
            remote_lookup(final(self).remote_services@, e.service_id, e.instance_id) matches Some(r)
                && remote_matches(r, *e, options@, now),
            forall|s: u16, i: u16|
                !(s == e.service_id && i == e.instance_id) ==> #[trigger] remote_lookup(
                    final(self).remote_services@,
                    s,
                    i,
                ) == remote_lookup(old(self).remote_services@, s, i),
    {
        let opts = resolve_options(e, options);
        let remote = RemoteService {
            service_id: e.service_id,
            instance_id: e.instance_id,
            version_major: e.major_version,
            version_minor: e.minor_version,
            endpoint: opts,
            last_seen: now,
            ttl: e.ttl,
        };
        let ghost old_rs = self.remote_services@;
        let ghost key = (e.service_id, e.instance_id);
        proof {
            lemma_remote_from(old_rs, e.service_id, e.instance_id, 0);
        }
        match self.find_remote(e.service_id, e.instance_id) {
            Some(k) => {
                self.remote_services.set(k, remote);
                let ghost rs = self.remote_services@;
                assert forall|i: int, j: int|
                    0 <= i < j < rs.len() implies !(#[trigger] rs[i].service_id
                        == #[trigger] rs[j].service_id && rs[i].instance_id
                        == rs[j].instance_id) by {
                    if i != k && j != k {
                        assert(rs[i] == old_rs[i] && rs[j] == old_rs[j]);
                    } else if i == k {
                        assert(rs[j] == old_rs[j]);
                    } else {
                        assert(rs[i] == old_rs[i]);
                    }
                }
                assert(remote_keys(rs) =~= remote_keys(old_rs).insert(key)) by {
                    assert forall|x: (u16, u16)| remote_keys(old_rs).insert(key).contains(x)
                        implies remote_keys(rs).contains(x) by {
                        if x != key {
                            let i = choose|i: int| 0 <= i < old_rs.len() && (#[trigger] old_rs[i]).service_id == x.0 && old_rs[i].instance_id == x.1;
                            assert(rs[i] == old_rs[i]);
                        } else {
                            assert(rs[k as int].service_id == x.0);
                        }
                    }
                    assert forall|x: (u16, u16)| remote_keys(rs).contains(x) implies remote_keys(
                        old_rs,
                    ).insert(key).contains(x) by {
                        let i = choose|i: int| 0 <= i < rs.len() && (#[trigger] rs[i]).service_id == x.0 && rs[i].instance_id == x.1;
                        if i != k {
                            assert(rs[i] == old_rs[i]);
                        }
                    }
                }
                proof {
                    assert(rs[k as int].service_id == e.service_id
                        && rs[k as int].instance_id == e.instance_id);
                    lemma_lookup_at(rs, e.service_id, e.instance_id, k as int);
                    assert forall|s: u16, i: u16| !(s == e.service_id && i == e.instance_id) implies #[trigger] remote_lookup(rs, s, i) == remote_lookup(old_rs, s, i) by {
                        lemma_remote_from(old_rs, s, i, 0);
                        match remote_from(old_rs, s, i, 0) {
                            Some(m) => {
                                assert(m != k);
                                assert(rs[m] == old_rs[m]);
                                lemma_lookup_at(rs, s, i, m);
                            },
                            None => {
                                assert forall|m: int| 0 <= m < rs.len() implies !(#[trigger] rs[m].service_id == s && rs[m].instance_id == i) by {
                                    if m != k {
                                        assert(rs[m] == old_rs[m]);
                                    }
                                }
                                lemma_lookup_absent(rs, s, i);
                            },
                        }
                    }
                }
            },
            None => {
                self.remote_services.push(remote);
                let ghost rs = self.remote_services@;
                assert forall|i: int, j: int|
                    0 <= i < j < rs.len() implies !(#[trigger] rs[i].service_id
                        == #[trigger] rs[j].service_id && rs[i].instance_id
                        == rs[j].instance_id) by {
                    assert(rs[i] == old_rs[i]);
                    if j < old_rs.len() {
                        assert(rs[j] == old_rs[j]);
                    }
                }
                assert(remote_keys(rs) =~= remote_keys(old_rs).insert(key)) by {
                    assert forall|x: (u16, u16)| remote_keys(old_rs).insert(key).contains(x)
                        implies remote_keys(rs).contains(x) by {
                        if x != key {
                            let i = choose|i: int| 0 <= i < old_rs.len() && (#[trigger] old_rs[i]).service_id == x.0 && old_rs[i].instance_id == x.1;
                            assert(rs[i] == old_rs[i]);
                        } else {
                            assert(rs[old_rs.len() as int].service_id == x.0);
                        }
                    }
                    assert forall|x: (u16, u16)| remote_keys(rs).contains(x) implies remote_keys(
                        old_rs,
                    ).insert(key).contains(x) by {
                        let i = choose|i: int| 0 <= i < rs.len() && (#[trigger] rs[i]).service_id == x.0 && rs[i].instance_id == x.1;
                        if i < old_rs.len() {
                            assert(rs[i] == old_rs[i]);
                        }
                    }
                }
                proof {
                    let n0 = old_rs.len() as int;
                    assert(rs[n0].service_id == e.service_id && rs[n0].instance_id == e.instance_id);
                    lemma_lookup_at(rs, e.service_id, e.instance_id, n0);
                    assert forall|s: u16, i: u16| !(s == e.service_id && i == e.instance_id) implies #[trigger] remote_lookup(rs, s, i) == remote_lookup(old_rs, s, i) by {
                        lemma_remote_from(old_rs, s, i, 0);
                        match remote_from(old_rs, s, i, 0) {
                            Some(m) => {
                                assert(rs[m] == old_rs[m]);
                                lemma_lookup_at(rs, s, i, m);
                            },
                            None => {
                                assert forall|m: int| 0 <= m < rs.len() implies !(#[trigger] rs[m].service_id == s && rs[m].instance_id == i) by {
                                    if m < n0 {
                                        assert(rs[m] == old_rs[m]);
                                    }
                                }
                                lemma_lookup_absent(rs, s, i);
                            },
                        }
                    }
                }
            },
        }
    }

    /// Forgets the remote service registered under the key, if any.
    fn remove_remote(&mut self, service_id: u16, instance_id: u16)
        requires
            old(self).wf(),
        ensures
            final(self).wf(),
            final(self).local_services@ == old(self).local_services@,
            final(self).listeners@ == old(self).listeners@,
            final(self).subscriptions@ == old(self).subscriptions@,
            final(self).pending_subscriptions@ == old(self).pending_subscriptions@,
            final(self).timing == old(self).timing,
            remote_keys(final(self).remote_services@) == remote_keys(old(self).remote_services@).remove(
                (service_id, instance_id),
            ),
            remote_from(final(self).remote_services@, service_id, instance_id, 0) is None,
            remote_lookup(final(self).remote_services@, service_id, instance_id) is None,
            forall|s: u16, i: u16|
                !(s == service_id && i == instance_id) ==> #[trigger] remote_lookup(
                    final(self).remote_services@,
                    s,
                    i,
                ) == remote_lookup(old(self).remote_services@, s, i),
    {
        let ghost old_rs = self.remote_services@;
        let ghost key = (service_id, instance_id);
        proof {
            lemma_remote_from(old_rs, service_id, instance_id, 0);
        }
        match self.find_remote(service_id, instance_id) {
            Some(k) => {
                let _gone = self.remote_services.remove(k);
                let ghost rs = self.remote_services@;
                assert forall|i: int, j: int|
                    0 <= i < j < rs.len() implies !(#[trigger] rs[i].service_id
                        == #[trigger] rs[j].service_id && rs[i].instance_id
                        == rs[j].instance_id) by {
                    let i0 = if i < k { i } else { i + 1 };
                    let j0 = if j < k { j } else { j + 1 };
                    assert(rs[i] == old_rs[i0] && rs[j] == old_rs[j0]);
                }
                assert forall|m: int| 0 <= m < rs.len() implies !(#[trigger] rs[m].service_id
                    == service_id && rs[m].instance_id == instance_id) by {
                    let m0 = if m < k { m } else { m + 1 };
                    assert(rs[m] == old_rs[m0]);
                }
                assert(remote_keys(rs) =~= remote_keys(old_rs).remove(key)) by {
                    assert forall|x: (u16, u16)| remote_keys(old_rs).remove(key).contains(x)
                        implies remote_keys(rs).contains(x) by {
                        let i = choose|i: int| 0 <= i < old_rs.len() && (#[trigger] old_rs[i]).service_id == x.0 && old_rs[i].instance_id == x.1;
                        assert(i != k);
                        let i1 = if i < k { i } else { i - 1 };
                        assert(rs[i1] == old_rs[i]);
                    }
                    assert forall|x: (u16, u16)| remote_keys(rs).contains(x) implies remote_keys(
                        old_rs,
                    ).remove(key).contains(x) by {
                        let i = choose|i: int| 0 <= i < rs.len() && (#[trigger] rs[i]).service_id == x.0 && rs[i].instance_id == x.1;
                        let i0 = if i < k { i } else { i + 1 };
                        assert(rs[i] == old_rs[i0]);
                    }
                }
                proof {
                    lemma_remote_from(rs, service_id, instance_id, 0);
                    assert forall|s: u16, i: u16| !(s == service_id && i == instance_id) implies #[trigger] remote_lookup(rs, s, i) == remote_lookup(old_rs, s, i) by {
                        lemma_remote_from(old_rs, s, i, 0);
                        match remote_from(old_rs, s, i, 0) {
                            Some(m) => {
                                assert(m != k);
                                let m1 = if m < k { m } else { m - 1 };
                                assert(rs[m1] == old_rs[m]);
                                lemma_lookup_at(rs, s, i, m1);
                            },
                            None => {
                                assert forall|m: int| 0 <= m < rs.len() implies !(#[trigger] rs[m].service_id == s && rs[m].instance_id == i) by {
                                    let m0 = if m < k { m } else { m + 1 };
                                    assert(rs[m] == old_rs[m0]);
                                }
                                lemma_lookup_absent(rs, s, i);
                            },
                        }
                    }
                }
            },
            None => {
                assert(remote_keys(old_rs) =~= remote_keys(old_rs).remove(key));
            },
        }
    }
}

/// After an inbound offer with TTL 0 for a key, no remote service holds the
/// key and `get_service` finds nothing for it (for a specific instance).
pub proof fn lemma_stop_offer_removes(rs: Seq<RemoteService>, sid: u16, iid: u16)
    requires
        remote_from(rs, sid, iid, 0) is None,
        iid != 0xFFFF,
    ensures
        lookup_endpoint(rs, sid, iid) is None,
        !remote_keys(rs).contains((sid, iid)),
{
    lemma_remote_from(rs, sid, iid, 0);
}

/// No address is listed twice.
pub open spec fn no_dup(l: Seq<Endpoint>) -> bool {
    forall|a: int, b: int| 0 <= a < b < l.len() ==> !same_endpoint(#[trigger] l[a], #[trigger] l[b])
}

/// The endpoint of an (endpoint, protocol) pair.
pub open spec fn endpoint_part(p: (Endpoint, u8)) -> Endpoint {
    p.0
}

/// `x` is in the subscriber list.
pub open spec fn has_subscriber(list: Seq<Endpoint>, x: Endpoint) -> bool {
    exists|j: int| 0 <= j < list.len() && same_endpoint(#[trigger] list[j], x)
}

/// The endpoints named by options `a..j`, in order.
pub open spec fn run_endpoints(os: Seq<SdOption>, a: int, j: int) -> Seq<Endpoint>
    decreases j - a,
{
    if j <= a {
        Seq::empty()
    } else {
        match endpoint_of(os[j - 1]) {
            Some(p) => run_endpoints(os, a, j - 1).push(p.0),
            None => run_endpoints(os, a, j - 1),
        }
    }
}

/// `x` is an endpoint named by the first option run of `e`.
pub open spec fn in_first_run(e: SdEntry, os: Seq<SdOption>, x: Endpoint) -> bool {
    let a = e.index_1 as int;
    let b = a + e.number_of_opts_1 as int;
    b <= os.len() && has_subscriber(run_endpoints(os, a, b), x)
}

proof fn lemma_has_push(l: Seq<Endpoint>, p: Endpoint, y: Endpoint)
    ensures
        has_subscriber(l.push(p), y) <==> has_subscriber(l, y) || same_endpoint(p, y),
{
    let lp = l.push(p);
    if has_subscriber(lp, y) {
        let k = choose|k: int| 0 <= k < lp.len() && same_endpoint(#[trigger] lp[k], y);
        if k < l.len() {
            assert(lp[k] == l[k]);
        }
    }
    if has_subscriber(l, y) {
        let k = choose|k: int| 0 <= k < l.len() && same_endpoint(#[trigger] l[k], y);
        assert(lp[k] == l[k]);
    }
    if same_endpoint(p, y) {
        assert(lp[l.len() as int] == p);
    }
}

/// Whether a local service answers a FindService entry: it is offered
/// (not Down) and matches service id, instance id (0xFFFF matches any) and
/// major version.
pub open spec fn answers_find(s: LocalService, e: SdEntry) -> bool {
    &&& s.timer.phase != ServicePhase::Down
    &&& s.entry.service_id == e.service_id
    &&& (e.instance_id == 0xFFFF || s.entry.instance_id == e.instance_id)
    &&& s.entry.major_version == e.major_version
}

/// The offers that answer a FindService entry, from the first `n` local
/// services.
pub open spec fn find_replies(ls: Seq<LocalService>, e: SdEntry, n: int) -> Seq<SdEntry>
    decreases n,
{
    if n <= 0 {
        Seq::empty()
    } else if answers_find(ls[n - 1], e) {
        find_replies(ls, e, n - 1).push(emitted_offer(ls[n - 1]))
    } else {
        find_replies(ls, e, n - 1)
    }
}

/// The acknowledgement of a subscription: same key, TTL and eventgroup.
pub open spec fn ack_of(e: SdEntry) -> SdEntry {
    SdEntry {
        entry_type: EntryType::SubscribeEventgroupAck,
        index_1: 0,
        index_2: 0,
        number_of_opts_1: 0,
        number_of_opts_2: 0,
        ..e
    }
}

/// The entries sent in reply to one received entry.
pub open spec fn entry_replies(ls: Seq<LocalService>, e: SdEntry) -> Seq<SdEntry> {
    if e.entry_type == EntryType::FindService {
        find_replies(ls, e, ls.len() as int)
    } else if e.entry_type == EntryType::SubscribeEventgroup && e.ttl > 0 {
        seq![ack_of(e)]
    } else {
        Seq::empty()
    }
}

/// The remote keys after the first `n` entries of a packet.
pub open spec fn keys_after(keys: Set<(u16, u16)>, es: Seq<SdEntry>, n: int) -> Set<(u16, u16)>
    decreases n,
{
    if n <= 0 {
        keys
    } else {
        let k = keys_after(keys, es, n - 1);
        let e = es[n - 1];
        if e.entry_type == EntryType::OfferService {
            if e.ttl == 0 {
                k.remove((e.service_id, e.instance_id))
            } else {
                k.insert((e.service_id, e.instance_id))
            }
        } else {
            k
        }
    }
}

/// The acknowledgement state of our subscriptions after the first `n`
/// entries of a packet: an ack with TTL > 0 marks the subscription active,
/// one with TTL 0 marks it failed.
pub open spec fn acks_after(m: Map<u32, bool>, es: Seq<SdEntry>, n: int) -> Map<u32, bool>
    decreases n,
{
    if n <= 0 {
        m
    } else {
        let k = acks_after(m, es, n - 1);
        let e = es[n - 1];
        if e.entry_type == EntryType::SubscribeEventgroupAck {
            k.insert(eventgroup_key(e.service_id, eventgroup_of(e)), e.ttl > 0)
        } else {
            k
        }
    }
}

/// The replies to the first `n` entries of a packet.
pub open spec fn replies_after(ls: Seq<LocalService>, es: Seq<SdEntry>, n: int) -> Seq<SdEntry>
    decreases n,
{
    if n <= 0 {
        Seq::empty()
    } else {
        replies_after(ls, es, n - 1) + entry_replies(ls, es[n - 1])
    }
}

/// Whether two byte strings are equal.
fn bytes_eq(x: &[u8], y: &[u8]) -> (r: bool)
    ensures
        r == (x@ == y@),
{
    if x.len() != y.len() {
        return false;
    }
    let mut i: usize = 0;
    while i < x.len()
        invariant
            0 <= i <= x@.len(),
            x@.len() == y@.len(),
            forall|j: int| 0 <= j < i ==> x@[j] == y@[j],
        decreases x@.len() - i,
    {
        if x[i] != y[i] {
            return false;
        }
        i = i + 1;
    }
    assert(x@ =~= y@);
    true
}

/// Whether two endpoints are the same.
fn endpoint_eq(a: &Endpoint, b: &Endpoint) -> (r: bool)
    ensures
        r == same_endpoint(*a, *b),
{
    if a.port != b.port {
        return false;
    }
    match (&a.ip, &b.ip) {
        (IpAddress::V4(x), IpAddress::V4(y)) => bytes_eq(x, y),
        (IpAddress::V6(x), IpAddress::V6(y)) => bytes_eq(x, y),
        _ => false,
    }
}

/// Adds `x` to a subscriber list unless it is already there.
fn add_subscriber(list: &mut Vec<Endpoint>, x: Endpoint)
    requires
        no_dup(old(list)@),
    ensures
        no_dup(final(list)@),
        forall|y: Endpoint| has_subscriber(final(list)@, y) <==> has_subscriber(old(list)@, y) || same_endpoint(x, y),
{
    let mut i: usize = 0;
    while i < list.len()
        invariant
            no_dup(list@),
            0 <= i <= list@.len(),
            list@ == old(list)@,
            forall|j: int| 0 <= j < i ==> !same_endpoint(#[trigger] list@[j], x),
        decreases list@.len() - i,
    {
        if endpoint_eq(&list[i], &x) {
            assert forall|y: Endpoint| same_endpoint(x, y) implies has_subscriber(list@, y) by {
                assert(same_endpoint(list@[i as int], y));
            }
            return;
        }
        i = i + 1;
    }
    list.push(x);
    assert forall|a: int, b: int| 0 <= a < b < list@.len() implies !same_endpoint(#[trigger] list@[a], #[trigger] list@[b]) by {
        assert(list@[a] == old(list)@[a]);
        if b < old(list)@.len() {
            assert(list@[b] == old(list)@[b]);
        }
    }
    assert forall|y: Endpoint| has_subscriber(list@, y) implies has_subscriber(old(list)@, y)
        || same_endpoint(x, y) by {
        let j = choose|j: int| 0 <= j < list@.len() && same_endpoint(#[trigger] list@[j], y);
        if j < old(list)@.len() {
            assert(list@[j] == old(list)@[j]);
        }
    }
    assert forall|y: Endpoint| has_subscriber(old(list)@, y) || same_endpoint(x, y) implies has_subscriber(list@, y) by {
        if has_subscriber(old(list)@, y) {
            let j = choose|j: int| 0 <= j < old(list)@.len() && same_endpoint(#[trigger] old(list)@[j], y);
            assert(list@[j] == old(list)@[j]);
        } else {
            assert(list@[old(list)@.len() as int] == x);
        }
    }
}

/// The first `n` entries of `l` that are not `x`, in order.
pub open spec fn without(l: Seq<Endpoint>, x: Endpoint, n: int) -> Seq<Endpoint>
    decreases n,
{
    if n <= 0 {
        Seq::empty()
    } else if same_endpoint(l[n - 1], x) {
        without(l, x, n - 1)
    } else {
        without(l, x, n - 1).push(l[n - 1])
    }
}

proof fn lemma_without(l: Seq<Endpoint>, x: Endpoint, n: int, y: Endpoint)
    requires
        0 <= n <= l.len(),
    ensures
        has_subscriber(without(l, x, n), y) <==> (exists|j: int|
            0 <= j < n && same_endpoint(#[trigger] l[j], y)) && !same_endpoint(x, y),
    decreases n,
{
    if n > 0 {
        lemma_without(l, x, n - 1, y);
        let w0 = without(l, x, n - 1);
        let w = without(l, x, n);
        if has_subscriber(w, y) {
            let k = choose|k: int| 0 <= k < w.len() && same_endpoint(#[trigger] w[k], y);
            if k < w0.len() {
                assert(w[k] == w0[k]);
                assert(has_subscriber(w0, y));
            } else {
                assert(w[k] == l[n - 1]);
                assert(same_endpoint(l[n - 1], y));
                if same_endpoint(x, y) {
                    lemma_same_endpoint_transitive(y, x, l[n - 1]);
                }
            }
        }
        if (exists|j: int| 0 <= j < n && same_endpoint(#[trigger] l[j], y)) && !same_endpoint(x, y) {
            let j = choose|j: int| 0 <= j < n && same_endpoint(#[trigger] l[j], y);
            if j < n - 1 {
                assert(has_subscriber(w0, y));
                let k = choose|k: int| 0 <= k < w0.len() && same_endpoint(#[trigger] w0[k], y);
                assert(w[k] == w0[k]);
            } else {
                if same_endpoint(l[n - 1], x) {
                    lemma_same_endpoint_transitive(l[n - 1], x, y);
                }
                assert(w[w0.len() as int] == l[n - 1]);
            }
        }
    }
}

proof fn lemma_without_no_dup(l: Seq<Endpoint>, x: Endpoint, n: int)
    requires
        no_dup(l),
        0 <= n <= l.len(),
    ensures
        no_dup(without(l, x, n)),
    decreases n,
{
    if n > 0 {
        lemma_without_no_dup(l, x, n - 1);
        let w0 = without(l, x, n - 1);
        let w = without(l, x, n);
        if !same_endpoint(l[n - 1], x) {
            assert forall|a: int, b: int| 0 <= a < b < w.len() implies !same_endpoint(#[trigger] w[a], #[trigger] w[b]) by {
                assert(w[a] == w0[a]);
                if b < w0.len() {
                    assert(w[b] == w0[b]);
                } else {
                    assert(w[b] == l[n - 1]);
                    if same_endpoint(w[a], l[n - 1]) {
                        lemma_without(l, x, n - 1, l[n - 1]);
                        assert(has_subscriber(w0, l[n - 1]));
                        let j = choose|j: int| 0 <= j < n - 1 && same_endpoint(#[trigger] l[j], l[n - 1]);
                    }
                }
            }
        }
    }
}

/// Removes every entry equal to `x` from a subscriber list.
fn remove_subscriber(list: &mut Vec<Endpoint>, x: Endpoint)
    requires
        no_dup(old(list)@),
    ensures
        no_dup(final(list)@),
        forall|y: Endpoint| has_subscriber(final(list)@, y) <==> has_subscriber(old(list)@, y) && !same_endpoint(x, y),
{
    let mut kept: Vec<Endpoint> = Vec::new();
    let mut i: usize = 0;
    while i < list.len()
        invariant
            0 <= i <= list@.len(),
            list@ == old(list)@,
            kept@ == without(list@, x, i as int),
        decreases list@.len() - i,
    {
        if !endpoint_eq(&list[i], &x) {
            kept.push(list[i]);
        }
        i = i + 1;
    }
    let ghost l0 = old(list)@;
    proof {
        assert(kept@ == without(l0, x, l0.len() as int));
        lemma_without_no_dup(l0, x, l0.len() as int);
        assert forall|y: Endpoint| has_subscriber(kept@, y) <==> has_subscriber(l0, y) && !same_endpoint(x, y) by {
            lemma_without(l0, x, l0.len() as int, y);
        }
    }
    *list = kept;
    assert(final(list)@ == kept@);
}

/// `same_endpoint` is symmetric and transitive.
proof fn lemma_same_endpoint_transitive(x: Endpoint, a: Endpoint, y: Endpoint)
    requires
        same_endpoint(a, x),
        same_endpoint(a, y),
    ensures
        same_endpoint(x, y),
        same_endpoint(y, x),
{
}

/// `list` is `l0` with the endpoints of `run` added (`add`) or removed.
pub open spec fn subscribers_updated(list: Seq<Endpoint>, l0: Seq<Endpoint>, run: Seq<Endpoint>, add: bool) -> bool {
    forall|y: Endpoint|
        #![trigger has_subscriber(list, y)]
        has_subscriber(list, y) <==> if add {
            has_subscriber(l0, y) || has_subscriber(run, y)
        } else {
            has_subscriber(l0, y) && !has_subscriber(run, y)
        }
}


/// The index of the last offer for the key among the first `n` entries.
pub open spec fn last_offer(es: Seq<SdEntry>, n: int, sid: u16, iid: u16) -> Option<int>
    decreases n,
{
    if n <= 0 {
        None
    } else if es[n - 1].entry_type == EntryType::OfferService && es[n - 1].service_id == sid
        && es[n - 1].instance_id == iid {
        Some(n - 1)
    } else {
        last_offer(es, n - 1, sid, iid)
    }
}

/// What the registry holds for a key after the first `n` entries of a
/// packet with options `opts`, received at `now`: the last offer for the
/// key decides (TTL 0 removes, TTL > 0 registers); without one, what was
/// registered before stays.
pub open spec fn remote_after(
    before: Seq<RemoteService>,
    rs: Seq<RemoteService>,
    es: Seq<SdEntry>,
    opts: Seq<SdOption>,
    now: u64,
    n: int,
    sid: u16,
    iid: u16,
) -> bool {
    match last_offer(es, n, sid, iid) {
        Some(j) => if es[j].ttl == 0 {
            remote_lookup(rs, sid, iid) is None
        } else {
            remote_lookup(rs, sid, iid) matches Some(r) && remote_matches(r, es[j], opts, now)
        },
        None => remote_lookup(rs, sid, iid) == remote_lookup(before, sid, iid),
    }
}

/// Whether `y` subscribes under `key` after the first `n` entries of a
/// packet: a subscription with TTL > 0 adds the endpoints of its first
/// option run, one with TTL 0 removes them.
pub open spec fn subscribed_after(
    subs: Map<u32, Vec<Endpoint>>,
    es: Seq<SdEntry>,
    opts: Seq<SdOption>,
    n: int,
    key: u32,
    y: Endpoint,
) -> bool
    decreases n,
{
    if n <= 0 {
        has_subscriber(stored_subscribers(subs, key), y)
    } else {
        let e = es[n - 1];
        let prev = subscribed_after(subs, es, opts, n - 1, key, y);
        if e.entry_type == EntryType::SubscribeEventgroup && eventgroup_key(
            e.service_id,
            eventgroup_of(e),
        ) == key {
            if e.ttl > 0 {
                prev || in_first_run(e, opts, y)
            } else {
                prev && !in_first_run(e, opts, y)
            }
        } else {
            prev
        }
    }
}

impl ServiceDiscovery {
    /// Every subscriber list holds each address at most once.
    pub open spec fn subscribers_distinct(&self) -> bool {
        forall|k: u32| #[trigger] self.subscriptions@.contains_key(k) ==> no_dup(self.subscriptions@[k]@)
    }
}

/// The subscribers stored under a key (none if absent).
pub open spec fn stored_subscribers(m: Map<u32, Vec<Endpoint>>, key: u32) -> Seq<Endpoint> {
    if m.contains_key(key) {
        m[key]@
    } else {
        Seq::empty()
    }
}

/// The endpoint an option names; see `endpoint_of`.
fn option_endpoint(o: &SdOption) -> (r: Option<(Endpoint, u8)>)
    ensures
        r == endpoint_of(*o),
{
    match o {
        SdOption::Ipv4Endpoint { address, transport_proto, port } => Some(
            (Endpoint { ip: IpAddress::V4(*address), port: *port }, *transport_proto),
        ),
        SdOption::Ipv6Endpoint { address, transport_proto, port } => Some(
            (Endpoint { ip: IpAddress::V6(*address), port: *port }, *transport_proto),
        ),
        _ => None,
    }
}

impl ServiceDiscovery {
    /// The offers that answer a FindService entry.
    fn answer_find(&self, e: &SdEntry) -> (r: Vec<(SdEntry, Vec<SdOption>)>)
        ensures
            entries_of(r@) == find_replies(self.local_services@, *e, self.local_services@.len() as int),
            replies_carry_options(r@, self.local_services@, find_sources(self.local_services@, *e, self.local_services@.len() as int)),
    {
        let mut out: Vec<(SdEntry, Vec<SdOption>)> = Vec::new();
        let mut i: usize = 0;
        while i < self.local_services.len()
            invariant
                0 <= i <= self.local_services@.len(),
                entries_of(out@) == find_replies(self.local_services@, *e, i as int),
                replies_carry_options(out@, self.local_services@, find_sources(self.local_services@, *e, i as int)),
            decreases self.local_services@.len() - i,
        {
            let svc = &self.local_services[i];
            if svc.timer.phase != ServicePhase::Down && svc.entry.service_id == e.service_id && (
            e.instance_id == 0xFFFF || svc.entry.instance_id == e.instance_id)
                && svc.entry.major_version == e.major_version {
                let reply = SdEntry {
                    entry_type: svc.entry.entry_type,
                    index_1: 0,
                    index_2: 0,
                    number_of_opts_1: svc.endpoint_options.len() as u8,
                    number_of_opts_2: 0,
                    service_id: svc.entry.service_id,
                    instance_id: svc.entry.instance_id,
                    major_version: svc.entry.major_version,
                    ttl: svc.timing.ttl,
                    minor_version: svc.entry.minor_version,
                };
                let ghost o0 = out@;
                out.push((reply, copy_options(&svc.endpoint_options)));
                proof {
                    let ls = self.local_services@;
                    lemma_sources_bounded(ls, 0, *e, i as int);
                    let src = find_sources(ls, *e, i as int + 1);
                    assert(src == find_sources(ls, *e, i as int).push(i as int));
                    assert forall|m: int| 0 <= m < out@.len() implies {
                        &&& 0 <= src[m] < ls.len()
                        &&& (#[trigger] out@[m]).0 == emitted_offer(ls[src[m]])
                        &&& out@[m].1@.len() == ls[src[m]].endpoint_options@.len()
                        &&& forall|x: int| 0 <= x < out@[m].1@.len() ==> option_same(#[trigger] out@[m].1@[x], ls[src[m]].endpoint_options@[x])
                    } by {
                        if m < o0.len() {
                            assert(out@[m] == o0[m]);
                        }
                    }
                }
            }
            assert(entries_of(out@) =~= find_replies(self.local_services@, *e, i as int + 1));
            i = i + 1;
        }
        out
    }

    /// Adds (`add`) or removes the endpoints of the entry's first option run
    /// to or from the subscribers of `key`.
    fn update_subscribers(&mut self, key: u32, e: &SdEntry, options: &Vec<SdOption>, add: bool)
        requires
            old(self).wf(),
        ensures
            final(self).wf(),
            final(self).remote_services@ == old(self).remote_services@,
            final(self).local_services@ == old(self).local_services@,
            final(self).listeners@ == old(self).listeners@,
            final(self).pending_subscriptions@ == old(self).pending_subscriptions@,
            final(self).timing == old(self).timing,
            final(self).subscriptions@.remove(key) == old(self).subscriptions@.remove(key),
            forall|y: Endpoint|
                #![trigger has_subscriber(stored_subscribers(final(self).subscriptions@, key), y)]
                has_subscriber(stored_subscribers(final(self).subscriptions@, key), y) <==> if add {
                    has_subscriber(stored_subscribers(old(self).subscriptions@, key), y)
                        || in_first_run(*e, options@, y)
                } else {
                    has_subscriber(stored_subscribers(old(self).subscriptions@, key), y)
                        && !in_first_run(*e, options@, y)
                },
    {
        let ghost old_subs = self.subscriptions@;
        let mut list: Vec<Endpoint> = match self.subscriptions.remove(&key) {
            Some(l) => l,
            None => Vec::new(),
        };
        let ghost l0 = list@;
        assert(l0 == stored_subscribers(old_subs, key));
        assert(no_dup(l0));
        let a = e.index_1 as usize;
        let b = a + e.number_of_opts_1 as usize;
        if b <= options.len() {
            let mut j: usize = a;
            assert(run_endpoints(options@, a as int, a as int) =~= Seq::<Endpoint>::empty());
            assert forall|y: Endpoint| !has_subscriber(Seq::<Endpoint>::empty(), y) by {}
            while j < b
                invariant
                    a <= j <= b <= options@.len(),
                    a == e.index_1,
                    b == e.index_1 + e.number_of_opts_1,
                    no_dup(list@),
                    subscribers_updated(list@, l0, run_endpoints(options@, a as int, j as int), add),
                decreases b - j,
            {
                let ghost before = list@;
                let ghost run0 = run_endpoints(options@, a as int, j as int);
                let found = option_endpoint(&options[j]);
                match found {
                    Some((ep, _)) => {
                        if add {
                            add_subscriber(&mut list, ep);
                        } else {
                            remove_subscriber(&mut list, ep);
                        }
                        proof {
                            let run1 = run_endpoints(options@, a as int, j as int + 1);
                            assert(run1 == run0.push(ep));
                            assert forall|y: Endpoint| #![trigger has_subscriber(list@, y)] has_subscriber(list@, y) <==> if add {
                                has_subscriber(l0, y) || has_subscriber(run1, y)
                            } else {
                                has_subscriber(l0, y) && !has_subscriber(run1, y)
                            } by {
                                lemma_has_push(run0, ep, y);
                                assert(has_subscriber(before, y) <==> if add {
                                    has_subscriber(l0, y) || has_subscriber(run0, y)
                                } else {
                                    has_subscriber(l0, y) && !has_subscriber(run0, y)
                                });
                            }
                        }
                    },
                    None => {
                        assert(run_endpoints(options@, a as int, j as int + 1) == run0);
                    },
                }
                j = j + 1;
            }
            proof {
                let run = run_endpoints(options@, a as int, b as int);
                assert forall|y: Endpoint| #![trigger has_subscriber(list@, y)] has_subscriber(list@, y) <==> if add {
                    has_subscriber(l0, y) || in_first_run(*e, options@, y)
                } else {
                    has_subscriber(l0, y) && !in_first_run(*e, options@, y)
                } by {
                    assert(in_first_run(*e, options@, y) == has_subscriber(run, y));
                    assert(has_subscriber(list@, y) <==> if add {
                        has_subscriber(l0, y) || has_subscriber(run, y)
                    } else {
                        has_subscriber(l0, y) && !has_subscriber(run, y)
                    });
                }
            }
        } else {
            assert forall|y: Endpoint| !in_first_run(*e, options@, y) by {}
            assert(list@ == l0);
        }
        let ghost fin = list@;
        self.subscriptions.insert(key, list);
        assert(stored_subscribers(self.subscriptions@, key) == fin);
        assert(self.subscriptions@.remove(key) =~= old_subs.remove(key));
        assert forall|k: u32| #[trigger] self.subscriptions@.contains_key(k) implies no_dup(self.subscriptions@[k]@) by {
            if k != key {
                assert(old_subs.contains_key(k));
            }
        }

    }

    /// Handles one received entry, returning the entries to send in reply:
    /// an offer with TTL > 0 registers or refreshes the remote service and
    /// one with TTL 0 removes it; a FindService is answered by the matching
    /// offered services; a subscription with TTL > 0 adds the subscriber
    /// endpoints of its first option run and is acknowledged, one with TTL 0
    /// removes them; an acknowledgement marks our subscription active (TTL
    /// > 0) or failed (TTL 0).
    pub fn handle_entry(&mut self, e: &SdEntry, options: &Vec<SdOption>, now: u64) -> (r: Vec<
        (SdEntry, Vec<SdOption>),
    >)
        requires
            old(self).wf(),
        ensures
            final(self).wf(),
            final(self).local_services@ == old(self).local_services@,
            final(self).listeners@ == old(self).listeners@,
            final(self).timing == old(self).timing,
            entries_of(r@) == entry_replies(old(self).local_services@, *e),
            e.entry_type == EntryType::FindService ==> replies_carry_options(
                r@,
                old(self).local_services@,
                find_sources(old(self).local_services@, *e, old(self).local_services@.len() as int),
            ),
            remote_keys(final(self).remote_services@) == keys_after(
                remote_keys(old(self).remote_services@),
                seq![*e],
                1,
            ),
            final(self).pending_subscriptions@ == acks_after(
                old(self).pending_subscriptions@,
                seq![*e],
                1,
            ),
            e.entry_type == EntryType::OfferService && e.ttl == 0 ==> remote_from(
                final(self).remote_services@,
                e.service_id,
                e.instance_id,
                0,
            ) is None,
            e.entry_type == EntryType::OfferService && e.ttl == 0 ==> remote_lookup(
                final(self).remote_services@,
                e.service_id,
                e.instance_id,
            ) is None,
            e.entry_type == EntryType::OfferService && e.ttl > 0 ==> (remote_lookup(
                final(self).remote_services@,
                e.service_id,
                e.instance_id,
            ) matches Some(r) && remote_matches(r, *e, options@, now)),
            forall|s: u16, i: u16|
                !(e.entry_type == EntryType::OfferService && s == e.service_id && i == e.instance_id)
                    ==> #[trigger] remote_lookup(final(self).remote_services@, s, i) == remote_lookup(
                    old(self).remote_services@,
                    s,
                    i,
                ),
            e.entry_type != EntryType::OfferService ==> final(self).remote_services@ == old(
                self,
            ).remote_services@,
            e.entry_type != EntryType::SubscribeEventgroup ==> final(self).subscriptions@ == old(
                self,
            ).subscriptions@,
            e.entry_type == EntryType::SubscribeEventgroup ==> ({
                let key = eventgroup_key(e.service_id, eventgroup_of(*e));
                &&& final(self).subscriptions@.remove(key) == old(self).subscriptions@.remove(key)
                &&& forall|y: Endpoint|
                    #![trigger has_subscriber(stored_subscribers(final(self).subscriptions@, key), y)]
                    has_subscriber(stored_subscribers(final(self).subscriptions@, key), y) <==> if e.ttl > 0 {
                        has_subscriber(stored_subscribers(old(self).subscriptions@, key), y)
                            || in_first_run(*e, options@, y)
                    } else {
                        has_subscriber(stored_subscribers(old(self).subscriptions@, key), y)
                            && !in_first_run(*e, options@, y)
                    }
            }),
    {
        let ghost old_keys = remote_keys(self.remote_services@);
        let ghost ls = self.local_services@;
        proof {
            let one = seq![*e];
            assert(one[0] == *e);
            assert(keys_after(old_keys, one, 0) == old_keys);
            assert(acks_after(self.pending_subscriptions@, one, 0) == self.pending_subscriptions@);
        }
        let mut replies: Vec<(SdEntry, Vec<SdOption>)> = Vec::new();
        match e.entry_type {
            EntryType::OfferService => {
                if e.ttl == 0 {
                    self.remove_remote(e.service_id, e.instance_id);
                } else {
                    self.upsert_remote(e, options, now);
                }
            },
            EntryType::FindService => {
                replies = self.answer_find(e);
            },
            EntryType::SubscribeEventgroup => {
                let key: u32 = (e.service_id as u32) * 65536 + e.minor_version / 65536;
                assert(key == eventgroup_key(e.service_id, eventgroup_of(*e)));
                self.update_subscribers(key, e, options, e.ttl > 0);
                if e.ttl > 0 {
                    let ack = SdEntry {
                        entry_type: EntryType::SubscribeEventgroupAck,
                        index_1: 0,
                        index_2: 0,
                        number_of_opts_1: 0,
                        number_of_opts_2: 0,
                        service_id: e.service_id,
                        instance_id: e.instance_id,
                        major_version: e.major_version,
                        ttl: e.ttl,
                        minor_version: e.minor_version,
                    };
                    replies.push((ack, Vec::new()));
                }
            },
            EntryType::SubscribeEventgroupAck => {
                let key: u32 = (e.service_id as u32) * 65536 + e.minor_version / 65536;
                assert(key == eventgroup_key(e.service_id, eventgroup_of(*e)));
                self.pending_subscriptions.insert(key, e.ttl > 0);
            },
            _ => {},
        }
        assert(entries_of(replies@) =~= entry_replies(ls, *e));
        replies
    }

    /// Handles every entry of a received packet in order; returns all the
    /// replies.
    pub fn handle_incoming_packet(&mut self, packet: &SdPacket, now: u64) -> (r: Vec<
        (SdEntry, Vec<SdOption>),
    >)
        requires
            old(self).wf(),
        ensures
            final(self).wf(),
            final(self).local_services@ == old(self).local_services@,
            final(self).listeners@ == old(self).listeners@,
            final(self).timing == old(self).timing,
            entries_of(r@) == replies_after(
                old(self).local_services@,
                packet.entries@,
                packet.entries@.len() as int,
            ),
            remote_keys(final(self).remote_services@) == keys_after(
                remote_keys(old(self).remote_services@),
                packet.entries@,
                packet.entries@.len() as int,
            ),
            final(self).pending_subscriptions@ == acks_after(
                old(self).pending_subscriptions@,
                packet.entries@,
                packet.entries@.len() as int,
            ),
            forall|s: u16, i: u16|
                #[trigger] remote_after(
                    old(self).remote_services@,
                    final(self).remote_services@,
                    packet.entries@,
                    packet.options@,
                    now,
                    packet.entries@.len() as int,
                    s,
                    i,
                ),
            forall|key: u32, y: Endpoint|
                #[trigger] has_subscriber(stored_subscribers(final(self).subscriptions@, key), y)
                    == subscribed_after(
                    old(self).subscriptions@,
                    packet.entries@,
                    packet.options@,
                    packet.entries@.len() as int,
                    key,
                    y,
                ),
            final(self).subscribers_distinct(),
    {
        let ghost ls = self.local_services@;
        let ghost keys0 = remote_keys(self.remote_services@);
        let ghost acks0 = self.pending_subscriptions@;
        let ghost es = packet.entries@;
        let mut out: Vec<(SdEntry, Vec<SdOption>)> = Vec::new();
        let mut i: usize = 0;
        while i < packet.entries.len()
            invariant
                0 <= i <= es.len(),
                es == packet.entries@,
                self.wf(),
                self.local_services@ == ls,
                ls == old(self).local_services@,
                self.listeners@ == old(self).listeners@,
                self.timing == old(self).timing,
                entries_of(out@) == replies_after(ls, es, i as int),
                remote_keys(self.remote_services@) == keys_after(keys0, es, i as int),
                self.pending_subscriptions@ == acks_after(acks0, es, i as int),
                forall|s: u16, j: u16|
                    #[trigger] remote_after(old(self).remote_services@, self.remote_services@, es, packet.options@, now, i as int, s, j),
                forall|key: u32, y: Endpoint|
                    #[trigger] has_subscriber(stored_subscribers(self.subscriptions@, key), y)
                        == subscribed_after(old(self).subscriptions@, es, packet.options@, i as int, key, y),
            decreases es.len() - i,
        {
            let ghost before_keys = remote_keys(self.remote_services@);
            let ghost before_acks = self.pending_subscriptions@;
            let ghost before_rs = self.remote_services@;
            let ghost before_subs = self.subscriptions@;
            let mut replies = self.handle_entry(&packet.entries[i], &packet.options, now);
            let ghost o0 = out@;
            let ghost r0 = replies@;
            out.append(&mut replies);
            proof {
                let e = es[i as int];
                let one = seq![e];
                assert(one[0] == e);
                assert(keys_after(before_keys, one, 0) == before_keys);
                assert(acks_after(before_acks, one, 0) == before_acks);
                assert(entries_of(out@) =~= entries_of(o0) + entries_of(r0));
                assert(entries_of(out@) =~= replies_after(ls, es, i as int + 1));
                assert(keys_after(before_keys, seq![e], 1) == keys_after(keys0, es, i as int + 1));
                assert(acks_after(before_acks, seq![e], 1) == acks_after(acks0, es, i as int + 1));
                let opts = packet.options@;
                assert forall|s: u16, j: u16|
                    #[trigger] remote_after(old(self).remote_services@, self.remote_services@, es, opts, now, i as int + 1, s, j) by {
                    assert(remote_after(old(self).remote_services@, before_rs, es, opts, now, i as int, s, j));
                    if !(e.entry_type == EntryType::OfferService && s == e.service_id && j == e.instance_id) {
                        assert(remote_lookup(self.remote_services@, s, j) == remote_lookup(before_rs, s, j));
                        assert(last_offer(es, i as int + 1, s, j) == last_offer(es, i as int, s, j));
                    } else {
                        assert(last_offer(es, i as int + 1, s, j) == Some(i as int));
                    }
                }
                assert forall|key: u32, y: Endpoint|
                    #[trigger] has_subscriber(stored_subscribers(self.subscriptions@, key), y)
                        == subscribed_after(old(self).subscriptions@, es, opts, i as int + 1, key, y) by {
                    assert(has_subscriber(stored_subscribers(before_subs, key), y)
                        == subscribed_after(old(self).subscriptions@, es, opts, i as int, key, y));
                    if e.entry_type == EntryType::SubscribeEventgroup && eventgroup_key(e.service_id, eventgroup_of(e)) == key {
                    } else if e.entry_type == EntryType::SubscribeEventgroup {
                        let k0 = eventgroup_key(e.service_id, eventgroup_of(e));
                        assert(self.subscriptions@.remove(k0) == before_subs.remove(k0));
                        assert(self.subscriptions@.contains_key(key) == self.subscriptions@.remove(k0).contains_key(key));
                        assert(before_subs.contains_key(key) == before_subs.remove(k0).contains_key(key));
                        if self.subscriptions@.contains_key(key) {
                            assert(self.subscriptions@[key] == self.subscriptions@.remove(k0)[key]);
                            assert(before_subs[key] == before_subs.remove(k0)[key]);
                        }
                        assert(stored_subscribers(self.subscriptions@, key) == stored_subscribers(before_subs, key));
                    }
                }
            }
            i = i + 1;
        }
        out
    }
}

/// The endpoint options a subscription carries: the interface's unicast
/// addresses over UDP, IPv4 at `port_v4` first, then IPv6 at `port_v6`.
pub open spec fn subscribe_options(iface: Option<SdInterface>, port_v4: u16, port_v6: u16) -> Seq<SdOption> {
    match iface {
        Some(l) => (match l.local_ip_v4 {
            Some(a) => seq![SdOption::Ipv4Endpoint { address: a, transport_proto: PROTO_UDP, port: port_v4 }],
            None => Seq::empty(),
        }) + (match l.local_ip_v6 {
            Some(a) => seq![SdOption::Ipv6Endpoint { address: a, transport_proto: PROTO_UDP, port: port_v6 }],
            None => Seq::empty(),
        }),
        None => Seq::empty(),
    }
}

/// The SubscribeEventgroup entry for a subscription.
pub open spec fn subscribe_entry(sid: u16, iid: u16, eg: u16, ttl: u32, nopts: nat) -> SdEntry {
    SdEntry {
        entry_type: EntryType::SubscribeEventgroup,
        index_1: 0,
        index_2: 0,
        number_of_opts_1: nopts as u8,
        number_of_opts_2: 0,
        service_id: sid,
        instance_id: iid,
        major_version: 0x01,
        ttl,
        minor_version: (eg as int * 65536) as u32,
    }
}

impl ServiceDiscovery {
    /// Builds the SubscribeEventgroup entry (with the interface's endpoint
    /// options) to send, and records the subscription as not yet
    /// acknowledged.
    pub fn subscribe_eventgroup(
        &mut self,
        service_id: u16,
        instance_id: u16,
        eventgroup_id: u16,
        ttl: u32,
        iface_alias: &str,
        port_v4: u16,
        port_v6: u16,
    ) -> (r: (SdEntry, Vec<SdOption>))
        requires
            old(self).wf(),
        ensures
            final(self).wf(),
            final(self).local_services@ == old(self).local_services@,
            final(self).remote_services@ == old(self).remote_services@,
            final(self).listeners@ == old(self).listeners@,
            final(self).subscriptions@ == old(self).subscriptions@,
            final(self).timing == old(self).timing,
            final(self).pending_subscriptions@ == old(self).pending_subscriptions@.insert(
                eventgroup_key(service_id, eventgroup_id),
                false,
            ),
            ({
                let iface = match listener_from(old(self).listeners@, iface_alias@, 0) {
                    Some(i) => Some(old(self).listeners@[i]),
                    None => None,
                };
                let opts = subscribe_options(iface, port_v4, port_v6);
                &&& r.1@ == opts
                &&& r.0 == subscribe_entry(service_id, instance_id, eventgroup_id, ttl, opts.len())
            }),
    {
        let mut opts: Vec<SdOption> = Vec::new();
        proof {
            lemma_listener_from(self.listeners@, iface_alias@, 0);
        }
        let ghost iface = match listener_from(self.listeners@, iface_alias@, 0) {
            Some(i) => Some(self.listeners@[i]),
            None => None,
        };
        match self.find_listener(iface_alias) {
            Some(k) => {
                assert(iface == Some(self.listeners@[k as int]));
                match self.listeners[k].local_ip_v4 {
                    Some(a) => opts.push(
                        SdOption::Ipv4Endpoint { address: a, transport_proto: PROTO_UDP, port: port_v4 },
                    ),
                    None => {},
                }
                match self.listeners[k].local_ip_v6 {
                    Some(a) => opts.push(
                        SdOption::Ipv6Endpoint { address: a, transport_proto: PROTO_UDP, port: port_v6 },
                    ),
                    None => {},
                }
            },
            None => {},
        }
        assert(opts@ =~= subscribe_options(iface, port_v4, port_v6));
        let entry = SdEntry {
            entry_type: EntryType::SubscribeEventgroup,
            index_1: 0,
            index_2: 0,
            number_of_opts_1: opts.len() as u8,
            number_of_opts_2: 0,
            service_id,
            instance_id,
            major_version: 0x01,
            ttl,
            minor_version: (eventgroup_id as u32) * 65536,
        };
        let key: u32 = (service_id as u32) * 65536 + (eventgroup_id as u32);
        self.pending_subscriptions.insert(key, false);
        (entry, opts)
    }

    /// Builds the entry that ends a subscription (TTL 0, no ports) and
    /// forgets the subscription.
    pub fn unsubscribe_eventgroup(
        &mut self,
        service_id: u16,
        instance_id: u16,
        eventgroup_id: u16,
        iface_alias: &str,
    ) -> (r: (SdEntry, Vec<SdOption>))
        requires
            old(self).wf(),
        ensures
            final(self).wf(),
            final(self).local_services@ == old(self).local_services@,
            final(self).remote_services@ == old(self).remote_services@,
            final(self).listeners@ == old(self).listeners@,
            final(self).subscriptions@ == old(self).subscriptions@,
            final(self).timing == old(self).timing,
            final(self).pending_subscriptions@ == old(self).pending_subscriptions@.remove(
                eventgroup_key(service_id, eventgroup_id),
            ),
            ({
                let iface = match listener_from(old(self).listeners@, iface_alias@, 0) {
                    Some(i) => Some(old(self).listeners@[i]),
                    None => None,
                };
                let opts = subscribe_options(iface, 0, 0);
                &&& r.1@ == opts
                &&& r.0 == subscribe_entry(service_id, instance_id, eventgroup_id, 0, opts.len())
            }),
    {
        let r = self.subscribe_eventgroup(service_id, instance_id, eventgroup_id, 0, iface_alias, 0, 0);
        let key: u32 = (service_id as u32) * 65536 + (eventgroup_id as u32);
        self.pending_subscriptions.remove(&key);
        assert(self.pending_subscriptions@ =~= old(self).pending_subscriptions@.remove(key));
        r
    }

    /// Whether our subscription to the eventgroup was acknowledged.
    pub fn is_subscription_acked(&self, service_id: u16, eventgroup_id: u16) -> (r: bool)
        ensures
            r == (self.pending_subscriptions@.contains_key(eventgroup_key(service_id, eventgroup_id))
                && self.pending_subscriptions@[eventgroup_key(service_id, eventgroup_id)]),
    {
        let key: u32 = (service_id as u32) * 65536 + (eventgroup_id as u32);
        match self.pending_subscriptions.get(&key) {
            Some(v) => *v,
            None => false,
        }
    }
}

/// When a reply drawn with `random` is due: `now + min + random % span`,
/// where `span = max − min` (at least 1), capped at `u64::MAX`.
pub open spec fn reply_at(now: u64, min_ms: u64, max_ms: u64, random: u64) -> u64 {
    let span: u64 = if max_ms > min_ms { (max_ms - min_ms) as u64 } else { 1 };
    sat_add(sat_add(now, min_ms), random % span)
}

/// The time to send a reply to a FindService: uniformly in
/// `[now + min, now + max)` for a uniform `random`.
pub fn reply_time(now: u64, min_ms: u64, max_ms: u64, random: u64) -> (r: u64)
    ensures
        r == reply_at(now, min_ms, max_ms, random),
        min_ms < max_ms && now + max_ms <= u64::MAX ==> now + min_ms <= r < now + max_ms,
{
    let span: u64 = if max_ms > min_ms {
        max_ms - min_ms
    } else {
        1
    };
    now.saturating_add(min_ms).saturating_add(random % span)
}

/// A reply waiting for its time: when, the entry, its options.
pub type DelayedReply = (u64, SdEntry, Vec<SdOption>);

/// The replies among the first `n` of `q` that are due at `now`, in order.
pub open spec fn due_replies(q: Seq<DelayedReply>, now: u64, n: int) -> Seq<(SdEntry, Vec<SdOption>)>
    decreases n,
{
    if n <= 0 {
        Seq::empty()
    } else if q[n - 1].0 <= now {
        due_replies(q, now, n - 1).push((q[n - 1].1, q[n - 1].2))
    } else {
        due_replies(q, now, n - 1)
    }
}

/// The replies among the first `n` of `q` still waiting at `now`, in order.
pub open spec fn waiting_replies(q: Seq<DelayedReply>, now: u64, n: int) -> Seq<DelayedReply>
    decreases n,
{
    if n <= 0 {
        Seq::empty()
    } else if q[n - 1].0 <= now {
        waiting_replies(q, now, n - 1)
    } else {
        waiting_replies(q, now, n - 1).push(q[n - 1])
    }
}

/// Takes the replies due at `now` out of the queue, keeping the others in
/// order.
pub fn take_due(queue: &mut Vec<DelayedReply>, now: u64) -> (r: Vec<(SdEntry, Vec<SdOption>)>)
    ensures
        r@ == due_replies(old(queue)@, now, old(queue)@.len() as int),
        final(queue)@ == waiting_replies(old(queue)@, now, old(queue)@.len() as int),
{
    let ghost q0 = queue@;
    let mut out: Vec<(SdEntry, Vec<SdOption>)> = Vec::new();
    let mut i: usize = 0;
    let mut j: usize = 0;
    assert(q0.len() == queue.len());
    while i < queue.len()
        invariant
            0 <= i <= j <= q0.len(),
            q0.len() <= usize::MAX,
            i == waiting_replies(q0, now, j as int).len(),
            queue@ == waiting_replies(q0, now, j as int) + q0.subrange(j as int, q0.len() as int),
            out@ == due_replies(q0, now, j as int),
        decreases q0.len() - j,
    {
        assert(queue@.len() == i + (q0.len() - j));
        assert(queue@[i as int] == q0[j as int]);
        if queue[i].0 <= now {
            let (_, e, o) = queue.remove(i);
            out.push((e, o));
            assert(queue@ =~= waiting_replies(q0, now, j as int + 1) + q0.subrange(j as int + 1, q0.len() as int));
        } else {
            assert(queue@ =~= waiting_replies(q0, now, j as int + 1) + q0.subrange(j as int + 1, q0.len() as int));
            i = i + 1;
        }
        j = j + 1;
    }
    assert(queue@ =~= waiting_replies(q0, now, q0.len() as int));
    out
}

impl LocalService {
    /// A service that is not offered yet: phase Down.
    pub fn new(entry: SdEntry, endpoint_options: Vec<SdOption>, timing: SdTiming, now: u64) -> (r: LocalService)
        ensures
            r.entry == entry,
            r.endpoint_options@ == endpoint_options@,
            r.timing == timing,
            r.timer == (OfferTimer {
                phase: ServicePhase::Down,
                phase_start: now,
                next_transmission: now,
                repetition_count: 0,
            }),
    {
        LocalService {
            entry,
            endpoint_options,
            timer: OfferTimer {
                phase: ServicePhase::Down,
                phase_start: now,
                next_transmission: now,
                repetition_count: 0,
            },
            timing,
        }
    }

    /// Enters InitialWait; see `enter_initial_wait`.
    pub fn transition_to_initial_wait(&mut self, now: u64, random: u64)
        ensures
            final(self).timer == enter_initial_wait(old(self).timer, old(self).timing, now, random),
            final(self).entry == old(self).entry,
            final(self).endpoint_options@ == old(self).endpoint_options@,
            final(self).timing == old(self).timing,
    {
        self.timer = start_initial_wait(self.timer, self.timing, now, random);
    }

    /// Enters Repetition: count 0, the next offer due at once.
    pub fn transition_to_repetition(&mut self, now: u64)
        ensures
            final(self).timer == (OfferTimer {
                phase: ServicePhase::Repetition,
                phase_start: now,
                next_transmission: now,
                repetition_count: 0,
            }),
            final(self).entry == old(self).entry,
            final(self).endpoint_options@ == old(self).endpoint_options@,
            final(self).timing == old(self).timing,
    {
        self.timer = OfferTimer {
            phase: ServicePhase::Repetition,
            phase_start: now,
            next_transmission: now,
            repetition_count: 0,
        };
    }

    /// Enters Main: the next offer due at once.
    pub fn transition_to_main(&mut self, now: u64)
        ensures
            final(self).timer == (OfferTimer {
                phase: ServicePhase::Main,
                phase_start: now,
                next_transmission: now,
                repetition_count: old(self).timer.repetition_count,
            }),
            final(self).entry == old(self).entry,
            final(self).endpoint_options@ == old(self).endpoint_options@,
            final(self).timing == old(self).timing,
    {
        self.timer = OfferTimer {
            phase: ServicePhase::Main,
            phase_start: now,
            next_transmission: now,
            repetition_count: self.timer.repetition_count,
        };
    }
}

} // verus!
