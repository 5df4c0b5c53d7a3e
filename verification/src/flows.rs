//! The flow inspector: bidirectional flows, their lifecycle events, and
//! their rates.
//!
//! A flow is keyed by the direction-agnostic pair key. Its direction is
//! assigned from a configurable set of local networks; its rates are the
//! totals divided by the elapsed seconds. Flows idle past the timeout are
//! retired to a bounded history, and lifecycle events go to a bounded log.

use vstd::prelude::*;
use crate::net::{Cidr, Endpoint, IpAddress, PairKey, pair_key, spec_pair_key, spec_endpoint_str};
use crate::packet::PacketMeta;
use crate::protocols::ProtocolType;
use crate::text::spec_decimal;
use crate::{sat_add_u64, spec_ring_append};

verus! {

/// Where a flow's traffic goes, relative to the local networks.
#[derive(Clone, Copy, Debug, PartialEq, Eq, Hash, Structural)]
pub enum FlowDirection {
    Inbound,
    Outbound,
    Internal,
    Unknown,
}

/// One bidirectional flow.
#[derive(Clone, Copy, Debug)]
pub struct TrafficFlow {
    /// The direction-agnostic pair key; it identifies the flow.
    pub flow_id: PairKey,
    pub src_addr: Endpoint,
    pub dst_addr: Endpoint,
    pub protocol: ProtocolType,
    pub direction: FlowDirection,
    pub start_time: u64,
    pub last_seen: u64,
    pub packet_count: u64,
    pub byte_count: u64,
    pub packets_per_second: u64,
    pub bytes_per_second: u64,
    pub is_active: bool,
}

/// What a traffic event reports.
#[derive(Clone, Copy, Debug, PartialEq, Eq, Structural)]
pub enum TrafficEventType {
    FlowStarted,
    FlowEnded,
    HighBandwidth,
    SuspiciousActivity,
    ProtocolAnomaly,
    ConnectionSpike,
}

/// How grave a traffic event is.
#[derive(Clone, Copy, Debug, PartialEq, Eq, Structural)]
pub enum EventSeverity {
    Info,
    Warning,
    Critical,
}

/// One traffic event.
#[derive(Clone, Debug)]
pub struct TrafficEvent {
    pub timestamp: u64,
    pub event_type: TrafficEventType,
    pub flow_id: PairKey,
    pub description: String,
    pub severity: EventSeverity,
}

/// Copy an event; the description string is duplicated.
pub fn clone_event(e: &TrafficEvent) -> (r: TrafficEvent)
    ensures
        r == *e,
{
    TrafficEvent {
        timestamp: e.timestamp,
        event_type: e.event_type,
        flow_id: e.flow_id,
        description: e.description.clone(),
        severity: e.severity,
    }
}

/// The seconds a flow has been seen for: last seen minus start, zero when
/// the clock stands before the start.
pub open spec fn spec_flow_elapsed(f: TrafficFlow) -> int {
    if f.last_seen >= f.start_time {
        f.last_seen - f.start_time
    } else {
        0
    }
}

/// A flow's rates never overstate it: each rate is at most the matching
/// total divided by the elapsed seconds, counting at least one second.
pub open spec fn spec_rates_sound(f: TrafficFlow) -> bool {
    &&& f.bytes_per_second <= f.byte_count as int / (if spec_flow_elapsed(f) >= 1 {
        spec_flow_elapsed(f)
    } else {
        1
    })
    &&& f.packets_per_second <= f.packet_count as int / (if spec_flow_elapsed(f) >= 1 {
        spec_flow_elapsed(f)
    } else {
        1
    })
}

/// The flows held in a record sequence, as a map from pair key to record.
pub open spec fn spec_flow_map_of(s: Seq<TrafficFlow>) -> Map<PairKey, TrafficFlow>
    decreases s.len(),
{
    if s.len() == 0 {
        Map::empty()
    } else {
        spec_flow_map_of(s.drop_last()).insert(s.last().flow_id, s.last())
    }
}

/// In a flow sequence with pairwise-distinct keys, the map entry of an
/// indexed flow is that flow.
proof fn lemma_flow_map_at(s: Seq<TrafficFlow>, i: int)
    requires
        0 <= i < s.len(),
        forall|a: int, b: int|
            0 <= a < b < s.len() ==> (#[trigger] s[a]).flow_id != (#[trigger] s[b]).flow_id,
    ensures
        spec_flow_map_of(s).contains_key(s[i].flow_id),
        spec_flow_map_of(s)[s[i].flow_id] == s[i],
    decreases s.len(),
{
    if i < s.len() - 1 {
        lemma_flow_map_at(s.drop_last(), i);
        assert(s.drop_last()[i] == s[i]);
        assert(s.last().flow_id != s[i].flow_id);
    }
}

/// In a flow sequence with pairwise-distinct keys, replacing an indexed
/// flow with one of the same key replaces its map entry.
proof fn lemma_flow_map_update(s: Seq<TrafficFlow>, i: int, v: TrafficFlow)
    requires
        0 <= i < s.len(),
        v.flow_id == s[i].flow_id,
        forall|a: int, b: int|
            0 <= a < b < s.len() ==> (#[trigger] s[a]).flow_id != (#[trigger] s[b]).flow_id,
    ensures
        spec_flow_map_of(s.update(i, v)) == spec_flow_map_of(s).insert(v.flow_id, v),
    decreases s.len(),
{
    let t = s.update(i, v);
    if i == s.len() - 1 {
        assert(t.drop_last() =~= s.drop_last());
        assert(t.last() == v);
        assert(spec_flow_map_of(t) =~= spec_flow_map_of(s).insert(v.flow_id, v));
    } else {
        lemma_flow_map_update(s.drop_last(), i, v);
        assert(t.drop_last() =~= s.drop_last().update(i, v));
        assert(t.last() == s.last());
        assert(s.last().flow_id != v.flow_id);
        assert(spec_flow_map_of(t) =~= spec_flow_map_of(s).insert(v.flow_id, v));
    }
}

/// A key that appears in no flow has no map entry.
proof fn lemma_flow_map_absent(s: Seq<TrafficFlow>, k: PairKey)
    requires
        forall|i: int| 0 <= i < s.len() ==> (#[trigger] s[i]).flow_id != k,
    ensures
        !spec_flow_map_of(s).contains_key(k),
    decreases s.len(),
{
    if s.len() > 0 {
        lemma_flow_map_absent(s.drop_last(), k);
    }
}

/// Whether any network of the set contains the address.
pub open spec fn spec_in_local_networks(nets: Seq<Cidr>, ip: IpAddress) -> bool {
    exists|i: int| 0 <= i < nets.len() && (#[trigger] nets[i]).spec_contains(ip)
}

/// The direction a flow takes between two addresses: internal between two
/// local addresses, outbound from local to remote, inbound from remote to
/// local, unknown between two remote addresses.
pub open spec fn spec_flow_direction(nets: Seq<Cidr>, src: IpAddress, dst: IpAddress) -> FlowDirection {
    let src_local = spec_in_local_networks(nets, src);
    let dst_local = spec_in_local_networks(nets, dst);
    if src_local && dst_local {
        FlowDirection::Internal
    } else if src_local && !dst_local {
        FlowDirection::Outbound
    } else if !src_local && dst_local {
        FlowDirection::Inbound
    } else {
        FlowDirection::Unknown
    }
}

/// The description of a flow-started event.
pub open spec fn spec_flow_started_descr(p: ProtocolType, src: Endpoint, dst: Endpoint) -> Seq<
    char,
> {
    "New "@ + p.spec_display_name() + " flow: "@ + spec_endpoint_str(src) + " -> "@
        + spec_endpoint_str(dst)
}

/// The description of a high-bandwidth event.
pub open spec fn spec_high_bandwidth_descr(bps: u64) -> Seq<char> {
    "High bandwidth detected: "@ + spec_decimal(bps as int) + " B/s"@
}

/// The description of a flow-ended event.
pub open spec fn spec_flow_ended_descr(duration: int) -> Seq<char> {
    "Flow ended after "@ + spec_decimal(duration) + "s"@
}

/// Whether an event carries exactly the given fields, the description
/// compared as text.
pub open spec fn spec_event_matches(
    e: TrafficEvent,
    ts: u64,
    ty: TrafficEventType,
    k: PairKey,
    d: Seq<char>,
    sev: EventSeverity,
) -> bool {
    &&& e.timestamp == ts
    &&& e.event_type == ty
    &&& e.flow_id == k
    &&& e.description@ == d
    &&& e.severity == sev
}

/// The flow inspector.
pub struct TrafficInspector {
    pub active_flows: Vec<TrafficFlow>,
    pub flow_history: Vec<TrafficFlow>,
    pub traffic_events: Vec<TrafficEvent>,
    /// Bytes per second above which a high-bandwidth event fires.
    pub bandwidth_threshold: u64,
    /// Packets per second considered excessive.
    pub packet_rate_threshold: u64,
    /// Seconds of idleness after which a flow is retired.
    pub flow_timeout: u64,
    /// The history ring's cap.
    pub max_flows: usize,
    /// The event ring's cap.
    pub max_events: usize,
    pub local_networks: Vec<Cidr>,
}

impl TrafficInspector {
    /// Each pair key is held at most once, each flow is keyed by its own
    /// endpoints, every rate is sound, the rings respect their caps, and
    /// every configured network is well-formed.
    pub open spec fn wf(self) -> bool {
        &&& forall|a: int, b: int|
            0 <= a < b < self.active_flows@.len() ==> (#[trigger] self.active_flows@[a]).flow_id
                != (#[trigger] self.active_flows@[b]).flow_id
        &&& forall|i: int|
            0 <= i < self.active_flows@.len() ==> (#[trigger] self.active_flows@[i]).flow_id
                == spec_pair_key(self.active_flows@[i].src_addr, self.active_flows@[i].dst_addr)
        &&& forall|i: int|
            0 <= i < self.active_flows@.len() ==> spec_rates_sound(
                #[trigger] self.active_flows@[i],
            )
        &&& self.flow_history@.len() <= self.max_flows
        &&& self.traffic_events@.len() <= self.max_events
        &&& self.max_flows >= 1
        &&& self.max_events >= 1
        &&& forall|i: int| 0 <= i < self.local_networks@.len() ==> (#[trigger] self.local_networks@[i]).wf()
    }

    /// The active flows as a map from pair key to record.
    pub open spec fn flow_map(self) -> Map<PairKey, TrafficFlow> {
        spec_flow_map_of(self.active_flows@)
    }

    /// Every active flow's rates are bounded by its totals over its
    /// elapsed seconds, counting at least one.
    pub proof fn lemma_active_rates_sound(self, i: int)
        requires
            self.wf(),
            0 <= i < self.active_flows@.len(),
        ensures
            self.active_flows@[i].bytes_per_second <= self.active_flows@[i].byte_count as int / (
            if spec_flow_elapsed(self.active_flows@[i]) >= 1 {
                spec_flow_elapsed(self.active_flows@[i])
            } else {
                1
            }),
            self.active_flows@[i].packets_per_second <= self.active_flows@[i].packet_count as int
                / (if spec_flow_elapsed(self.active_flows@[i]) >= 1 {
                spec_flow_elapsed(self.active_flows@[i])
            } else {
                1
            }),
    {
    }

    /// An inspector with the default thresholds, timeouts, caps, and the
    /// loopback and private local networks.
    pub fn new() -> (r: TrafficInspector)
        ensures
            r.wf(),
            r.active_flows@.len() == 0,
            r.flow_history@.len() == 0,
            r.traffic_events@.len() == 0,
            r.bandwidth_threshold == 1000000,
            r.packet_rate_threshold == 1000,
            r.flow_timeout == 300,
            r.max_flows == 10000,
            r.max_events == 1000,
            r.local_networks@ == seq![
                Cidr { base: 0x7F000000u32, prefix_len: 8u8 },
                Cidr { base: 0x0A000000u32, prefix_len: 8u8 },
                Cidr { base: 0xAC100000u32, prefix_len: 12u8 },
                Cidr { base: 0xC0A80000u32, prefix_len: 16u8 },
            ],
    {
        let mut nets: Vec<Cidr> = Vec::new();
        nets.push(Cidr::new(0x7F000000, 8));
        nets.push(Cidr::new(0x0A000000, 8));
        nets.push(Cidr::new(0xAC100000, 12));
        nets.push(Cidr::new(0xC0A80000, 16));
        proof {
            assert(nets@ =~= seq![
                Cidr { base: 0x7F000000u32, prefix_len: 8u8 },
                Cidr { base: 0x0A000000u32, prefix_len: 8u8 },
                Cidr { base: 0xAC100000u32, prefix_len: 12u8 },
                Cidr { base: 0xC0A80000u32, prefix_len: 16u8 },
            ]);
        }
        TrafficInspector {
            active_flows: Vec::new(),
            flow_history: Vec::new(),
            traffic_events: Vec::new(),
            bandwidth_threshold: 1000000,
            packet_rate_threshold: 1000,
            flow_timeout: 300,
            max_flows: 10000,
            max_events: 1000,
            local_networks: nets,
        }
    }

    /// An inspector with the given thresholds, timeout and history cap,
    /// and the default local networks.
    pub fn with_config(
        bandwidth_threshold: u64,
        packet_rate_threshold: u64,
        flow_timeout_secs: u64,
        max_flows: usize,
    ) -> (r: TrafficInspector)
        requires
            max_flows >= 1,
        ensures
            r.wf(),
            r.active_flows@.len() == 0,
            r.flow_history@.len() == 0,
            r.traffic_events@.len() == 0,
            r.bandwidth_threshold == bandwidth_threshold,
            r.packet_rate_threshold == packet_rate_threshold,
            r.flow_timeout == flow_timeout_secs,
            r.max_flows == max_flows,
            r.max_events == 1000,
    {
        let mut r = Self::new();
        r.bandwidth_threshold = bandwidth_threshold;
        r.packet_rate_threshold = packet_rate_threshold;
        r.flow_timeout = flow_timeout_secs;
        r.max_flows = max_flows;
        r
    }

    /// Add a local network to the direction set.
    pub fn add_local_network(&mut self, net: Cidr)
        requires
            old(self).wf(),
            net.wf(),
        ensures
            final(self).wf(),
            final(self).local_networks@ == old(self).local_networks@.push(net),
            *final(self) == (TrafficInspector {
                local_networks: final(self).local_networks,
                ..*old(self)
            }),
    {
        self.local_networks.push(net);
    }

    /// Whether an address lies in any configured local network.
    pub fn is_local_address(&self, ip: &IpAddress) -> (r: bool)
        requires
            forall|i: int|
                0 <= i < self.local_networks@.len() ==> (#[trigger] self.local_networks@[i]).wf(),
        ensures
            r == spec_in_local_networks(self.local_networks@, *ip),
    {
        let n = self.local_networks.len();
        let mut i: usize = 0;
        while i < n
            invariant
                0 <= i <= n == self.local_networks@.len(),
                forall|j: int|
                    0 <= j < self.local_networks@.len() ==> (
                    #[trigger] self.local_networks@[j]).wf(),
                forall|j: int| 0 <= j < i ==> !(#[trigger] self.local_networks@[j]).spec_contains(*ip),
            decreases n - i,
        {
            let net = self.local_networks[i];
            if net.contains(ip) {
                return true;
            }
            i = i + 1;
        }
        false
    }

    /// The direction between two addresses under the configured local
    /// networks.
    pub fn determine_flow_direction(&self, src: &IpAddress, dst: &IpAddress) -> (r: FlowDirection)
        requires
            forall|i: int|
                0 <= i < self.local_networks@.len() ==> (#[trigger] self.local_networks@[i]).wf(),
        ensures
            r == spec_flow_direction(self.local_networks@, *src, *dst),
    {
        let src_local = self.is_local_address(src);
        let dst_local = self.is_local_address(dst);
        if src_local && dst_local {
            FlowDirection::Internal
        } else if src_local && !dst_local {
            FlowDirection::Outbound
        } else if !src_local && dst_local {
            FlowDirection::Inbound
        } else {
            FlowDirection::Unknown
        }
    }
}

/// A fresh flow record for a first-seen pair.
pub open spec fn spec_fresh_flow(
    k: PairKey,
    src: Endpoint,
    dst: Endpoint,
    protocol: ProtocolType,
    direction: FlowDirection,
    now: u64,
) -> TrafficFlow {
    TrafficFlow {
        flow_id: k,
        src_addr: src,
        dst_addr: dst,
        protocol,
        direction,
        start_time: now,
        last_seen: now,
        packet_count: 0,
        byte_count: 0,
        packets_per_second: 0,
        bytes_per_second: 0,
        is_active: true,
    }
}

/// A flow brought up to date by one packet: counts raised, last-seen
/// stamped, protocol replaced, and rates recomputed as totals over the
/// elapsed seconds where at least one has passed.
pub open spec fn spec_updated_flow(base: TrafficFlow, length: usize, protocol: ProtocolType, now: u64) -> TrafficFlow {
    let counted = TrafficFlow {
        packet_count: sat_add_u64(base.packet_count, 1),
        byte_count: sat_add_u64(base.byte_count, length as u64),
        last_seen: now,
        protocol,
        ..base
    };
    let elapsed = spec_flow_elapsed(counted);
    if elapsed >= 1 {
        TrafficFlow {
            packets_per_second: (counted.packet_count as int / elapsed) as u64,
            bytes_per_second: (counted.byte_count as int / elapsed) as u64,
            ..counted
        }
    } else {
        counted
    }
}

impl TrafficInspector {
    /// Append one event to the bounded log, evicting the oldest entry on
    /// overflow.
    fn add_event(&mut self, event: TrafficEvent)
        requires
            old(self).traffic_events@.len() <= old(self).max_events,
            old(self).max_events >= 1,
        ensures
            final(self).traffic_events@ == spec_ring_append(
                old(self).traffic_events@,
                seq![event],
                old(self).max_events as int,
            ),
            final(self).traffic_events@.len() <= old(self).max_events,
            *final(self) == (TrafficInspector {
                traffic_events: final(self).traffic_events,
                ..*old(self)
            }),
    {
        let ghost e0 = self.traffic_events@;
        let ghost ev = event;
        self.traffic_events.push(event);
        if self.traffic_events.len() > self.max_events {
            self.traffic_events.remove(0);
        }
        proof {
            let items = seq![ev];
            assert(items.drop_last() =~= Seq::<TrafficEvent>::empty());
            assert(items.last() == ev);
            assert(spec_ring_append(e0, items.drop_last(), self.max_events as int) == e0);
            if e0.push(ev).len() > self.max_events {
                assert(self.traffic_events@ =~= e0.push(ev).drop_first());
            } else {
                assert(self.traffic_events@ =~= e0.push(ev));
            }
        }
    }

    /// Observe one packet for a flow. With all four tuple fields present,
    /// the pair's flow is created on first sight with a flow-started
    /// event, its counts, protocol and last-seen time are brought up to
    /// date, its rates are recomputed as totals over elapsed seconds, and
    /// a high-bandwidth event fires where the byte rate exceeds the
    /// threshold. A packet with an incomplete tuple changes nothing.
    #[verifier::loop_isolation(false)]
    pub fn inspect_packet(&mut self, packet: &PacketMeta, protocol: ProtocolType, now: u64)
        requires
            old(self).wf(),
        ensures
            final(self).wf(),
            final(self).flow_history == old(self).flow_history,
            final(self).bandwidth_threshold == old(self).bandwidth_threshold,
            final(self).packet_rate_threshold == old(self).packet_rate_threshold,
            final(self).flow_timeout == old(self).flow_timeout,
            final(self).max_flows == old(self).max_flows,
            final(self).max_events == old(self).max_events,
            final(self).local_networks == old(self).local_networks,
            !(packet.src_ip is Some && packet.dst_ip is Some && packet.src_port is Some
                && packet.dst_port is Some) ==> *final(self) == *old(self),
            (packet.src_ip is Some && packet.dst_ip is Some && packet.src_port is Some
                && packet.dst_port is Some) ==> ({
                let src = Endpoint { ip: packet.src_ip.unwrap(), port: packet.src_port.unwrap() };
                let dst = Endpoint { ip: packet.dst_ip.unwrap(), port: packet.dst_port.unwrap() };
                let k = spec_pair_key(src, dst);
                let existed = old(self).flow_map().contains_key(k);
                let base = if existed {
                    old(self).flow_map()[k]
                } else {
                    spec_fresh_flow(
                        k,
                        src,
                        dst,
                        protocol,
                        spec_flow_direction(old(self).local_networks@, src.ip, dst.ip),
                        now,
                    )
                };
                let updated = spec_updated_flow(base, packet.length, protocol, now);
                &&& final(self).flow_map() == old(self).flow_map().insert(k, updated)
                &&& final(self).active_flows@.len() == old(self).active_flows@.len() + (
                if existed {
                    0int
                } else {
                    1int
                })
                &&& exists|emitted: Seq<TrafficEvent>|
                    {
                        &&& final(self).traffic_events@ == #[trigger] spec_ring_append(
                            old(self).traffic_events@,
                            emitted,
                            old(self).max_events as int,
                        )
                        &&& emitted.len() == (if existed {
                            0int
                        } else {
                            1int
                        }) + (if updated.bytes_per_second > old(self).bandwidth_threshold {
                            1int
                        } else {
                            0int
                        })
                        &&& (!existed ==> spec_event_matches(
                            emitted[0],
                            now,
                            TrafficEventType::FlowStarted,
                            k,
                            spec_flow_started_descr(protocol, src, dst),
                            EventSeverity::Info,
                        ))
                        &&& (updated.bytes_per_second > old(self).bandwidth_threshold
                            ==> spec_event_matches(
                            emitted[emitted.len() - 1],
                            now,
                            TrafficEventType::HighBandwidth,
                            k,
                            spec_high_bandwidth_descr(updated.bytes_per_second),
                            EventSeverity::Warning,
                        ))
                    }
            }),
    {
        if !(packet.src_ip.is_some() && packet.dst_ip.is_some() && packet.src_port.is_some()
            && packet.dst_port.is_some()) {
            return ;
        }
        let src = Endpoint { ip: packet.src_ip.unwrap(), port: packet.src_port.unwrap() };
        let dst = Endpoint { ip: packet.dst_ip.unwrap(), port: packet.dst_port.unwrap() };
        let k = pair_key(&src, &dst);
        let ghost e0 = self.traffic_events@;
        let ghost cap = self.max_events as int;
        let ghost mut emitted: Seq<TrafficEvent> = Seq::empty();
        let n = self.active_flows.len();
        let ghost s0 = self.active_flows@;
        let mut found = false;
        let mut found_at: usize = 0;
        let mut i: usize = 0;
        while i < n
            invariant
                0 <= i <= n == s0.len(),
                s0 == self.active_flows@,
                !found ==> forall|j: int| 0 <= j < i ==> (#[trigger] s0[j]).flow_id != k,
                found ==> found_at < i && s0[found_at as int].flow_id == k,
            decreases n - i,
        {
            if !found {
                if self.active_flows[i].flow_id == k {
                    found = true;
                    found_at = i;
                }
            }
            i = i + 1;
        }
        if !found {
            let direction = self.determine_flow_direction(&src.ip, &dst.ip);
            let fresh = TrafficFlow {
                flow_id: k,
                src_addr: src,
                dst_addr: dst,
                protocol,
                direction,
                start_time: now,
                last_seen: now,
                packet_count: 0,
                byte_count: 0,
                packets_per_second: 0,
                bytes_per_second: 0,
                is_active: true,
            };
            self.active_flows.push(fresh);
            proof {
                assert(self.active_flows@.drop_last() =~= s0);
                lemma_flow_map_absent(s0, k);
            }
            found_at = n;
            let descr = "New ".to_owned().concat(protocol.display_name().as_str()).concat(
                " flow: ",
            ).concat(crate::net::endpoint_string(&src).as_str()).concat(" -> ").concat(
                crate::net::endpoint_string(&dst).as_str(),
            );
            let ev = TrafficEvent {
                timestamp: now,
                event_type: TrafficEventType::FlowStarted,
                flow_id: k,
                description: descr,
                severity: EventSeverity::Info,
            };
            let ghost ge = ev;
            let ghost rprev = self.traffic_events@;
            self.add_event(ev);
            proof {
                assert(ge.description@ == spec_flow_started_descr(protocol, src, dst));
                let em2 = emitted + seq![ge];
                assert(em2.drop_last() =~= emitted);
                assert(em2.last() == ge);
                assert(spec_ring_append(e0, emitted, cap) == rprev);
                assert(spec_ring_append(rprev, seq![ge], cap) == self.traffic_events@);
                assert(seq![ge].drop_last() =~= Seq::<TrafficEvent>::empty());
                assert(spec_ring_append(e0, em2, cap) == self.traffic_events@);
                emitted = em2;
            }
        } else {
            proof {
                lemma_flow_map_at(s0, found_at as int);
            }
        }
        let ghost s1 = self.active_flows@;
        let ghost base = s1[found_at as int];
        let entry = self.active_flows[found_at];
        let counted = TrafficFlow {
            packet_count: entry.packet_count.saturating_add(1),
            byte_count: entry.byte_count.saturating_add(packet.length as u64),
            last_seen: now,
            protocol,
            ..entry
        };
        let updated = if now >= counted.start_time && now - counted.start_time >= 1 {
            let elapsed = now - counted.start_time;
            TrafficFlow {
                packets_per_second: counted.packet_count / elapsed,
                bytes_per_second: counted.byte_count / elapsed,
                ..counted
            }
        } else {
            counted
        };
        self.active_flows.set(found_at, updated);
        proof {
            assert(updated == spec_updated_flow(base, packet.length, protocol, now));
            lemma_flow_map_update(s1, found_at as int, updated);
            assert(spec_rates_sound(updated)) by {
                let ecount = spec_flow_elapsed(counted);
                if ecount >= 1 {
                    assert(updated.bytes_per_second == counted.byte_count as int / ecount);
                    assert(updated.packets_per_second == counted.packet_count as int / ecount);
                } else {
                    assert(updated == counted);
                    assert(spec_flow_elapsed(counted) == 0);
                    if found {
                        assert(spec_rates_sound(base));
                        lemma_rates_sound_growth(base, counted);
                    }
                }
            }
        }
        if updated.bytes_per_second > self.bandwidth_threshold {
            let descr = "High bandwidth detected: ".to_owned().concat(
                crate::text::decimal_string(updated.bytes_per_second).as_str(),
            ).concat(" B/s");
            let ev = TrafficEvent {
                timestamp: now,
                event_type: TrafficEventType::HighBandwidth,
                flow_id: k,
                description: descr,
                severity: EventSeverity::Warning,
            };
            let ghost ge = ev;
            let ghost rprev = self.traffic_events@;
            self.add_event(ev);
            proof {
                assert(ge.description@ == spec_high_bandwidth_descr(updated.bytes_per_second));
                let em2 = emitted + seq![ge];
                assert(em2.drop_last() =~= emitted);
                assert(em2.last() == ge);
                assert(spec_ring_append(e0, emitted, cap) == rprev);
                assert(spec_ring_append(rprev, seq![ge], cap) == self.traffic_events@);
                assert(seq![ge].drop_last() =~= Seq::<TrafficEvent>::empty());
                assert(spec_ring_append(e0, em2, cap) == self.traffic_events@);
                emitted = em2;
            }
        }
        proof {
            assert(self.traffic_events@ == spec_ring_append(e0, emitted, cap));
        }
    }
}

/// A flow whose counts only grew and whose elapsed time fell to zero
/// still has sound rates: the bound against one second is the totals
/// themselves, and the old rates were at most the old totals.
proof fn lemma_rates_sound_growth(base: TrafficFlow, counted: TrafficFlow)
    requires
        spec_rates_sound(base),
        counted.byte_count >= base.byte_count,
        counted.packet_count >= base.packet_count,
        counted.bytes_per_second == base.bytes_per_second,
        counted.packets_per_second == base.packets_per_second,
        spec_flow_elapsed(counted) == 0,
    ensures
        spec_rates_sound(counted),
{
    let eb = if spec_flow_elapsed(base) >= 1 {
        spec_flow_elapsed(base)
    } else {
        1
    };
    assert(base.bytes_per_second <= base.byte_count as int / eb);
    assert(base.byte_count as int / eb <= base.byte_count) by (nonlinear_arith)
        requires
            eb >= 1,
            base.byte_count >= 0,
    ;
    assert(base.packet_count as int / eb <= base.packet_count) by (nonlinear_arith)
        requires
            eb >= 1,
            base.packet_count >= 0,
    ;
}

/// Whether a flow has sat idle past the timeout.
pub open spec fn spec_flow_expired(f: TrafficFlow, now: u64, timeout: u64) -> bool {
    now >= f.last_seen && now - f.last_seen > timeout
}

/// The seconds a flow has lived by now, zero when the clock stands before
/// its start.
pub open spec fn spec_flow_duration(f: TrafficFlow, now: u64) -> int {
    if now >= f.start_time {
        now - f.start_time
    } else {
        0
    }
}

/// The expired flows of a sequence, in order, marked inactive.
pub open spec fn spec_expired_flows(s: Seq<TrafficFlow>, now: u64, timeout: u64) -> Seq<
    TrafficFlow,
>
    decreases s.len(),
{
    if s.len() == 0 {
        Seq::empty()
    } else {
        let rest = spec_expired_flows(s.drop_last(), now, timeout);
        if spec_flow_expired(s.last(), now, timeout) {
            rest.push(TrafficFlow { is_active: false, ..s.last() })
        } else {
            rest
        }
    }
}

impl TrafficInspector {
    /// Retire every flow idle past the timeout: it is marked inactive and
    /// moved to the bounded history, a flow-ended event is recorded for
    /// it, and the remaining active set holds exactly the flows that were
    /// not idle, unchanged.
    #[verifier::loop_isolation(false)]
    pub fn cleanup_expired_flows(&mut self, now: u64)
        requires
            old(self).wf(),
        ensures
            final(self).wf(),
            final(self).bandwidth_threshold == old(self).bandwidth_threshold,
            final(self).packet_rate_threshold == old(self).packet_rate_threshold,
            final(self).flow_timeout == old(self).flow_timeout,
            final(self).max_flows == old(self).max_flows,
            final(self).max_events == old(self).max_events,
            final(self).local_networks == old(self).local_networks,
            forall|k: PairKey|
                #[trigger] final(self).flow_map().contains_key(k) <==> (old(
                    self,
                ).flow_map().contains_key(k) && !spec_flow_expired(
                    old(self).flow_map()[k],
                    now,
                    old(self).flow_timeout,
                )),
            forall|k: PairKey|
                #[trigger] final(self).flow_map().contains_key(k) ==> final(self).flow_map()[k]
                    == old(self).flow_map()[k],
            final(self).flow_history@ == spec_ring_append(
                old(self).flow_history@,
                spec_expired_flows(old(self).active_flows@, now, old(self).flow_timeout),
                old(self).max_flows as int,
            ),
            exists|ended: Seq<TrafficEvent>|
                {
                    let expired = spec_expired_flows(
                        old(self).active_flows@,
                        now,
                        old(self).flow_timeout,
                    );
                    &&& final(self).traffic_events@ == #[trigger] spec_ring_append(
                        old(self).traffic_events@,
                        ended,
                        old(self).max_events as int,
                    )
                    &&& ended.len() == expired.len()
                    &&& forall|i: int|
                        0 <= i < ended.len() ==> spec_event_matches(
                            #[trigger] ended[i],
                            now,
                            TrafficEventType::FlowEnded,
                            expired[i].flow_id,
                            spec_flow_ended_descr(spec_flow_duration(expired[i], now)),
                            EventSeverity::Info,
                        )
                },
    {
        let timeout = self.flow_timeout;
        let ghost s0 = self.active_flows@;
        let ghost m0 = spec_flow_map_of(s0);
        let ghost h0 = self.flow_history@;
        let ghost e0 = self.traffic_events@;
        let ghost capf = self.max_flows as int;
        let ghost cape = self.max_events as int;
        let ghost mut emitted: Seq<TrafficEvent> = Seq::empty();
        let n = self.active_flows.len();
        let mut kept: Vec<TrafficFlow> = Vec::new();
        proof {
            assert(s0.take(0) =~= Seq::<TrafficFlow>::empty());
        }
        let mut i: usize = 0;
        while i < n
            invariant
                0 <= i <= n == s0.len(),
                s0 == self.active_flows@,
                forall|a: int, b: int|
                    0 <= a < b < kept@.len() ==> (#[trigger] kept@[a]).flow_id != (
                    #[trigger] kept@[b]).flow_id,
                forall|a: int|
                    0 <= a < kept@.len() ==> exists|j: int|
                        0 <= j < i && #[trigger] kept@[a] == s0[j],
                forall|k: PairKey|
                    #[trigger] spec_flow_map_of(kept@).contains_key(k) <==> (spec_flow_map_of(
                        s0.take(i as int),
                    ).contains_key(k) && !spec_flow_expired(
                        spec_flow_map_of(s0.take(i as int))[k],
                        now,
                        timeout,
                    )),
                forall|k: PairKey|
                    #[trigger] spec_flow_map_of(kept@).contains_key(k) ==> spec_flow_map_of(kept@)[k]
                        == spec_flow_map_of(s0.take(i as int))[k],
                self.flow_history@ == spec_ring_append(
                    h0,
                    spec_expired_flows(s0.take(i as int), now, timeout),
                    capf,
                ),
                self.flow_history@.len() <= self.max_flows,
                self.traffic_events@ == spec_ring_append(e0, emitted, cape),
                self.traffic_events@.len() <= self.max_events,
                emitted.len() == spec_expired_flows(s0.take(i as int), now, timeout).len(),
                forall|x: int|
                    0 <= x < emitted.len() ==> spec_event_matches(
                        #[trigger] emitted[x],
                        now,
                        TrafficEventType::FlowEnded,
                        spec_expired_flows(s0.take(i as int), now, timeout)[x].flow_id,
                        spec_flow_ended_descr(
                            spec_flow_duration(
                                spec_expired_flows(s0.take(i as int), now, timeout)[x],
                                now,
                            ),
                        ),
                        EventSeverity::Info,
                    ),
                self.bandwidth_threshold == old(self).bandwidth_threshold,
                self.packet_rate_threshold == old(self).packet_rate_threshold,
                self.flow_timeout == old(self).flow_timeout,
                self.max_flows == old(self).max_flows,
                self.max_events == old(self).max_events,
                self.local_networks == old(self).local_networks,
            decreases n - i,
        {
            let c = self.active_flows[i];
            let ghost expired_before = spec_expired_flows(s0.take(i as int), now, timeout);
            proof {
                assert(s0.take(i + 1).drop_last() =~= s0.take(i as int));
                assert(s0.take(i + 1).last() == s0[i as int]);
                assert forall|j: int| 0 <= j < i implies (#[trigger] s0[j]).flow_id != s0[
                    i as int
                ].flow_id by {}
                lemma_flow_map_absent_prefix(s0, i as int);
                assert(spec_flow_map_of(s0.take(i + 1)) == spec_flow_map_of(
                    s0.take(i as int),
                ).insert(s0[i as int].flow_id, s0[i as int]));
            }
            let is_expired = now >= c.last_seen && now - c.last_seen > timeout;
            if is_expired {
                let retired = TrafficFlow { is_active: false, ..c };
                let ghost hprev = self.flow_history@;
                self.flow_history.push(retired);
                if self.flow_history.len() > self.max_flows {
                    self.flow_history.remove(0);
                }
                proof {
                    let ex2 = spec_expired_flows(s0.take(i + 1), now, timeout);
                    assert(ex2 =~= expired_before.push(retired));
                    assert(ex2.drop_last() =~= expired_before);
                    if hprev.push(retired).len() > capf {
                        assert(self.flow_history@ =~= hprev.push(retired).drop_first());
                    } else {
                        assert(self.flow_history@ =~= hprev.push(retired));
                    }
                    assert(self.flow_history@ == spec_ring_append(h0, ex2, capf));
                }
                let duration = if now >= c.start_time {
                    now - c.start_time
                } else {
                    0
                };
                let descr = "Flow ended after ".to_owned().concat(
                    crate::text::decimal_string(duration).as_str(),
                ).concat("s");
                let ev = TrafficEvent {
                    timestamp: now,
                    event_type: TrafficEventType::FlowEnded,
                    flow_id: c.flow_id,
                    description: descr,
                    severity: EventSeverity::Info,
                };
                let ghost ge = ev;
                let ghost rprev = self.traffic_events@;
                self.add_event(ev);
                proof {
                    assert(ge.description@ == spec_flow_ended_descr(spec_flow_duration(c, now)));
                    let em2 = emitted + seq![ge];
                    assert(em2.drop_last() =~= emitted);
                    assert(em2.last() == ge);
                    assert(seq![ge].drop_last() =~= Seq::<TrafficEvent>::empty());
                    assert(spec_ring_append(e0, emitted, cape) == rprev);
                    assert(spec_ring_append(rprev, seq![ge], cape) == self.traffic_events@);
                    let grown = spec_ring_append(e0, em2.drop_last(), cape).push(em2.last());
                    assert(grown == rprev.push(ge));
                    assert(spec_ring_append(e0, em2, cape) == if grown.len() > cape {
                        grown.drop_first()
                    } else {
                        grown
                    });
                    assert(spec_ring_append(rprev, seq![ge].drop_last(), cape) == rprev);
                    assert(spec_ring_append(rprev, seq![ge], cape) == if rprev.push(ge).len()
                        > cape {
                        rprev.push(ge).drop_first()
                    } else {
                        rprev.push(ge)
                    });
                    assert(spec_ring_append(e0, em2, cape) == self.traffic_events@);
                    emitted = em2;
                    let ex2 = spec_expired_flows(s0.take(i + 1), now, timeout);
                    assert(ex2 =~= expired_before.push(TrafficFlow { is_active: false, ..c }));
                    assert forall|x: int|
                        0 <= x < emitted.len() implies spec_event_matches(
                        #[trigger] emitted[x],
                        now,
                        TrafficEventType::FlowEnded,
                        ex2[x].flow_id,
                        spec_flow_ended_descr(spec_flow_duration(ex2[x], now)),
                        EventSeverity::Info,
                    ) by {
                        if x < emitted.len() - 1 {
                            assert(emitted[x] == em2.drop_last()[x]);
                            assert(ex2[x] == expired_before[x]);
                        } else {
                            assert(emitted[x] == ge);
                            assert(ex2[x] == TrafficFlow { is_active: false, ..c });
                        }
                    }
                }
            } else {
                let ghost kept_before = kept@;
                kept.push(c);
                proof {
                    assert(kept@.drop_last() =~= kept_before);
                    assert(spec_flow_map_of(kept@) == spec_flow_map_of(kept_before).insert(
                        c.flow_id,
                        c,
                    ));
                    assert(spec_expired_flows(s0.take(i + 1), now, timeout) =~= expired_before);
                    assert forall|a: int|
                        0 <= a < kept@.len() implies exists|j: int|
                            0 <= j < i + 1 && #[trigger] kept@[a] == s0[j] by {
                        if a < kept@.len() - 1 {
                            assert(kept@[a] == kept_before[a]);
                            let j = choose|j: int| 0 <= j < i && #[trigger] kept_before[a] == s0[j];
                            assert(kept@[a] == s0[j]);
                        } else {
                            assert(kept@[a] == s0[i as int]);
                        }
                    }
                    assert forall|a: int, b: int|
                        0 <= a < b < kept@.len() implies (#[trigger] kept@[a]).flow_id != (
                    #[trigger] kept@[b]).flow_id by {
                        if b == kept@.len() - 1 {
                            let j = choose|j: int| 0 <= j < i && #[trigger] kept_before[a] == s0[j];
                            assert(kept@[a] == s0[j]);
                            assert(s0[j].flow_id != s0[i as int].flow_id);
                        } else {
                            assert(kept@[a] == kept_before[a]);
                            assert(kept@[b] == kept_before[b]);
                        }
                    }
                    assert forall|k: PairKey|
                        #[trigger] spec_flow_map_of(kept@).contains_key(k) <==> (spec_flow_map_of(
                            s0.take(i + 1),
                        ).contains_key(k) && !spec_flow_expired(
                            spec_flow_map_of(s0.take(i + 1))[k],
                            now,
                            timeout,
                        )) by {
                        if k != c.flow_id {
                            assert(spec_flow_map_of(kept@).contains_key(k)
                                == spec_flow_map_of(kept_before).contains_key(k));
                        }
                    }
                }
            }
            i = i + 1;
        }
        proof {
            assert(s0.take(n as int) =~= s0);
        }
        self.active_flows = kept;
        proof {
            let m1 = spec_flow_map_of(self.active_flows@);
            assert forall|k: PairKey|
                #[trigger] m1.contains_key(k) implies m0.contains_key(k) && m1[k] == m0[k]
                    && !spec_flow_expired(m0[k], now, timeout) by {
                assert(spec_flow_map_of(kept@).contains_key(k) <==> (spec_flow_map_of(
                    s0.take(n as int),
                ).contains_key(k) && !spec_flow_expired(
                    spec_flow_map_of(s0.take(n as int))[k],
                    now,
                    timeout,
                )));
            }
            assert forall|k: PairKey|
                #[trigger] m0.contains_key(k) && !spec_flow_expired(m0[k], now, timeout)
                    implies m1.contains_key(k) by {
                assert(spec_flow_map_of(kept@).contains_key(k) <==> (spec_flow_map_of(
                    s0.take(n as int),
                ).contains_key(k) && !spec_flow_expired(
                    spec_flow_map_of(s0.take(n as int))[k],
                    now,
                    timeout,
                )));
            }
            assert forall|a: int|
                0 <= a < self.active_flows@.len() implies (#[trigger] self.active_flows@[a]).flow_id
                == spec_pair_key(
                self.active_flows@[a].src_addr,
                self.active_flows@[a].dst_addr,
            ) && spec_rates_sound(self.active_flows@[a]) by {
                let j = choose|j: int| 0 <= j < n && #[trigger] kept@[a] == s0[j];
                assert(self.active_flows@[a] == s0[j]);
            }
        }
    }
}

/// In a flow sequence with pairwise-distinct keys, the key of an indexed
/// flow is absent from the map of any earlier prefix.
proof fn lemma_flow_map_absent_prefix(s: Seq<TrafficFlow>, i: int)
    requires
        0 <= i < s.len(),
        forall|a: int, b: int|
            0 <= a < b < s.len() ==> (#[trigger] s[a]).flow_id != (#[trigger] s[b]).flow_id,
    ensures
        !spec_flow_map_of(s.take(i)).contains_key(s[i].flow_id),
{
    assert forall|j: int| 0 <= j < s.take(i).len() implies (#[trigger] s.take(i)[j]).flow_id != s[
        i
    ].flow_id by {
        assert(s.take(i)[j] == s[j]);
    }
    lemma_flow_map_absent(s.take(i), s[i].flow_id);
}

/// The flows of one direction, in held order.
pub open spec fn spec_flows_by_direction(s: Seq<TrafficFlow>, d: FlowDirection) -> Seq<TrafficFlow>
    decreases s.len(),
{
    if s.len() == 0 {
        Seq::empty()
    } else if s.last().direction == d {
        spec_flows_by_direction(s.drop_last(), d).push(s.last())
    } else {
        spec_flows_by_direction(s.drop_last(), d)
    }
}

/// The events of one severity, in held order.
pub open spec fn spec_events_by_severity(s: Seq<TrafficEvent>, sev: EventSeverity) -> Seq<
    TrafficEvent,
>
    decreases s.len(),
{
    if s.len() == 0 {
        Seq::empty()
    } else if s.last().severity == sev {
        spec_events_by_severity(s.drop_last(), sev).push(s.last())
    } else {
        spec_events_by_severity(s.drop_last(), sev)
    }
}

/// The saturating sums of byte and packet rates over a flow sequence.
pub open spec fn spec_rate_totals(s: Seq<TrafficFlow>) -> (u64, u64)
    decreases s.len(),
{
    if s.len() == 0 {
        (0u64, 0u64)
    } else {
        let rest = spec_rate_totals(s.drop_last());
        (
            sat_add_u64(rest.0, s.last().bytes_per_second),
            sat_add_u64(rest.1, s.last().packets_per_second),
        )
    }
}

/// The number of flows of one direction.
pub open spec fn spec_direction_count(s: Seq<TrafficFlow>, d: FlowDirection) -> int
    decreases s.len(),
{
    if s.len() == 0 {
        0
    } else {
        spec_direction_count(s.drop_last(), d) + if s.last().direction == d {
            1int
        } else {
            0int
        }
    }
}

/// The aggregate view of the active flows.
#[derive(Clone, Copy, Debug)]
pub struct FlowStatistics {
    pub total_active_flows: usize,
    /// Saturating sum of the active flows' byte rates.
    pub total_bandwidth_bps: u64,
    /// Saturating sum of the active flows' packet rates.
    pub total_packet_rate_pps: u64,
    pub flows_inbound: usize,
    pub flows_outbound: usize,
    pub flows_internal: usize,
    pub recent_events_count: usize,
}

impl TrafficInspector {
    /// The active flows.
    pub fn get_active_flows(&self) -> (r: &Vec<TrafficFlow>)
        ensures
            r@ == self.active_flows@,
    {
        &self.active_flows
    }

    /// The retired flows, oldest first.
    pub fn get_flow_history(&self) -> (r: &Vec<TrafficFlow>)
        ensures
            r@ == self.flow_history@,
    {
        &self.flow_history
    }

    /// The active flows of one direction, in held order.
    pub fn get_flows_by_direction(&self, direction: FlowDirection) -> (r: Vec<TrafficFlow>)
        ensures
            r@ == spec_flows_by_direction(self.active_flows@, direction),
    {
        let n = self.active_flows.len();
        let mut out: Vec<TrafficFlow> = Vec::new();
        proof {
            assert(self.active_flows@.take(0) =~= Seq::<TrafficFlow>::empty());
        }
        let mut i: usize = 0;
        while i < n
            invariant
                0 <= i <= n == self.active_flows@.len(),
                out@ == spec_flows_by_direction(self.active_flows@.take(i as int), direction),
            decreases n - i,
        {
            proof {
                assert(self.active_flows@.take(i + 1).drop_last() =~= self.active_flows@.take(
                    i as int,
                ));
                assert(self.active_flows@.take(i + 1).last() == self.active_flows@[i as int]);
            }
            let f = self.active_flows[i];
            if f.direction == direction {
                out.push(f);
            }
            i = i + 1;
        }
        proof {
            assert(self.active_flows@.take(n as int) =~= self.active_flows@);
        }
        out
    }

    /// The most recent events, newest first, at most `limit` of them.
    pub fn get_recent_events(&self, limit: usize) -> (r: Vec<TrafficEvent>)
        ensures
            r@.len() == if limit < self.traffic_events@.len() {
                limit as int
            } else {
                self.traffic_events@.len() as int
            },
            forall|i: int|
                0 <= i < r@.len() ==> #[trigger] r@[i] == self.traffic_events@[
                    self.traffic_events@.len() - 1 - i],
    {
        let n = self.traffic_events.len();
        let mut out: Vec<TrafficEvent> = Vec::new();
        let mut i: usize = 0;
        while i < n && i < limit
            invariant
                0 <= i <= n == self.traffic_events@.len(),
                i <= limit,
                out@.len() == i,
                forall|j: int|
                    0 <= j < i ==> #[trigger] out@[j] == self.traffic_events@[n - 1 - j],
            decreases n - i,
        {
            out.push(clone_event(&self.traffic_events[n - 1 - i]));
            i = i + 1;
        }
        out
    }

    /// The events of one severity, in held order.
    pub fn get_events_by_severity(&self, severity: EventSeverity) -> (r: Vec<TrafficEvent>)
        ensures
            r@ == spec_events_by_severity(self.traffic_events@, severity),
    {
        let n = self.traffic_events.len();
        let mut out: Vec<TrafficEvent> = Vec::new();
        proof {
            assert(self.traffic_events@.take(0) =~= Seq::<TrafficEvent>::empty());
        }
        let mut i: usize = 0;
        while i < n
            invariant
                0 <= i <= n == self.traffic_events@.len(),
                out@ == spec_events_by_severity(self.traffic_events@.take(i as int), severity),
            decreases n - i,
        {
            proof {
                assert(self.traffic_events@.take(i + 1).drop_last() =~= self.traffic_events@.take(
                    i as int,
                ));
                assert(self.traffic_events@.take(i + 1).last() == self.traffic_events@[i as int]);
            }
            if self.traffic_events[i].severity == severity {
                out.push(clone_event(&self.traffic_events[i]));
            }
            i = i + 1;
        }
        proof {
            assert(self.traffic_events@.take(n as int) =~= self.traffic_events@);
        }
        out
    }

    /// The aggregate view: flow count, saturating rate totals, per
    /// direction counts, and the event count.
    pub fn get_flow_statistics(&self) -> (r: FlowStatistics)
        ensures
            r.total_active_flows == self.active_flows@.len(),
            (r.total_bandwidth_bps, r.total_packet_rate_pps) == spec_rate_totals(
                self.active_flows@,
            ),
            r.flows_inbound == spec_direction_count(self.active_flows@, FlowDirection::Inbound),
            r.flows_outbound == spec_direction_count(self.active_flows@, FlowDirection::Outbound),
            r.flows_internal == spec_direction_count(self.active_flows@, FlowDirection::Internal),
            r.recent_events_count == self.traffic_events@.len(),
    {
        let n = self.active_flows.len();
        let mut bw: u64 = 0;
        let mut pr: u64 = 0;
        let mut inbound: usize = 0;
        let mut outbound: usize = 0;
        let mut internal: usize = 0;
        proof {
            assert(self.active_flows@.take(0) =~= Seq::<TrafficFlow>::empty());
        }
        let mut i: usize = 0;
        while i < n
            invariant
                0 <= i <= n == self.active_flows@.len(),
                (bw, pr) == spec_rate_totals(self.active_flows@.take(i as int)),
                inbound == spec_direction_count(
                    self.active_flows@.take(i as int),
                    FlowDirection::Inbound,
                ),
                outbound == spec_direction_count(
                    self.active_flows@.take(i as int),
                    FlowDirection::Outbound,
                ),
                internal == spec_direction_count(
                    self.active_flows@.take(i as int),
                    FlowDirection::Internal,
                ),
                inbound <= i && outbound <= i && internal <= i,
            decreases n - i,
        {
            proof {
                assert(self.active_flows@.take(i + 1).drop_last() =~= self.active_flows@.take(
                    i as int,
                ));
                assert(self.active_flows@.take(i + 1).last() == self.active_flows@[i as int]);
            }
            let f = self.active_flows[i];
            bw = bw.saturating_add(f.bytes_per_second);
            pr = pr.saturating_add(f.packets_per_second);
            match f.direction {
                FlowDirection::Inbound => {
                    inbound = inbound + 1;
                },
                FlowDirection::Outbound => {
                    outbound = outbound + 1;
                },
                FlowDirection::Internal => {
                    internal = internal + 1;
                },
                FlowDirection::Unknown => {},
            }
            i = i + 1;
        }
        proof {
            assert(self.active_flows@.take(n as int) =~= self.active_flows@);
        }
        FlowStatistics {
            total_active_flows: n,
            total_bandwidth_bps: bw,
            total_packet_rate_pps: pr,
            flows_inbound: inbound,
            flows_outbound: outbound,
            flows_internal: internal,
            recent_events_count: self.traffic_events.len(),
        }
    }

    /// The flows with the highest byte rates: at most `limit` flows,
    /// ordered by falling byte rate, all drawn from the active set; when
    /// an active flow is left out, the list is full and the flow's byte
    /// rate is at most the last listed one.
    pub fn get_top_flows_by_bandwidth(&self, limit: usize) -> (r: Vec<TrafficFlow>)
        ensures
            r@.len() == if limit < self.active_flows@.len() {
                limit as int
            } else {
                self.active_flows@.len() as int
            },
            forall|a: int, b: int|
                0 <= a <= b < r@.len() ==> (#[trigger] r@[a]).bytes_per_second >= (
                #[trigger] r@[b]).bytes_per_second,
            forall|a: int| 0 <= a < r@.len() ==> self.active_flows@.contains(#[trigger] r@[a]),
            forall|j: int|
                0 <= j < self.active_flows@.len() && (forall|a: int|
                    0 <= a < r@.len() ==> r@[a] != self.active_flows@[j]) ==> r@.len() == limit
                    && (r@.len() > 0 ==> (#[trigger] self.active_flows@[j]).bytes_per_second
                    <= r@[r@.len() - 1].bytes_per_second),
    {
        broadcast use vstd::seq_lib::group_to_multiset_ensures;

        let n = self.active_flows.len();
        let mut sorted: Vec<TrafficFlow> = Vec::new();
        proof {
            assert(self.active_flows@.take(0) =~= Seq::<TrafficFlow>::empty());
        }
        let mut i: usize = 0;
        while i < n
            invariant
                0 <= i <= n == self.active_flows@.len(),
                sorted@.len() == i,
                forall|a: int, b: int|
                    0 <= a <= b < sorted@.len() ==> (#[trigger] sorted@[a]).bytes_per_second >= (
                    #[trigger] sorted@[b]).bytes_per_second,
                forall|a: int|
                    0 <= a < sorted@.len() ==> self.active_flows@.contains(#[trigger] sorted@[a]),
                sorted@.to_multiset() == self.active_flows@.take(i as int).to_multiset(),
            decreases n - i,
        {
            let x = self.active_flows[i];
            let mut pos: usize = 0;
            while pos < sorted.len() && sorted[pos].bytes_per_second >= x.bytes_per_second
                invariant
                    0 <= pos <= sorted@.len(),
                    forall|k: int|
                        0 <= k < pos ==> (#[trigger] sorted@[k]).bytes_per_second
                            >= x.bytes_per_second,
                decreases sorted@.len() - pos,
            {
                pos = pos + 1;
            }
            let ghost before = sorted@;
            sorted.insert(pos, x);
            proof {
                before.insert_ensures(pos as int, x);
                assert forall|a: int, b: int|
                    0 <= a <= b < sorted@.len() implies (#[trigger] sorted@[a]).bytes_per_second
                    >= (#[trigger] sorted@[b]).bytes_per_second by {
                    if a < pos {
                        assert(sorted@[a] == before[a]);
                    } else if a == pos {
                        assert(sorted@[a] == x);
                    } else {
                        assert(sorted@[a] == before[a - 1]);
                    }
                    if b < pos {
                        assert(sorted@[b] == before[b]);
                    } else if b == pos {
                        assert(sorted@[b] == x);
                    } else {
                        assert(sorted@[b] == before[b - 1]);
                    }
                    if b == pos && a < pos {
                        assert(before[a].bytes_per_second >= x.bytes_per_second);
                    }
                    if a == pos && b > pos {
                        assert(x.bytes_per_second > before[pos as int].bytes_per_second || pos
                            == before.len());
                    }
                }
                assert(self.active_flows@.contains(x)) by {
                    assert(self.active_flows@[i as int] == x);
                }
                assert forall|a: int| 0 <= a < sorted@.len() implies self.active_flows@.contains(
                    #[trigger] sorted@[a],
                ) by {
                    if a < pos {
                        assert(sorted@[a] == before[a]);
                    } else if a > pos {
                        assert(sorted@[a] == before[a - 1]);
                    }
                }
                crate::lemma_insert_to_multiset(before, pos as int, x);
                assert(self.active_flows@.take(i + 1).drop_last() =~= self.active_flows@.take(
                    i as int,
                ));
                assert(self.active_flows@.take(i + 1).last() == self.active_flows@[i as int]);
                self.active_flows@.take(i as int).to_multiset_ensures();
                assert(self.active_flows@.take(i + 1) =~= self.active_flows@.take(i as int).push(
                    self.active_flows@[i as int],
                ));
            }
            i = i + 1;
        }
        let keep: usize = if limit < sorted.len() {
            limit
        } else {
            sorted.len()
        };
        let ghost full = sorted@;
        sorted.truncate(keep);
        proof {
            assert(sorted@ == full.take(keep as int));
            assert(self.active_flows@.take(n as int) =~= self.active_flows@);
            assert(full.to_multiset() == self.active_flows@.to_multiset());
            assert forall|j: int|
                0 <= j < self.active_flows@.len() && (forall|a: int|
                    0 <= a < sorted@.len() ==> sorted@[a] != self.active_flows@[j])
                implies sorted@.len() == limit && (sorted@.len() > 0 ==> (
            #[trigger] self.active_flows@[j]).bytes_per_second <= sorted@[sorted@.len()
                - 1].bytes_per_second) by {
                assert(self.active_flows@.contains(self.active_flows@[j]));
                assert(self.active_flows@.to_multiset().count(self.active_flows@[j]) > 0);
                assert(full.to_multiset().count(self.active_flows@[j]) > 0);
                assert(full.contains(self.active_flows@[j]));
                let m = choose|m: int| 0 <= m < full.len() && full[m] == self.active_flows@[j];
                if m < keep {
                    assert(sorted@[m] == full[m]);
                } else {
                    assert(keep < full.len());
                    assert(keep == limit);
                    if keep > 0 {
                        assert(full[keep - 1].bytes_per_second >= full[m].bytes_per_second);
                        assert(sorted@[keep - 1] == full[keep - 1]);
                    }
                }
            }
        }
        sorted
    }

    /// The flows with the highest packet rates: at most `limit` flows,
    /// ordered by falling packet rate, all drawn from the active set; when
    /// an active flow is left out, the list is full and the flow's packet
    /// rate is at most the last listed one.
    pub fn get_top_flows_by_packets(&self, limit: usize) -> (r: Vec<TrafficFlow>)
        ensures
            r@.len() == if limit < self.active_flows@.len() {
                limit as int
            } else {
                self.active_flows@.len() as int
            },
            forall|a: int, b: int|
                0 <= a <= b < r@.len() ==> (#[trigger] r@[a]).packets_per_second >= (
                #[trigger] r@[b]).packets_per_second,
            forall|a: int| 0 <= a < r@.len() ==> self.active_flows@.contains(#[trigger] r@[a]),
            forall|j: int|
                0 <= j < self.active_flows@.len() && (forall|a: int|
                    0 <= a < r@.len() ==> r@[a] != self.active_flows@[j]) ==> r@.len() == limit
                    && (r@.len() > 0 ==> (#[trigger] self.active_flows@[j]).packets_per_second
                    <= r@[r@.len() - 1].packets_per_second),
    {
        broadcast use vstd::seq_lib::group_to_multiset_ensures;

        let n = self.active_flows.len();
        let mut sorted: Vec<TrafficFlow> = Vec::new();
        proof {
            assert(self.active_flows@.take(0) =~= Seq::<TrafficFlow>::empty());
        }
        let mut i: usize = 0;
        while i < n
            invariant
                0 <= i <= n == self.active_flows@.len(),
                sorted@.len() == i,
                forall|a: int, b: int|
                    0 <= a <= b < sorted@.len() ==> (#[trigger] sorted@[a]).packets_per_second
                        >= (#[trigger] sorted@[b]).packets_per_second,
                forall|a: int|
                    0 <= a < sorted@.len() ==> self.active_flows@.contains(#[trigger] sorted@[a]),
                sorted@.to_multiset() == self.active_flows@.take(i as int).to_multiset(),
            decreases n - i,
        {
            let x = self.active_flows[i];
            let mut pos: usize = 0;
            while pos < sorted.len() && sorted[pos].packets_per_second >= x.packets_per_second
                invariant
                    0 <= pos <= sorted@.len(),
                    forall|k: int|
                        0 <= k < pos ==> (#[trigger] sorted@[k]).packets_per_second
                            >= x.packets_per_second,
                decreases sorted@.len() - pos,
            {
                pos = pos + 1;
            }
            let ghost before = sorted@;
            sorted.insert(pos, x);
            proof {
                before.insert_ensures(pos as int, x);
                assert forall|a: int, b: int|
                    0 <= a <= b < sorted@.len() implies (#[trigger] sorted@[a]).packets_per_second
                    >= (#[trigger] sorted@[b]).packets_per_second by {
                    if a < pos {
                        assert(sorted@[a] == before[a]);
                    } else if a == pos {
                        assert(sorted@[a] == x);
                    } else {
                        assert(sorted@[a] == before[a - 1]);
                    }
                    if b < pos {
                        assert(sorted@[b] == before[b]);
                    } else if b == pos {
                        assert(sorted@[b] == x);
                    } else {
                        assert(sorted@[b] == before[b - 1]);
                    }
                    if b == pos && a < pos {
                        assert(before[a].packets_per_second >= x.packets_per_second);
                    }
                    if a == pos && b > pos {
                        assert(x.packets_per_second > before[pos as int].packets_per_second || pos
                            == before.len());
                    }
                }
                assert(self.active_flows@.contains(x)) by {
                    assert(self.active_flows@[i as int] == x);
                }
                assert forall|a: int| 0 <= a < sorted@.len() implies self.active_flows@.contains(
                    #[trigger] sorted@[a],
                ) by {
                    if a < pos {
                        assert(sorted@[a] == before[a]);
                    } else if a > pos {
                        assert(sorted@[a] == before[a - 1]);
                    }
                }
                crate::lemma_insert_to_multiset(before, pos as int, x);
                assert(self.active_flows@.take(i + 1).drop_last() =~= self.active_flows@.take(
                    i as int,
                ));
                assert(self.active_flows@.take(i + 1).last() == self.active_flows@[i as int]);
                self.active_flows@.take(i as int).to_multiset_ensures();
                assert(self.active_flows@.take(i + 1) =~= self.active_flows@.take(i as int).push(
                    self.active_flows@[i as int],
                ));
            }
            i = i + 1;
        }
        let keep: usize = if limit < sorted.len() {
            limit
        } else {
            sorted.len()
        };
        let ghost full = sorted@;
        sorted.truncate(keep);
        proof {
            assert(sorted@ == full.take(keep as int));
            assert(self.active_flows@.take(n as int) =~= self.active_flows@);
            assert(full.to_multiset() == self.active_flows@.to_multiset());
            assert forall|j: int|
                0 <= j < self.active_flows@.len() && (forall|a: int|
                    0 <= a < sorted@.len() ==> sorted@[a] != self.active_flows@[j])
                implies sorted@.len() == limit && (sorted@.len() > 0 ==> (
            #[trigger] self.active_flows@[j]).packets_per_second <= sorted@[sorted@.len()
                - 1].packets_per_second) by {
                assert(self.active_flows@.contains(self.active_flows@[j]));
                assert(self.active_flows@.to_multiset().count(self.active_flows@[j]) > 0);
                assert(full.to_multiset().count(self.active_flows@[j]) > 0);
                assert(full.contains(self.active_flows@[j]));
                let m = choose|m: int| 0 <= m < full.len() && full[m] == self.active_flows@[j];
                if m < keep {
                    assert(sorted@[m] == full[m]);
                } else {
                    assert(keep < full.len());
                    assert(keep == limit);
                    if keep > 0 {
                        assert(full[keep - 1].packets_per_second >= full[m].packets_per_second);
                        assert(sorted@[keep - 1] == full[keep - 1]);
                    }
                }
            }
        }
        sorted
    }
}

/// The saturating byte-rate and packet-rate sums over a flow set.
pub fn rate_totals(flows: &Vec<TrafficFlow>) -> (r: (u64, u64))
    ensures
        r == spec_rate_totals(flows@),
{
    let n = flows.len();
    let mut bw: u64 = 0;
    let mut pr: u64 = 0;
    proof {
        assert(flows@.take(0) =~= Seq::<TrafficFlow>::empty());
    }
    let mut i: usize = 0;
    while i < n
        invariant
            0 <= i <= n == flows@.len(),
            (bw, pr) == spec_rate_totals(flows@.take(i as int)),
        decreases n - i,
    {
        proof {
            assert(flows@.take(i + 1).drop_last() =~= flows@.take(i as int));
            assert(flows@.take(i + 1).last() == flows@[i as int]);
        }
        let f = flows[i];
        bw = bw.saturating_add(f.bytes_per_second);
        pr = pr.saturating_add(f.packets_per_second);
        i = i + 1;
    }
    proof {
        assert(flows@.take(n as int) =~= flows@);
    }
    (bw, pr)
}

} // verus!
