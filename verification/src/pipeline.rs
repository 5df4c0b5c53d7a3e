//! The pipeline driver: one tick takes the freshly pulled packets and the
//! kernel snapshots, fans them out to the classifier, the connection
//! tracker, the flow inspector and the firewall, refreshes the
//! statistics, runs the traffic analyzer, and publishes a snapshot.
//!
//! The tick's contract pins each component's end state: the tracker map is
//! the fold of per-packet tracking followed by the snapshot
//! reconciliation, the flow map is the fold of per-packet inspection
//! followed by expiry, the rule set is the fold of per-packet evaluation,
//! the statistics hold the fresh totals and purged history, and the
//! published snapshot copies that end state.

use vstd::prelude::*;
use crate::analyzer::{
    spec_direction_rates, spec_result_matches, BandwidthSample, TrafficAnalyzer,
    TrafficAnalysisResult,
};
use crate::connections::{
    spec_proc_fold, spec_proc_keys, ConnectionInfo, ConnectionState, ConnectionTracker,
};
use crate::engine::{
    sat_add_u64_int, spec_eval_rules, spec_packet_fields, FirewallEngine, FirewallEvent,
    FirewallStats,
};
use crate::rules::FirewallRule;
use crate::flows::{
    spec_flow_direction, spec_flow_expired, spec_fresh_flow, spec_updated_flow, TrafficEvent,
    TrafficFlow, TrafficInspector, clone_event,
};
use crate::net::{spec_pair_key, Cidr, Endpoint, PairKey};
use crate::packet::{PacketMeta, TransportTag};
use crate::procfs::{InterfaceStats, ProcConnection};
use crate::protocols::spec_classify;
use crate::stats::{
    sat_sub_u64, spec_counter_rate, spec_find_stats, spec_metrics_matches, spec_purged,
    spec_rate_baseline, InterfaceMetrics, NetworkStatistics, StatisticsCollector,
};
use crate::sat_add_u64;
use crate::spec_ring_append;

verus! {

/// Copy a packet record; a descriptive tag string is duplicated.
pub fn clone_packet(p: &PacketMeta) -> (r: PacketMeta)
    ensures
        r == *p,
{
    let tag = match &p.tag {
        TransportTag::Tcp => TransportTag::Tcp,
        TransportTag::Udp => TransportTag::Udp,
        TransportTag::Icmp => TransportTag::Icmp,
        TransportTag::Other(s) => TransportTag::Other(s.clone()),
    };
    PacketMeta {
        timestamp: p.timestamp,
        length: p.length,
        tag,
        src_ip: p.src_ip,
        dst_ip: p.dst_ip,
        src_port: p.src_port,
        dst_port: p.dst_port,
    }
}

/// Copy a firewall event; the rule name is duplicated.
pub fn clone_firewall_event(e: &FirewallEvent) -> (r: FirewallEvent)
    ensures
        r == *e,
{
    FirewallEvent {
        timestamp: e.timestamp,
        rule_id: e.rule_id,
        rule_name: e.rule_name.clone(),
        action: e.action,
        src_ip: e.src_ip,
        dst_ip: e.dst_ip,
        src_port: e.src_port,
        dst_port: e.dst_port,
        protocol: e.protocol,
        direction: e.direction,
        packet_size: e.packet_size,
    }
}

/// Copy an interface metrics record; the name is duplicated.
pub fn clone_metrics(m: &InterfaceMetrics) -> (r: InterfaceMetrics)
    ensures
        r == *m,
{
    InterfaceMetrics {
        interface_name: m.interface_name.clone(),
        rx_bytes: m.rx_bytes,
        tx_bytes: m.tx_bytes,
        rx_packets: m.rx_packets,
        tx_packets: m.tx_packets,
        rx_errors: m.rx_errors,
        tx_errors: m.tx_errors,
        rx_dropped: m.rx_dropped,
        tx_dropped: m.tx_dropped,
        rx_rate_bps: m.rx_rate_bps,
        tx_rate_bps: m.tx_rate_bps,
        last_update: m.last_update,
    }
}

/// The saturating byte total of a packet batch.
pub open spec fn spec_batch_bytes(s: Seq<PacketMeta>) -> u64
    decreases s.len(),
{
    if s.len() == 0 {
        0
    } else {
        sat_add_u64(spec_batch_bytes(s.drop_last()), s.last().length as u64)
    }
}

/// What one observed packet does to the tracker's connection map: with a
/// complete four-tuple, the pair's record is created or brought up to date
/// exactly as `track_packet` states; otherwise nothing.
pub open spec fn spec_track_step(
    m: Map<PairKey, ConnectionInfo>,
    p: PacketMeta,
    now: u64,
) -> Map<PairKey, ConnectionInfo> {
    if p.src_ip is Some && p.dst_ip is Some && p.src_port is Some && p.dst_port is Some {
        let src = Endpoint { ip: p.src_ip.unwrap(), port: p.src_port.unwrap() };
        let dst = Endpoint { ip: p.dst_ip.unwrap(), port: p.dst_port.unwrap() };
        let k = spec_pair_key(src, dst);
        let proto = spec_classify(p);
        let base = if m.contains_key(k) {
            m[k]
        } else {
            ConnectionInfo {
                local_addr: src,
                remote_addr: dst,
                protocol: proto,
                state: ConnectionState::Established,
                established_time: now,
                last_seen: now,
                bytes_sent: 0,
                bytes_received: 0,
                packets_sent: 0,
                packets_received: 0,
                process_id: None,
            }
        };
        m.insert(
            k,
            ConnectionInfo {
                packets_sent: sat_add_u64(base.packets_sent, 1),
                bytes_sent: sat_add_u64(base.bytes_sent, p.length as u64),
                last_seen: now,
                protocol: proto,
                ..base
            },
        )
    } else {
        m
    }
}

/// The tracker's connection map after a whole batch, in order.
pub open spec fn spec_track_fold(
    m: Map<PairKey, ConnectionInfo>,
    packets: Seq<PacketMeta>,
    now: u64,
) -> Map<PairKey, ConnectionInfo>
    decreases packets.len(),
{
    if packets.len() == 0 {
        m
    } else {
        spec_track_step(spec_track_fold(m, packets.drop_last(), now), packets.last(), now)
    }
}

/// What one observed packet does to the inspector's flow map: with a
/// complete four-tuple, the pair's flow is created or brought up to date
/// exactly as `inspect_packet` states, classified by the packet itself;
/// otherwise nothing.
pub open spec fn spec_inspect_step(
    m: Map<PairKey, TrafficFlow>,
    nets: Seq<Cidr>,
    p: PacketMeta,
    now: u64,
) -> Map<PairKey, TrafficFlow> {
    if p.src_ip is Some && p.dst_ip is Some && p.src_port is Some && p.dst_port is Some {
        let src = Endpoint { ip: p.src_ip.unwrap(), port: p.src_port.unwrap() };
        let dst = Endpoint { ip: p.dst_ip.unwrap(), port: p.dst_port.unwrap() };
        let k = spec_pair_key(src, dst);
        let proto = spec_classify(p);
        let base = if m.contains_key(k) {
            m[k]
        } else {
            spec_fresh_flow(k, src, dst, proto, spec_flow_direction(nets, src.ip, dst.ip), now)
        };
        m.insert(k, spec_updated_flow(base, p.length, proto, now))
    } else {
        m
    }
}

/// The inspector's flow map after a whole batch, in order.
pub open spec fn spec_inspect_fold(
    m: Map<PairKey, TrafficFlow>,
    nets: Seq<Cidr>,
    packets: Seq<PacketMeta>,
    now: u64,
) -> Map<PairKey, TrafficFlow>
    decreases packets.len(),
{
    if packets.len() == 0 {
        m
    } else {
        spec_inspect_step(
            spec_inspect_fold(m, nets, packets.drop_last(), now),
            nets,
            packets.last(),
            now,
        )
    }
}

/// What one packet does to the rule set: with the engine on and both
/// addresses present, the evaluation walk stamps its matches; otherwise
/// nothing.
pub open spec fn spec_fw_rules_step(
    rules: Seq<FirewallRule>,
    enabled: bool,
    p: PacketMeta,
    now: u64,
) -> Seq<FirewallRule> {
    if enabled && p.src_ip is Some && p.dst_ip is Some {
        spec_eval_rules(rules, spec_packet_fields(p), now, 0)
    } else {
        rules
    }
}

/// The rule set after a whole batch, in order.
pub open spec fn spec_fw_rules_fold(
    rules: Seq<FirewallRule>,
    packets: Seq<PacketMeta>,
    enabled: bool,
    now: u64,
) -> Seq<FirewallRule>
    decreases packets.len(),
{
    if packets.len() == 0 {
        rules
    } else {
        spec_fw_rules_step(
            spec_fw_rules_fold(rules, packets.drop_last(), enabled, now),
            enabled,
            packets.last(),
            now,
        )
    }
}

/// The zero-length synthetic TCP packets a socket-table snapshot stands
/// for, in order.
pub open spec fn spec_synthetic_packets(conns: Seq<ProcConnection>, now: u64) -> Seq<PacketMeta>
    decreases conns.len(),
{
    if conns.len() == 0 {
        Seq::empty()
    } else {
        spec_synthetic_packets(conns.drop_last(), now).push(
            crate::connections::spec_conn_packet(conns.last(), now),
        )
    }
}

/// The tick-boundary publication handed to consumers.
pub struct Snapshot {
    pub packets_captured: u64,
    pub bytes_captured: u64,
    pub active_connections: Vec<ConnectionInfo>,
    pub interface_metrics: Vec<InterfaceMetrics>,
    pub network_statistics: NetworkStatistics,
    pub traffic_analysis: TrafficAnalysisResult,
    pub firewall_stats: FirewallStats,
    pub recent_firewall_events: Vec<FirewallEvent>,
    pub recent_packets: Vec<PacketMeta>,
    pub recent_flow_events: Vec<TrafficEvent>,
    /// Whether live capture fed this tick; socket-table observation works
    /// either way.
    pub capture_available: bool,
}

/// The pipeline driver.
pub struct Pipeline {
    pub tracker: ConnectionTracker,
    pub inspector: TrafficInspector,
    pub collector: StatisticsCollector,
    pub analyzer: TrafficAnalyzer,
    pub firewall: FirewallEngine,
    pub recent_packets: Vec<PacketMeta>,
    pub max_recent_packets: usize,
    pub packets_captured: u64,
    pub bytes_captured: u64,
    pub capture_available: bool,
}

impl Pipeline {
    /// Every component is well-formed and the recent-packet ring respects
    /// its cap.
    pub open spec fn wf(self) -> bool {
        &&& self.tracker.wf()
        &&& self.inspector.wf()
        &&& self.analyzer.wf()
        &&& self.firewall.wf()
        &&& self.recent_packets@.len() <= self.max_recent_packets
        &&& self.max_recent_packets >= 1
    }

    /// A fresh pipeline with default components, a hundred-packet recent
    /// ring, and zero totals.
    pub fn new(now: u64, capture_available: bool) -> (r: Pipeline)
        ensures
            r.wf(),
            r.packets_captured == 0,
            r.bytes_captured == 0,
            r.recent_packets@.len() == 0,
            r.max_recent_packets == 100,
            r.capture_available == capture_available,
    {
        Pipeline {
            tracker: ConnectionTracker::new(),
            inspector: TrafficInspector::new(),
            collector: StatisticsCollector::new(now),
            analyzer: TrafficAnalyzer::new(),
            firewall: FirewallEngine::new(),
            recent_packets: Vec::new(),
            max_recent_packets: 100,
            packets_captured: 0,
            bytes_captured: 0,
            capture_available,
        }
    }

    /// One tick. Every pulled packet is classified, tracked, inspected
    /// and evaluated, and joins the bounded recent ring; the socket-table
    /// snapshot reconciles the tracker and, as synthetic packets, feeds
    /// the inspector and the firewall, so observation works without live
    /// capture; idle flows retire; the interface readings and totals
    /// refresh the statistics; the analyzer runs; and the snapshot of the
    /// end-of-tick state is returned. The contract below pins each
    /// component's end state as the fold of its per-item operation.
    #[verifier::loop_isolation(false)]
    #[verifier::rlimit(100)]
    pub fn tick(
        &mut self,
        packets: Vec<PacketMeta>,
        proc_connections: Vec<ProcConnection>,
        interface_stats: Vec<InterfaceStats>,
        now: u64,
    ) -> (r: Snapshot)
        requires
            old(self).wf(),
            old(self).firewall.rule_counter < 0xFFFFFFFF,
        ensures
            final(self).wf(),
            // capture totals
            final(self).packets_captured == sat_add_u64_int(
                old(self).packets_captured,
                packets@.len() as int,
            ),
            final(self).bytes_captured == sat_add_u64(
                old(self).bytes_captured,
                spec_batch_bytes(packets@),
            ),
            final(self).packets_captured >= old(self).packets_captured,
            final(self).bytes_captured >= old(self).bytes_captured,
            final(self).max_recent_packets == old(self).max_recent_packets,
            final(self).capture_available == old(self).capture_available,
            // the recent ring holds exactly the batch appended to it
            final(self).recent_packets@ == spec_ring_append(
                old(self).recent_packets@,
                packets@,
                old(self).max_recent_packets as int,
            ),
            // the tracker: the per-packet fold, then the snapshot
            // reconciliation, exact within the cap and timeout
            ({
                let mid = spec_track_fold(old(self).tracker.conn_map(), packets@, now);
                let keys = spec_proc_keys(proc_connections@);
                let folded = spec_proc_fold(mid.restrict(keys), proc_connections@, now);
                &&& forall|k: PairKey|
                    final(self).tracker.conn_map().contains_key(k) ==> folded.contains_key(k)
                        && (#[trigger] final(self).tracker.conn_map()[k]) == folded[k]
                &&& (old(self).tracker.timeout_secs >= 1 && proc_connections@.len()
                    <= old(self).tracker.max_connections) ==> final(self).tracker.conn_map()
                    == folded
                &&& final(self).tracker.conns@.len() <= old(self).tracker.max_connections
            }),
            // the tracker's classifier only accumulates
            forall|t: crate::protocols::ProtocolType|
                #![trigger old(self).tracker.analyzer.stats_map().dom().contains(t)]
                old(self).tracker.analyzer.stats_map().contains_key(t)
                    ==> final(self).tracker.analyzer.stats_map().contains_key(t)
                    && final(self).tracker.analyzer.stats_map()[t].0
                    >= old(self).tracker.analyzer.stats_map()[t].0
                    && final(self).tracker.analyzer.stats_map()[t].1
                    >= old(self).tracker.analyzer.stats_map()[t].1,
            // the inspector: per-packet fold over live then synthetic
            // packets, then expiry of idle flows
            ({
                let nets = old(self).inspector.local_networks@;
                let mid = spec_inspect_fold(old(self).inspector.flow_map(), nets, packets@, now);
                let mid2 = spec_inspect_fold(
                    mid,
                    nets,
                    spec_synthetic_packets(proc_connections@, now),
                    now,
                );
                &&& forall|k: PairKey|
                    #[trigger] final(self).inspector.flow_map().contains_key(k) <==> (
                    mid2.contains_key(k) && !spec_flow_expired(
                        mid2[k],
                        now,
                        old(self).inspector.flow_timeout,
                    ))
                &&& forall|k: PairKey|
                    #[trigger] final(self).inspector.flow_map().contains_key(k)
                        ==> final(self).inspector.flow_map()[k] == mid2[k]
            }),
            final(self).inspector.local_networks == old(self).inspector.local_networks,
            // the firewall: the evaluation fold over live then synthetic
            // packets, its processed count exact, its switch untouched
            final(self).firewall.enabled == old(self).firewall.enabled,
            final(self).firewall.rules@ == spec_fw_rules_fold(
                spec_fw_rules_fold(
                    old(self).firewall.rules@,
                    packets@,
                    old(self).firewall.enabled,
                    now,
                ),
                spec_synthetic_packets(proc_connections@, now),
                old(self).firewall.enabled,
                now,
            ),
            old(self).firewall.enabled ==> final(self).firewall.stats.total_packets_processed
                == sat_add_u64_int(
                old(self).firewall.stats.total_packets_processed,
                packets@.len() + proc_connections@.len() as int,
            ),
            !old(self).firewall.enabled ==> final(self).firewall == old(self).firewall,
            // the statistics collector holds the fresh totals and the
            // purged histories, and the fresh readings as its baseline
            final(self).collector.total_packets == final(self).packets_captured,
            final(self).collector.total_bytes == final(self).bytes_captured,
            final(self).collector.last_update == now,
            final(self).collector.start_time == old(self).collector.start_time,
            final(self).collector.packet_history@ == spec_purged(
                old(self).collector.packet_history@.push((now, final(self).packets_captured)),
                now,
                old(self).collector.history_window,
            ),
            final(self).collector.byte_history@ == spec_purged(
                old(self).collector.byte_history@.push((now, final(self).bytes_captured)),
                now,
                old(self).collector.history_window,
            ),
            final(self).collector.previous_stats@.len() == interface_stats@.len(),
            forall|i: int|
                0 <= i < interface_stats@.len()
                    ==> (#[trigger] final(self).collector.previous_stats@[i])
                    == interface_stats@[i],
            // the analyzer ran on the end-of-tick flows, or served its
            // cache within the interval
            (now < sat_add_u64(old(self).analyzer.last_analysis, old(self).analyzer.sample_interval)
                && old(self).analyzer.cached is Some) ==> final(self).analyzer
                == old(self).analyzer && spec_result_matches(
                r.traffic_analysis,
                old(self).analyzer.cached.unwrap(),
            ),
            !(now < sat_add_u64(
                old(self).analyzer.last_analysis,
                old(self).analyzer.sample_interval,
            ) && old(self).analyzer.cached is Some) ==> ({
                let rates = spec_direction_rates(final(self).inspector.active_flows@);
                let sample = BandwidthSample {
                    timestamp: now,
                    total_bps: sat_add_u64(sat_add_u64(rates.0, rates.1), rates.2),
                    inbound_bps: rates.0,
                    outbound_bps: rates.1,
                    internal_bps: rates.2,
                };
                &&& final(self).analyzer.last_analysis == now
                &&& final(self).analyzer.cached is Some
                &&& final(self).analyzer.bandwidth_samples@ == spec_ring_append(
                    old(self).analyzer.bandwidth_samples@,
                    seq![sample],
                    old(self).analyzer.max_samples as int,
                )
                &&& spec_result_matches(r.traffic_analysis, final(self).analyzer.cached.unwrap())
                &&& r.traffic_analysis.analysis_timestamp == now
            }),
            // the snapshot copies the end-of-tick state
            r.packets_captured == final(self).packets_captured,
            r.bytes_captured == final(self).bytes_captured,
            r.active_connections@ == final(self).tracker.conns@,
            r.firewall_stats == final(self).firewall.stats,
            r.recent_packets@ == final(self).recent_packets@,
            r.recent_firewall_events@ == final(self).firewall.recent_events@,
            r.recent_flow_events@.len() == if 10 <= final(self).inspector.traffic_events@.len() {
                10int
            } else {
                final(self).inspector.traffic_events@.len() as int
            },
            forall|j: int|
                0 <= j < r.recent_flow_events@.len() ==> #[trigger] r.recent_flow_events@[j]
                    == final(self).inspector.traffic_events@[final(self).inspector.traffic_events@.len()
                    - 1 - j],
            r.interface_metrics@.len() == interface_stats@.len(),
            forall|i: int|
                0 <= i < r.interface_metrics@.len() ==> {
                    let cur = interface_stats@[i];
                    let at = spec_find_stats(old(self).collector.previous_stats@, cur.interface@, 0);
                    let dt = if now >= old(self).collector.last_update {
                        now - old(self).collector.last_update
                    } else {
                        0
                    };
                    if at < old(self).collector.previous_stats@.len() {
                        let prev = old(self).collector.previous_stats@[at];
                        spec_metrics_matches(
                            #[trigger] r.interface_metrics@[i],
                            cur,
                            spec_counter_rate(cur.rx_bytes, prev.rx_bytes, dt),
                            spec_counter_rate(cur.tx_bytes, prev.tx_bytes, dt),
                            now,
                        )
                    } else {
                        spec_metrics_matches(r.interface_metrics@[i], cur, 0, 0, now)
                    }
                },
            r.network_statistics.total_packets == final(self).packets_captured,
            r.network_statistics.total_bytes == final(self).bytes_captured,
            r.network_statistics.active_connections == final(self).tracker.conns@.len(),
            r.network_statistics.start_time == old(self).collector.start_time,
            r.network_statistics.uptime == sat_sub_u64(now, old(self).collector.start_time),
            r.network_statistics.protocol_distribution@
                == final(self).tracker.analyzer.spec_records(),
            r.network_statistics.packets_per_second == sat_sub_u64(
                final(self).packets_captured,
                spec_rate_baseline(final(self).collector.packet_history@, now),
            ) / 10,
            r.network_statistics.bytes_per_second == sat_sub_u64(
                final(self).bytes_captured,
                spec_rate_baseline(final(self).collector.byte_history@, now),
            ) / 10,
            r.capture_available == old(self).capture_available,
    {
        let n = packets.len();
        let ghost pk0 = self.packets_captured;
        let ghost by0 = self.bytes_captured;
        let ghost cm0 = self.tracker.conn_map();
        let ghost fm0 = self.inspector.flow_map();
        let ghost nets0 = self.inspector.local_networks@;
        let ghost fr0 = self.firewall.rules@;
        let ghost fw0 = self.firewall;
        let ghost en0 = self.firewall.enabled;
        let ghost ft0 = self.firewall.stats.total_packets_processed;
        let ghost rp0 = self.recent_packets@;
        let ghost rcap = self.max_recent_packets as int;
        proof {
            assert(packets@.take(0) =~= Seq::<PacketMeta>::empty());
        }
        let mut i: usize = 0;
        while i < n
            invariant
                0 <= i <= n == packets@.len(),
                self.tracker.wf(),
                self.inspector.wf(),
                self.firewall.wf(),
                self.analyzer == old(self).analyzer,
                self.collector == old(self).collector,
                self.packets_captured == sat_add_u64_int(pk0, i as int),
                self.bytes_captured == sat_add_u64(by0, spec_batch_bytes(packets@.take(i as int))),
                self.bytes_captured >= by0,
                self.tracker.conn_map() == spec_track_fold(cm0, packets@.take(i as int), now),
                self.tracker.timeout_secs == old(self).tracker.timeout_secs,
                self.tracker.max_connections == old(self).tracker.max_connections,
                forall|t: crate::protocols::ProtocolType|
                    #![trigger old(self).tracker.analyzer.stats_map().dom().contains(t)]
                    old(self).tracker.analyzer.stats_map().contains_key(t)
                        ==> self.tracker.analyzer.stats_map().contains_key(t)
                        && self.tracker.analyzer.stats_map()[t].0 >= old(
                        self,
                    ).tracker.analyzer.stats_map()[t].0 && self.tracker.analyzer.stats_map()[t].1
                        >= old(self).tracker.analyzer.stats_map()[t].1,
                self.inspector.flow_map() == spec_inspect_fold(
                    fm0,
                    nets0,
                    packets@.take(i as int),
                    now,
                ),
                self.inspector.local_networks == old(self).inspector.local_networks,
                self.inspector.flow_timeout == old(self).inspector.flow_timeout,
                self.firewall.enabled == en0,
                self.firewall.rules@ == spec_fw_rules_fold(
                    fr0,
                    packets@.take(i as int),
                    en0,
                    now,
                ),
                en0 ==> self.firewall.stats.total_packets_processed == sat_add_u64_int(
                    ft0,
                    i as int,
                ),
                !en0 ==> self.firewall == fw0,
                self.firewall.rule_counter == old(self).firewall.rule_counter,
                self.recent_packets@ == spec_ring_append(rp0, packets@.take(i as int), rcap),
                self.recent_packets@.len() <= self.max_recent_packets,
                self.max_recent_packets == old(self).max_recent_packets,
                self.capture_available == old(self).capture_available,
            decreases n - i,
        {
            proof {
                assert(packets@.take(i + 1).drop_last() =~= packets@.take(i as int));
                assert(packets@.take(i + 1).last() == packets@[i as int]);
            }
            let packet = &packets[i];
            self.packets_captured = self.packets_captured.saturating_add(1);
            self.bytes_captured = self.bytes_captured.saturating_add(packet.length as u64);
            self.tracker.track_packet(packet, now);
            let protocol = self.tracker.get_protocol_analyzer().identify_protocol(packet);
            self.inspector.inspect_packet(packet, protocol, now);
            self.firewall.process_packet(packet, now);
            let ghost ring_before = self.recent_packets@;
            self.recent_packets.push(clone_packet(packet));
            if self.recent_packets.len() > self.max_recent_packets {
                self.recent_packets.remove(0);
            }
            proof {
                let taken = packets@.take(i + 1);
                assert(spec_ring_append(rp0, taken.drop_last(), rcap) == ring_before);
                if ring_before.push(packets@[i as int]).len() > rcap {
                    assert(self.recent_packets@ =~= ring_before.push(
                        packets@[i as int],
                    ).drop_first());
                } else {
                    assert(self.recent_packets@ =~= ring_before.push(packets@[i as int]));
                }
            }
            i = i + 1;
        }
        proof {
            assert(packets@.take(n as int) =~= packets@);
        }
        let ghost amid = self.tracker.analyzer;
        let ghost cmid = self.tracker.conn_map();
        proof {
            assert(cmid == spec_track_fold(cm0, packets@, now));
        }
        self.tracker.update_from_proc(&proc_connections, now);
        let ghost tracker_done = self.tracker;
        proof {
            let keys = spec_proc_keys(proc_connections@);
            assert forall|k: PairKey|
                #![trigger tracker_done.conn_map().dom().contains(k)]
                tracker_done.conn_map().contains_key(k) implies spec_proc_fold(
                cmid.restrict(spec_proc_keys(proc_connections@)),
                proc_connections@,
                now,
            ).contains_key(k) && tracker_done.conn_map()[k] == spec_proc_fold(
                cmid.restrict(spec_proc_keys(proc_connections@)),
                proc_connections@,
                now,
            )[k] by {
                assert(self.tracker.conn_map().contains_key(k));
                assert(self.tracker.conn_map()[k] == tracker_done.conn_map()[k]);
            }
            assert((old(self).tracker.timeout_secs >= 1 && proc_connections@.len() <= old(
                self,
            ).tracker.max_connections) ==> tracker_done.conn_map() == spec_proc_fold(
                cmid.restrict(spec_proc_keys(proc_connections@)),
                proc_connections@,
                now,
            ));
            assert(tracker_done.conns@.len() <= old(self).tracker.max_connections);
            assert forall|t: crate::protocols::ProtocolType|
                #![trigger amid.stats_map().dom().contains(t)]
                amid.stats_map().contains_key(t) implies tracker_done.analyzer.stats_map().contains_key(
                t,
            ) && tracker_done.analyzer.stats_map()[t].0 >= amid.stats_map()[t].0
                && tracker_done.analyzer.stats_map()[t].1 >= amid.stats_map()[t].1 by {
                assert(amid.stats_map().contains_key(t));
                assert((#[trigger] self.tracker.analyzer.stats_map()[t]).0
                    == tracker_done.analyzer.stats_map()[t].0);
            }
        }
        let ghost fm_mid = spec_inspect_fold(fm0, nets0, packets@, now);
        let ghost fr_mid = spec_fw_rules_fold(fr0, packets@, en0, now);
        proof {
            assert(spec_synthetic_packets(proc_connections@.take(0), now) =~= Seq::<
                PacketMeta,
            >::empty());
        }
        let pn = proc_connections.len();
        let mut p: usize = 0;
        while p < pn
            invariant
                0 <= p <= pn == proc_connections@.len(),
                self.tracker == tracker_done,
                self.inspector.wf(),
                self.firewall.wf(),
                self.analyzer == old(self).analyzer,
                self.collector == old(self).collector,
                self.packets_captured == sat_add_u64_int(pk0, n as int),
                self.bytes_captured == sat_add_u64(by0, spec_batch_bytes(packets@)),
                self.bytes_captured >= by0,
                self.inspector.flow_map() == spec_inspect_fold(
                    fm_mid,
                    nets0,
                    spec_synthetic_packets(proc_connections@.take(p as int), now),
                    now,
                ),
                self.inspector.local_networks == old(self).inspector.local_networks,
                self.inspector.flow_timeout == old(self).inspector.flow_timeout,
                self.firewall.enabled == en0,
                self.firewall.rules@ == spec_fw_rules_fold(
                    fr_mid,
                    spec_synthetic_packets(proc_connections@.take(p as int), now),
                    en0,
                    now,
                ),
                en0 ==> self.firewall.stats.total_packets_processed == sat_add_u64_int(
                    ft0,
                    n + p as int,
                ),
                !en0 ==> self.firewall == fw0,
                self.recent_packets@ == spec_ring_append(rp0, packets@, rcap),
                self.recent_packets@.len() <= self.max_recent_packets,
                self.max_recent_packets == old(self).max_recent_packets,
                self.capture_available == old(self).capture_available,
            decreases pn - p,
        {
            let conn = proc_connections[p];
            let synthetic = PacketMeta::synthetic_tcp(now, conn.local_addr, conn.remote_addr);
            proof {
                assert(synthetic == crate::connections::spec_conn_packet(
                    proc_connections@[p as int],
                    now,
                ));
                let syn_prev = spec_synthetic_packets(proc_connections@.take(p as int), now);
                let syn_next = spec_synthetic_packets(proc_connections@.take(p + 1), now);
                assert(proc_connections@.take(p + 1).drop_last() =~= proc_connections@.take(
                    p as int,
                ));
                assert(proc_connections@.take(p + 1).last() == proc_connections@[p as int]);
                assert(syn_next == syn_prev.push(
                    crate::connections::spec_conn_packet(proc_connections@[p as int], now),
                ));
                assert(syn_next.drop_last() =~= syn_prev);
            }
            let protocol = self.tracker.get_protocol_analyzer().identify_protocol(&synthetic);
            self.inspector.inspect_packet(&synthetic, protocol, now);
            self.firewall.process_packet(&synthetic, now);
            p = p + 1;
        }
        proof {
            assert(proc_connections@.take(pn as int) =~= proc_connections@);
        }
        let ghost mid2 = self.inspector.flow_map();
        self.inspector.cleanup_expired_flows(now);
        let metrics = self.collector.update_interface_stats(&interface_stats, now);
        self.collector.update_packet_stats(self.packets_captured, self.bytes_captured, now);
        let mut metrics_copy: Vec<InterfaceMetrics> = Vec::new();
        let mn = metrics.len();
        let mut m: usize = 0;
        while m < mn
            invariant
                0 <= m <= mn == metrics@.len(),
                metrics_copy@.len() == m,
                forall|j: int| 0 <= j < m ==> #[trigger] metrics_copy@[j] == metrics@[j],
            decreases mn - m,
        {
            metrics_copy.push(clone_metrics(&metrics[m]));
            m = m + 1;
        }
        let active_count = self.tracker.get_connection_count();
        let network_statistics = self.collector.generate_network_statistics(
            self.tracker.get_protocol_analyzer(),
            metrics,
            active_count,
            now,
        );
        let flows_view = self.inspector.get_active_flows();
        let mut flows_copy: Vec<TrafficFlow> = Vec::new();
        let fvn = flows_view.len();
        let mut fv: usize = 0;
        while fv < fvn
            invariant
                0 <= fv <= fvn == self.inspector.active_flows@.len(),
                flows_copy@ == self.inspector.active_flows@.take(fv as int),
            decreases fvn - fv,
        {
            flows_copy.push(flows_view[fv]);
            proof {
                assert(flows_copy@ =~= self.inspector.active_flows@.take(fv + 1));
            }
            fv = fv + 1;
        }
        proof {
            assert(self.inspector.active_flows@.take(fvn as int) =~= self.inspector.active_flows@);
        }
        let traffic_analysis = self.analyzer.analyze_traffic(&flows_copy, now);
        let mut active_connections: Vec<ConnectionInfo> = Vec::new();
        let cn = self.tracker.get_active_connections().len();
        let mut c: usize = 0;
        while c < cn
            invariant
                0 <= c <= cn == self.tracker.conns@.len(),
                active_connections@ == self.tracker.conns@.take(c as int),
            decreases cn - c,
        {
            active_connections.push(self.tracker.get_active_connections()[c]);
            proof {
                assert(active_connections@ =~= self.tracker.conns@.take(c + 1));
            }
            c = c + 1;
        }
        proof {
            assert(self.tracker.conns@.take(cn as int) =~= self.tracker.conns@);
        }
        let mut recent_firewall_events: Vec<FirewallEvent> = Vec::new();
        let fen = self.firewall.get_recent_events().len();
        let mut fe: usize = 0;
        while fe < fen
            invariant
                0 <= fe <= fen == self.firewall.recent_events@.len(),
                recent_firewall_events@.len() == fe,
                forall|j: int|
                    0 <= j < fe ==> #[trigger] recent_firewall_events@[j]
                        == self.firewall.recent_events@[j],
            decreases fen - fe,
        {
            recent_firewall_events.push(
                clone_firewall_event(&self.firewall.get_recent_events()[fe]),
            );
            fe = fe + 1;
        }
        proof {
            assert(recent_firewall_events@ =~= self.firewall.recent_events@);
        }
        let mut recent_packets: Vec<PacketMeta> = Vec::new();
        let rpn = self.recent_packets.len();
        let mut rp: usize = 0;
        while rp < rpn
            invariant
                0 <= rp <= rpn == self.recent_packets@.len(),
                recent_packets@.len() == rp,
                forall|j: int|
                    0 <= j < rp ==> #[trigger] recent_packets@[j] == self.recent_packets@[j],
            decreases rpn - rp,
        {
            recent_packets.push(clone_packet(&self.recent_packets[rp]));
            rp = rp + 1;
        }
        proof {
            assert(recent_packets@ =~= self.recent_packets@);
        }
        proof {
            assert(self.tracker == tracker_done);
            assert(cmid == spec_track_fold(cm0, packets@, now));
            assert(cm0 == old(self).tracker.conn_map());
            assert forall|k: PairKey|
                self.tracker.conn_map().contains_key(k) implies spec_proc_fold(
                spec_track_fold(old(self).tracker.conn_map(), packets@, now).restrict(
                    spec_proc_keys(proc_connections@),
                ),
                proc_connections@,
                now,
            ).contains_key(k) && self.tracker.conn_map()[k] == spec_proc_fold(
                spec_track_fold(old(self).tracker.conn_map(), packets@, now).restrict(
                    spec_proc_keys(proc_connections@),
                ),
                proc_connections@,
                now,
            )[k] by {
                assert(tracker_done.conn_map().dom().contains(k));
            }
            assert forall|t: crate::protocols::ProtocolType|
                #![trigger old(self).tracker.analyzer.stats_map().dom().contains(t)]
                old(self).tracker.analyzer.stats_map().contains_key(t)
                    implies self.tracker.analyzer.stats_map().contains_key(t)
                    && self.tracker.analyzer.stats_map()[t].0
                    >= old(self).tracker.analyzer.stats_map()[t].0
                    && self.tracker.analyzer.stats_map()[t].1
                    >= old(self).tracker.analyzer.stats_map()[t].1 by {
                assert(old(self).tracker.analyzer.stats_map().dom().contains(t));
                assert(amid.stats_map().contains_key(t) && amid.stats_map()[t].0 >= old(
                    self,
                ).tracker.analyzer.stats_map()[t].0 && amid.stats_map()[t].1 >= old(
                    self,
                ).tracker.analyzer.stats_map()[t].1);
                assert(amid.stats_map().dom().contains(t));
            }
        }
        let recent_flow_events = self.inspector.get_recent_events(10);
        Snapshot {
            packets_captured: self.packets_captured,
            bytes_captured: self.bytes_captured,
            active_connections,
            interface_metrics: metrics_copy,
            network_statistics,
            traffic_analysis,
            firewall_stats: *self.firewall.get_stats(),
            recent_firewall_events,
            recent_packets,
            recent_flow_events,
            capture_available: self.capture_available,
        }
    }
}

} // verus!
