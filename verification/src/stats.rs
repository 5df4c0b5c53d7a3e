//! The statistics collector: interface rates, packet and byte totals, and
//! their bounded history.
//!
//! Interface rates come from deltas against the previous reading, with
//! saturating subtraction so that counter resets never produce negative
//! rates. Totals are kept with a sliding-window history from which
//! short-term rates are computed.

use vstd::prelude::*;
use crate::procfs::InterfaceStats;
use crate::protocols::{ProtocolAnalyzer, ProtocolInfo};
use crate::sat_add_u64;

verus! {

/// Raw interface counters together with derived per-second rates.
#[derive(Clone, Debug)]
pub struct InterfaceMetrics {
    pub interface_name: String,
    pub rx_bytes: u64,
    pub tx_bytes: u64,
    pub rx_packets: u64,
    pub tx_packets: u64,
    pub rx_errors: u64,
    pub tx_errors: u64,
    pub rx_dropped: u64,
    pub tx_dropped: u64,
    /// Received bytes per second since the previous reading.
    pub rx_rate_bps: u64,
    /// Sent bytes per second since the previous reading.
    pub tx_rate_bps: u64,
    pub last_update: u64,
}

/// Saturating subtraction: zero where the counter fell, as it does across
/// a reset.
pub open spec fn sat_sub_u64(a: u64, b: u64) -> u64 {
    if a >= b {
        (a - b) as u64
    } else {
        0
    }
}

/// The first index at or after `i` whose entry bears the given interface
/// name, or the length where there is none.
pub open spec fn spec_find_stats(s: Seq<InterfaceStats>, name: Seq<char>, i: int) -> int
    decreases s.len() - i,
    when 0 <= i <= s.len()
{
    if i >= s.len() {
        i
    } else if s[i].interface@ == name {
        i
    } else {
        spec_find_stats(s, name, i + 1)
    }
}


/// The per-second rate of a counter since the previous reading: the
/// saturating delta divided by the elapsed seconds, zero where no time has
/// passed.
pub open spec fn spec_counter_rate(cur: u64, prev: u64, dt: int) -> u64 {
    if dt >= 1 {
        (sat_sub_u64(cur, prev) as int / dt) as u64
    } else {
        0
    }
}

/// Whether a metrics record carries the given reading with the given
/// rates.
pub open spec fn spec_metrics_matches(
    m: InterfaceMetrics,
    cur: InterfaceStats,
    rx_rate: u64,
    tx_rate: u64,
    now: u64,
) -> bool {
    &&& m.interface_name@ == cur.interface@
    &&& m.rx_bytes == cur.rx_bytes
    &&& m.tx_bytes == cur.tx_bytes
    &&& m.rx_packets == cur.rx_packets
    &&& m.tx_packets == cur.tx_packets
    &&& m.rx_errors == cur.rx_errors
    &&& m.tx_errors == cur.tx_errors
    &&& m.rx_dropped == cur.rx_dropped
    &&& m.tx_dropped == cur.tx_dropped
    &&& m.rx_rate_bps == rx_rate
    &&& m.tx_rate_bps == tx_rate
    &&& m.last_update == now
}

/// A history after appending an entry and dropping everything that fell
/// out of the window: entries survive exactly when they are younger than
/// the window.
pub open spec fn spec_purged(s: Seq<(u64, u64)>, now: u64, window: u64) -> Seq<(u64, u64)>
    decreases s.len(),
{
    if s.len() == 0 {
        Seq::empty()
    } else {
        let rest = spec_purged(s.drop_last(), now, window);
        if s.last().0 + window > now {
            rest.push(s.last())
        } else {
            rest
        }
    }
}

/// The first index at or after `i` whose sample lies within the last ten
/// seconds, or the length where there is none.
pub open spec fn spec_find_recent(s: Seq<(u64, u64)>, now: u64, i: int) -> int
    decreases s.len() - i,
    when 0 <= i <= s.len()
{
    if i >= s.len() {
        i
    } else if s[i].0 + 10 >= now {
        i
    } else {
        spec_find_recent(s, now, i + 1)
    }
}

/// The baseline a rate is computed against: the count of the earliest
/// sample within the last ten seconds, or zero where there is none.
pub open spec fn spec_rate_baseline(s: Seq<(u64, u64)>, now: u64) -> u64 {
    let i = spec_find_recent(s, now, 0);
    if i < s.len() {
        s[i].1
    } else {
        0
    }
}


/// The first index at or after `i` whose record bears the given protocol,
/// or the length where there is none.
pub open spec fn spec_find_proto(s: Seq<ProtocolInfo>, t: crate::protocols::ProtocolType, i: int) -> int
    decreases s.len() - i,
    when 0 <= i <= s.len()
{
    if i >= s.len() {
        i
    } else if s[i].protocol_type == t {
        i
    } else {
        spec_find_proto(s, t, i + 1)
    }
}

/// A forward scan that saw no record of the protocol and then one, or the
/// end, has found the first such record.
proof fn lemma_find_proto_scan(
    s: Seq<ProtocolInfo>,
    t: crate::protocols::ProtocolType,
    i: int,
    e: int,
)
    requires
        0 <= i <= e <= s.len(),
        forall|j: int| i <= j < e ==> (#[trigger] s[j]).protocol_type != t,
        e == s.len() || s[e].protocol_type == t,
    ensures
        spec_find_proto(s, t, i) == e,
    decreases e - i,
{
    if i < e {
        lemma_find_proto_scan(s, t, i + 1, e);
    }
}

/// The saturating sum of every interface's combined rate.
pub open spec fn spec_iface_rate_total(s: Seq<InterfaceMetrics>) -> u64
    decreases s.len(),
{
    if s.len() == 0 {
        0
    } else {
        sat_add_u64(
            sat_add_u64(spec_iface_rate_total(s.drop_last()), s.last().rx_rate_bps),
            s.last().tx_rate_bps,
        )
    }
}

/// Duplicate an interface reading; the name string is copied.
pub fn clone_interface_stats(e: &InterfaceStats) -> (r: InterfaceStats)
    ensures
        r == *e,
{
    InterfaceStats {
        interface: e.interface.clone(),
        rx_bytes: e.rx_bytes,
        tx_bytes: e.tx_bytes,
        rx_packets: e.rx_packets,
        tx_packets: e.tx_packets,
        rx_errors: e.rx_errors,
        tx_errors: e.tx_errors,
        rx_dropped: e.rx_dropped,
        tx_dropped: e.tx_dropped,
    }
}

/// The statistics collector.
pub struct StatisticsCollector {
    pub start_time: u64,
    pub last_update: u64,
    pub previous_stats: Vec<InterfaceStats>,
    pub total_packets: u64,
    pub total_bytes: u64,
    /// Pairs of (timestamp, running packet total).
    pub packet_history: Vec<(u64, u64)>,
    /// Pairs of (timestamp, running byte total).
    pub byte_history: Vec<(u64, u64)>,
    /// Seconds of history that are kept.
    pub history_window: u64,
}

impl StatisticsCollector {
    /// A fresh collector starting now, with a one-minute history window.
    pub fn new(now: u64) -> (r: StatisticsCollector)
        ensures
            r.start_time == now,
            r.last_update == now,
            r.previous_stats@.len() == 0,
            r.total_packets == 0,
            r.total_bytes == 0,
            r.packet_history@.len() == 0,
            r.byte_history@.len() == 0,
            r.history_window == 60,
    {
        StatisticsCollector {
            start_time: now,
            last_update: now,
            previous_stats: Vec::new(),
            total_packets: 0,
            total_bytes: 0,
            packet_history: Vec::new(),
            byte_history: Vec::new(),
            history_window: 60,
        }
    }

    /// Derive per-interface metrics from fresh readings: each reading's
    /// counters are carried through, and where a previous reading of the
    /// same name exists and time has passed, the rates are the saturating
    /// deltas over the elapsed seconds, zero otherwise. The fresh readings
    /// become the new baseline and the update time is stamped.
    #[verifier::loop_isolation(false)]
    pub fn update_interface_stats(&mut self, interface_stats: &Vec<InterfaceStats>, now: u64) -> (r:
        Vec<InterfaceMetrics>)
        ensures
            r@.len() == interface_stats@.len(),
            forall|i: int|
                0 <= i < r@.len() ==> {
                    let cur = interface_stats@[i];
                    let at = spec_find_stats(old(self).previous_stats@, cur.interface@, 0);
                    let dt = if now >= old(self).last_update {
                        now - old(self).last_update
                    } else {
                        0
                    };
                    if at < old(self).previous_stats@.len() {
                        let prev = old(self).previous_stats@[at];
                        spec_metrics_matches(
                            #[trigger] r@[i],
                            cur,
                            spec_counter_rate(cur.rx_bytes, prev.rx_bytes, dt),
                            spec_counter_rate(cur.tx_bytes, prev.tx_bytes, dt),
                            now,
                        )
                    } else {
                        spec_metrics_matches(r@[i], cur, 0, 0, now)
                    }
                },
            final(self).previous_stats@.len() == interface_stats@.len(),
            forall|i: int|
                0 <= i < interface_stats@.len() ==> (#[trigger] final(self).previous_stats@[i])
                    == interface_stats@[i],
            final(self).last_update == now,
            final(self).start_time == old(self).start_time,
            final(self).total_packets == old(self).total_packets,
            final(self).total_bytes == old(self).total_bytes,
            final(self).packet_history == old(self).packet_history,
            final(self).byte_history == old(self).byte_history,
            final(self).history_window == old(self).history_window,
    {
        let n = interface_stats.len();
        let mut metrics: Vec<InterfaceMetrics> = Vec::new();
        let mut fresh_baseline: Vec<InterfaceStats> = Vec::new();
        let ghost prev0 = self.previous_stats@;
        let ghost lu0 = self.last_update;
        let dt: u64 = if now >= self.last_update {
            now - self.last_update
        } else {
            0
        };
        let mut i: usize = 0;
        while i < n
            invariant
                0 <= i <= n == interface_stats@.len(),
                prev0 == self.previous_stats@,
                lu0 == self.last_update,
                dt == (if now >= lu0 {
                    (now - lu0) as u64
                } else {
                    0u64
                }),
                metrics@.len() == i,
                fresh_baseline@.len() == i,
                forall|j: int|
                    0 <= j < i ==> (#[trigger] fresh_baseline@[j]) == interface_stats@[j],
                forall|j: int|
                    0 <= j < i ==> {
                        let cur = interface_stats@[j];
                        let at = spec_find_stats(prev0, cur.interface@, 0);
                        if at < prev0.len() {
                            spec_metrics_matches(
                                #[trigger] metrics@[j],
                                cur,
                                spec_counter_rate(cur.rx_bytes, prev0[at].rx_bytes, dt as int),
                                spec_counter_rate(cur.tx_bytes, prev0[at].tx_bytes, dt as int),
                                now,
                            )
                        } else {
                            spec_metrics_matches(metrics@[j], cur, 0, 0, now)
                        }
                    },
            decreases n - i,
        {
            let cur = &interface_stats[i];
            let pn = self.previous_stats.len();
            let mut at: usize = 0;
            while at < pn && !(self.previous_stats[at].interface == cur.interface)
                invariant
                    0 <= at <= pn == prev0.len(),
                    prev0 == self.previous_stats@,
                    forall|j: int| 0 <= j < at ==> (#[trigger] prev0[j]).interface@ != cur.interface@,
                decreases pn - at,
            {
                at = at + 1;
            }
            proof {
                lemma_find_stats_scan(prev0, cur.interface@, at as int);
            }
            let (rx_rate, tx_rate) = if at < pn && dt >= 1 {
                let prev = &self.previous_stats[at];
                let rx_delta = cur.rx_bytes.saturating_sub(prev.rx_bytes);
                let tx_delta = cur.tx_bytes.saturating_sub(prev.tx_bytes);
                (rx_delta / dt, tx_delta / dt)
            } else {
                (0, 0)
            };
            metrics.push(
                InterfaceMetrics {
                    interface_name: cur.interface.clone(),
                    rx_bytes: cur.rx_bytes,
                    tx_bytes: cur.tx_bytes,
                    rx_packets: cur.rx_packets,
                    tx_packets: cur.tx_packets,
                    rx_errors: cur.rx_errors,
                    tx_errors: cur.tx_errors,
                    rx_dropped: cur.rx_dropped,
                    tx_dropped: cur.tx_dropped,
                    rx_rate_bps: rx_rate,
                    tx_rate_bps: tx_rate,
                    last_update: now,
                },
            );
            fresh_baseline.push(clone_interface_stats(cur));
            i = i + 1;
        }
        self.previous_stats = fresh_baseline;
        self.last_update = now;
        metrics
    }

    /// Record fresh running totals: they replace the held totals, a sample
    /// is appended to each history, and entries older than the window are
    /// dropped.
    pub fn update_packet_stats(&mut self, packets: u64, bytes: u64, now: u64)
        ensures
            final(self).total_packets == packets,
            final(self).total_bytes == bytes,
            final(self).packet_history@ == spec_purged(
                old(self).packet_history@.push((now, packets)),
                now,
                old(self).history_window,
            ),
            final(self).byte_history@ == spec_purged(
                old(self).byte_history@.push((now, bytes)),
                now,
                old(self).history_window,
            ),
            final(self).start_time == old(self).start_time,
            final(self).last_update == old(self).last_update,
            final(self).previous_stats == old(self).previous_stats,
            final(self).history_window == old(self).history_window,
    {
        self.total_packets = packets;
        self.total_bytes = bytes;
        self.packet_history.push((now, packets));
        self.byte_history.push((now, bytes));
        let window = self.history_window;
        let kept_packets = purge_history(&self.packet_history, now, window);
        let kept_bytes = purge_history(&self.byte_history, now, window);
        self.packet_history = kept_packets;
        self.byte_history = kept_bytes;
    }

    /// The short-term rates: the totals' growth over the earliest sample
    /// of the last ten seconds, divided by ten; zero growth counts as
    /// zero, and a clock step backwards saturates to zero.
    pub fn calculate_rates(&self, now: u64) -> (r: (u64, u64))
        ensures
            r.0 == sat_sub_u64(self.total_packets, spec_rate_baseline(self.packet_history@, now))
                / 10,
            r.1 == sat_sub_u64(self.total_bytes, spec_rate_baseline(self.byte_history@, now))
                / 10,
    {
        let packets_start = find_baseline(&self.packet_history, now);
        let bytes_start = find_baseline(&self.byte_history, now);
        let pps = self.total_packets.saturating_sub(packets_start) / 10;
        let bps = self.total_bytes.saturating_sub(bytes_start) / 10;
        (pps, bps)
    }

    /// Zero the totals and histories, drop the baseline readings, and
    /// restart the clock.
    pub fn reset_statistics(&mut self, now: u64)
        ensures
            final(self).start_time == now,
            final(self).last_update == now,
            final(self).previous_stats@.len() == 0,
            final(self).total_packets == 0,
            final(self).total_bytes == 0,
            final(self).packet_history@.len() == 0,
            final(self).byte_history@.len() == 0,
            final(self).history_window == old(self).history_window,
    {
        self.start_time = now;
        self.last_update = now;
        self.previous_stats.clear();
        self.total_packets = 0;
        self.total_bytes = 0;
        self.packet_history.clear();
        self.byte_history.clear();
    }

    /// The share of the link an interface's combined rate uses, in whole
    /// percent capped at one hundred; nothing where the link speed is
    /// unknown.
    pub fn get_bandwidth_utilization(
        &self,
        metrics: &InterfaceMetrics,
        interface_speed_mbps: Option<u64>,
    ) -> (r: Option<u64>)
        ensures
            (interface_speed_mbps matches Some(speed) ==> (speed >= 1 ==> r == Some(
                ({
                    let pct = sat_add_u64(metrics.rx_rate_bps, metrics.tx_rate_bps) as int * 100
                        / (speed * 1000000);
                    if pct > 100 {
                        100u64
                    } else {
                        pct as u64
                    }
                }),
            ))),
            (interface_speed_mbps is None ==> r is None),
            (interface_speed_mbps == Some(0u64) ==> r is None),
    {
        match interface_speed_mbps {
            Some(speed) => {
                if speed == 0 {
                    return None;
                }
                let total_rate = metrics.rx_rate_bps.saturating_add(metrics.tx_rate_bps);
                let speed_bps: u128 = (speed as u128) * 1000000;
                let pct_wide: u128 = (total_rate as u128) * 100 / speed_bps;
                proof {
                    assert((total_rate as int) * 100 / ((speed as int) * 1000000) >= 0)
                        by (nonlinear_arith)
                        requires
                            total_rate as int >= 0,
                            speed as int >= 1,
                    ;
                }
                if pct_wide > 100 {
                    Some(100)
                } else {
                    Some(pct_wide as u64)
                }
            },
            None => None,
        }
    }

    /// The share of an interface's packets that erred, in whole percent;
    /// zero where no packets moved. Saturating addition combines the two
    /// directions.
    pub fn get_error_rate(&self, metrics: &InterfaceMetrics) -> (r: u64)
        ensures
            ({
                let total = sat_add_u64(metrics.rx_packets, metrics.tx_packets);
                let errors = sat_add_u64(metrics.rx_errors, metrics.tx_errors);
                r == if total == 0 {
                    0int
                } else if errors <= total {
                    errors * 100 / total as int
                } else {
                    100int
                }
            }),
    {
        let total = metrics.rx_packets.saturating_add(metrics.tx_packets);
        let errors = metrics.rx_errors.saturating_add(metrics.tx_errors);
        if total == 0 {
            0
        } else if errors <= total {
            proof {
                assert((errors as int) * 100 / (total as int) <= 100) by (nonlinear_arith)
                    requires
                        0 <= errors as int <= total as int,
                        total as int >= 1,
                ;
            }
            (((errors as u128) * 100 / (total as u128)) as u64)
        } else {
            100
        }
    }

    /// The share of an interface's packets that were dropped, in whole
    /// percent; zero where no packets moved.
    pub fn get_drop_rate(&self, metrics: &InterfaceMetrics) -> (r: u64)
        ensures
            ({
                let total = sat_add_u64(metrics.rx_packets, metrics.tx_packets);
                let dropped = sat_add_u64(metrics.rx_dropped, metrics.tx_dropped);
                r == if total == 0 {
                    0int
                } else if dropped <= total {
                    dropped * 100 / total as int
                } else {
                    100int
                }
            }),
    {
        let total = metrics.rx_packets.saturating_add(metrics.tx_packets);
        let dropped = metrics.rx_dropped.saturating_add(metrics.tx_dropped);
        if total == 0 {
            0
        } else if dropped <= total {
            proof {
                assert((dropped as int) * 100 / (total as int) <= 100) by (nonlinear_arith)
                    requires
                        0 <= dropped as int <= total as int,
                        total as int >= 1,
                ;
            }
            (((dropped as u128) * 100 / (total as u128)) as u64)
        } else {
            100
        }
    }
}

/// A forward scan that saw no matching name and then found one, or the
/// end, has found the first match.
proof fn lemma_find_stats_scan(s: Seq<InterfaceStats>, name: Seq<char>, e: int)
    requires
        0 <= e <= s.len(),
        forall|j: int| 0 <= j < e ==> (#[trigger] s[j]).interface@ != name,
        e == s.len() || s[e].interface@ == name,
    ensures
        spec_find_stats(s, name, 0) == e,
    decreases e,
{
    lemma_find_stats_scan_from(s, name, 0, e);
}

/// The general form of the scan argument, from any start.
proof fn lemma_find_stats_scan_from(s: Seq<InterfaceStats>, name: Seq<char>, i: int, e: int)
    requires
        0 <= i <= e <= s.len(),
        forall|j: int| i <= j < e ==> (#[trigger] s[j]).interface@ != name,
        e == s.len() || s[e].interface@ == name,
    ensures
        spec_find_stats(s, name, i) == e,
    decreases e - i,
{
    if i < e {
        lemma_find_stats_scan_from(s, name, i + 1, e);
    }
}

/// Keep the history entries still inside the window.
fn purge_history(s: &Vec<(u64, u64)>, now: u64, window: u64) -> (r: Vec<(u64, u64)>)
    ensures
        r@ == spec_purged(s@, now, window),
{
    let n = s.len();
    let mut out: Vec<(u64, u64)> = Vec::new();
    proof {
        assert(s@.take(0) =~= Seq::<(u64, u64)>::empty());
    }
    let mut i: usize = 0;
    while i < n
        invariant
            0 <= i <= n == s@.len(),
            out@ == spec_purged(s@.take(i as int), now, window),
        decreases n - i,
    {
        proof {
            assert(s@.take(i + 1).drop_last() =~= s@.take(i as int));
            assert(s@.take(i + 1).last() == s@[i as int]);
        }
        let entry = s[i];
        let young = (entry.0 as u128) + (window as u128) > (now as u128);
        if young {
            out.push(entry);
        }
        i = i + 1;
    }
    proof {
        assert(s@.take(n as int) =~= s@);
    }
    out
}

/// Find the count of the earliest sample within the last ten seconds, or
/// zero where none is.
fn find_baseline(s: &Vec<(u64, u64)>, now: u64) -> (r: u64)
    ensures
        r == spec_rate_baseline(s@, now),
{
    let n = s.len();
    let mut i: usize = 0;
    while i < n
        invariant
            0 <= i <= n == s@.len(),
            forall|j: int| 0 <= j < i ==> !((#[trigger] s@[j]).0 + 10 >= now),
        decreases n - i,
    {
        let entry = s[i];
        if (entry.0 as u128) + 10 >= (now as u128) {
            proof {
                lemma_find_recent_scan(s@, now, 0, i as int);
            }
            return entry.1;
        }
        i = i + 1;
    }
    proof {
        lemma_find_recent_scan(s@, now, 0, n as int);
    }
    0
}

/// A forward scan that saw only stale samples and then a recent one, or
/// the end, has found the first recent sample.
proof fn lemma_find_recent_scan(s: Seq<(u64, u64)>, now: u64, i: int, e: int)
    requires
        0 <= i <= e <= s.len(),
        forall|j: int| i <= j < e ==> !((#[trigger] s[j]).0 + 10 >= now),
        e == s.len() || s[e].0 + 10 >= now,
    ensures
        spec_find_recent(s, now, i) == e,
    decreases e - i,
{
    if i < e {
        lemma_find_recent_scan(s, now, i + 1, e);
    }
}

/// The aggregate network view a snapshot carries.
#[derive(Clone, Debug)]
pub struct NetworkStatistics {
    pub total_packets: u64,
    pub total_bytes: u64,
    pub packets_per_second: u64,
    pub bytes_per_second: u64,
    pub active_connections: usize,
    /// One record per protocol seen.
    pub protocol_distribution: Vec<ProtocolInfo>,
    /// The ten most active protocols, by falling packet count.
    pub top_protocols: Vec<ProtocolInfo>,
    pub interface_metrics: Vec<InterfaceMetrics>,
    pub uptime: u64,
    pub start_time: u64,
}

impl StatisticsCollector {
    /// Assemble the aggregate view: the held totals, the short-term
    /// rates, the classifier's records with its ten most active
    /// protocols, the given interface metrics, and the uptime.
    pub fn generate_network_statistics(
        &self,
        analyzer: &ProtocolAnalyzer,
        interface_metrics: Vec<InterfaceMetrics>,
        active_connections: usize,
        now: u64,
    ) -> (r: NetworkStatistics)
        ensures
            r.total_packets == self.total_packets,
            r.total_bytes == self.total_bytes,
            r.packets_per_second == sat_sub_u64(
                self.total_packets,
                spec_rate_baseline(self.packet_history@, now),
            ) / 10,
            r.bytes_per_second == sat_sub_u64(
                self.total_bytes,
                spec_rate_baseline(self.byte_history@, now),
            ) / 10,
            r.active_connections == active_connections,
            r.protocol_distribution@ == analyzer.spec_records(),
            r.top_protocols@.len() == if 10 <= analyzer.spec_records().len() {
                10int
            } else {
                analyzer.spec_records().len() as int
            },
            forall|a: int, b: int|
                0 <= a <= b < r.top_protocols@.len() ==> (
                #[trigger] r.top_protocols@[a]).packet_count >= (
                #[trigger] r.top_protocols@[b]).packet_count,
            forall|a: int|
                0 <= a < r.top_protocols@.len() ==> analyzer.spec_records().contains(
                    #[trigger] r.top_protocols@[a],
                ),
            forall|j: int|
                0 <= j < analyzer.spec_records().len() && (forall|a: int|
                    0 <= a < r.top_protocols@.len() ==> r.top_protocols@[a]
                        != analyzer.spec_records()[j]) ==> r.top_protocols@.len() == 10 && (
                r.top_protocols@.len() > 0 ==> (
                #[trigger] analyzer.spec_records()[j]).packet_count
                    >= 0 && analyzer.spec_records()[j].packet_count
                    <= r.top_protocols@[r.top_protocols@.len() - 1].packet_count),
            r.interface_metrics == interface_metrics,
            r.uptime == sat_sub_u64(now, self.start_time),
            r.start_time == self.start_time,
    {
        let (pps, bps) = self.calculate_rates(now);
        let records = analyzer.get_protocol_statistics();
        let mut distribution: Vec<ProtocolInfo> = Vec::new();
        let rn = records.len();
        let mut i: usize = 0;
        while i < rn
            invariant
                0 <= i <= rn == analyzer.spec_records().len(),
                records@ == analyzer.spec_records(),
                distribution@ == analyzer.spec_records().take(i as int),
            decreases rn - i,
        {
            distribution.push(records[i]);
            proof {
                assert(distribution@ =~= analyzer.spec_records().take(i + 1));
            }
            i = i + 1;
        }
        proof {
            assert(analyzer.spec_records().take(rn as int) =~= analyzer.spec_records());
        }
        let top = analyzer.get_top_protocols(10);
        let uptime = now.saturating_sub(self.start_time);
        NetworkStatistics {
            total_packets: self.total_packets,
            total_bytes: self.total_bytes,
            packets_per_second: pps,
            bytes_per_second: bps,
            active_connections,
            protocol_distribution: distribution,
            top_protocols: top,
            interface_metrics,
            uptime,
            start_time: self.start_time,
        }
    }
}

impl InterfaceMetrics {
    /// The combined rate of both directions, saturating.
    pub fn get_total_rate_bps(&self) -> (r: u64)
        ensures
            r == sat_add_u64(self.rx_rate_bps, self.tx_rate_bps),
    {
        self.rx_rate_bps.saturating_add(self.tx_rate_bps)
    }

    /// The combined byte counters of both directions, saturating.
    pub fn get_total_bytes(&self) -> (r: u64)
        ensures
            r == sat_add_u64(self.rx_bytes, self.tx_bytes),
    {
        self.rx_bytes.saturating_add(self.tx_bytes)
    }

    /// The combined packet counters of both directions, saturating.
    pub fn get_total_packets(&self) -> (r: u64)
        ensures
            r == sat_add_u64(self.rx_packets, self.tx_packets),
    {
        self.rx_packets.saturating_add(self.tx_packets)
    }

    /// The combined error counters of both directions, saturating.
    pub fn get_total_errors(&self) -> (r: u64)
        ensures
            r == sat_add_u64(self.rx_errors, self.tx_errors),
    {
        self.rx_errors.saturating_add(self.tx_errors)
    }

    /// The combined drop counters of both directions, saturating.
    pub fn get_total_dropped(&self) -> (r: u64)
        ensures
            r == sat_add_u64(self.rx_dropped, self.tx_dropped),
    {
        self.rx_dropped.saturating_add(self.tx_dropped)
    }
}

impl NetworkStatistics {
    /// The most active protocol, if any.
    pub fn get_top_protocol(&self) -> (r: Option<crate::protocols::ProtocolType>)
        ensures
            self.top_protocols@.len() == 0 ==> r is None,
            self.top_protocols@.len() > 0 ==> r == Some(self.top_protocols@[0].protocol_type),
    {
        if self.top_protocols.len() > 0 {
            Some(self.top_protocols[0].protocol_type)
        } else {
            None
        }
    }

    /// The share of all packets the protocol's first record accounts for,
    /// in whole percent capped at one hundred; zero where the protocol is
    /// unseen or nothing moved.
    pub fn get_protocol_percentage(&self, protocol: &crate::protocols::ProtocolType) -> (r: u64)
        ensures
            self.total_packets == 0 ==> r == 0,
            self.total_packets > 0 ==> r == ({
                let at = spec_find_proto(self.protocol_distribution@, *protocol, 0);
                if at < self.protocol_distribution@.len() {
                    crate::analyzer::spec_share(
                        self.protocol_distribution@[at].packet_count,
                        self.total_packets,
                    )
                } else {
                    0u64
                }
            }),
    {
        if self.total_packets == 0 {
            return 0;
        }
        let n = self.protocol_distribution.len();
        let mut i: usize = 0;
        while i < n
            invariant
                0 <= i <= n == self.protocol_distribution@.len(),
                self.total_packets != 0,
                forall|j: int|
                    0 <= j < i ==> (#[trigger] self.protocol_distribution@[j]).protocol_type
                        != *protocol,
            decreases n - i,
        {
            if self.protocol_distribution[i].protocol_type == *protocol {
                proof {
                    lemma_find_proto_scan(self.protocol_distribution@, *protocol, 0, i as int);
                }
                let count = self.protocol_distribution[i].packet_count;
                let wide: u128 = (count as u128) * 100 / (self.total_packets as u128);
                if wide > 100 {
                    return 100;
                }
                return wide as u64;
            }
            i = i + 1;
        }
        proof {
            lemma_find_proto_scan(self.protocol_distribution@, *protocol, 0, n as int);
        }
        0
    }

    /// The combined rate of every interface, saturating.
    pub fn get_total_interface_rate(&self) -> (r: u64)
        ensures
            r == spec_iface_rate_total(self.interface_metrics@),
    {
        let n = self.interface_metrics.len();
        let mut total: u64 = 0;
        proof {
            assert(self.interface_metrics@.take(0) =~= Seq::<InterfaceMetrics>::empty());
        }
        let mut i: usize = 0;
        while i < n
            invariant
                0 <= i <= n == self.interface_metrics@.len(),
                total == spec_iface_rate_total(self.interface_metrics@.take(i as int)),
            decreases n - i,
        {
            proof {
                assert(self.interface_metrics@.take(i + 1).drop_last()
                    =~= self.interface_metrics@.take(i as int));
                assert(self.interface_metrics@.take(i + 1).last()
                    == self.interface_metrics@[i as int]);
            }
            let m = &self.interface_metrics[i];
            total = total.saturating_add(m.rx_rate_bps).saturating_add(m.tx_rate_bps);
            i = i + 1;
        }
        proof {
            assert(self.interface_metrics@.take(n as int) =~= self.interface_metrics@);
        }
        total
    }
}

} // verus!
