//! The traffic analyzer: bandwidth samples, protocol breakdown, and
//! pattern detection.
//!
//! Once per sample interval the analyzer takes a bandwidth sample over the
//! active flows, derives the protocol breakdown, and runs four detectors:
//! burst, denial-of-service, port scan, and anomaly. Between intervals the
//! last full result is served from the cache.

use vstd::prelude::*;
use crate::flows::{FlowDirection, TrafficFlow};
use crate::net::{IpAddress, PairKey};
use crate::protocols::ProtocolType;
use crate::{sat_add_u64, spec_ring_append};

verus! {

/// The kinds of traffic pattern the detectors report.
#[derive(Clone, Copy, Debug, PartialEq, Eq, Structural)]
pub enum PatternType {
    BurstTraffic,
    SteadyStream,
    PeriodicSpikes,
    AnomalousActivity,
    DDoSPattern,
    PortScan,
    DataExfiltration,
}

/// How severe a world region's traffic is considered; reserved for the
/// geographic extension point.
#[derive(Clone, Copy, Debug, PartialEq, Eq, Structural)]
pub enum ThreatLevel {
    Low,
    Medium,
    High,
    Critical,
}

/// One detected pattern.
#[derive(Clone, Debug)]
pub struct TrafficPattern {
    pub pattern_type: PatternType,
    /// Confidence in whole percent.
    pub confidence_percent: u8,
    pub detected_at: u64,
    /// The offending source, where the pattern names one.
    pub source: Option<IpAddress>,
    pub related_flows: Vec<PairKey>,
}

/// Copy a pattern.
pub fn clone_pattern(p: &TrafficPattern) -> (r: TrafficPattern)
    ensures
        r.pattern_type == p.pattern_type,
        r.confidence_percent == p.confidence_percent,
        r.detected_at == p.detected_at,
        r.source == p.source,
        r.related_flows@ == p.related_flows@,
{
    let mut flows: Vec<PairKey> = Vec::new();
    let n = p.related_flows.len();
    let mut i: usize = 0;
    while i < n
        invariant
            0 <= i <= n == p.related_flows@.len(),
            flows@ == p.related_flows@.take(i as int),
        decreases n - i,
    {
        flows.push(p.related_flows[i]);
        proof {
            assert(flows@ =~= p.related_flows@.take(i + 1));
        }
        i = i + 1;
    }
    proof {
        assert(p.related_flows@.take(n as int) =~= p.related_flows@);
        assert(flows@ == p.related_flows@);
    }
    TrafficPattern {
        pattern_type: p.pattern_type,
        confidence_percent: p.confidence_percent,
        detected_at: p.detected_at,
        source: p.source,
        related_flows: flows,
    }
}

/// One per-tick bandwidth record.
#[derive(Clone, Copy, Debug)]
pub struct BandwidthSample {
    pub timestamp: u64,
    pub total_bps: u64,
    pub inbound_bps: u64,
    pub outbound_bps: u64,
    pub internal_bps: u64,
}

/// The per-direction byte-rate sums of a flow set, saturating, as
/// (inbound, outbound, internal).
pub open spec fn spec_direction_rates(s: Seq<TrafficFlow>) -> (u64, u64, u64)
    decreases s.len(),
{
    if s.len() == 0 {
        (0u64, 0u64, 0u64)
    } else {
        let rest = spec_direction_rates(s.drop_last());
        let f = s.last();
        match f.direction {
            FlowDirection::Inbound => (sat_add_u64(rest.0, f.bytes_per_second), rest.1, rest.2),
            FlowDirection::Outbound => (rest.0, sat_add_u64(rest.1, f.bytes_per_second), rest.2),
            FlowDirection::Internal => (rest.0, rest.1, sat_add_u64(rest.2, f.bytes_per_second)),
            FlowDirection::Unknown => rest,
        }
    }
}

/// The number of flows whose source address is the given one.
pub open spec fn spec_flows_from(s: Seq<TrafficFlow>, ip: IpAddress) -> int
    decreases s.len(),
{
    if s.len() == 0 {
        0
    } else {
        spec_flows_from(s.drop_last(), ip) + if s.last().src_addr.ip == ip {
            1int
        } else {
            0int
        }
    }
}

/// The flow ids of the flows whose source address is the given one, in
/// held order.
pub open spec fn spec_flow_ids_from(s: Seq<TrafficFlow>, ip: IpAddress) -> Seq<PairKey>
    decreases s.len(),
{
    if s.len() == 0 {
        Seq::empty()
    } else {
        let rest = spec_flow_ids_from(s.drop_last(), ip);
        if s.last().src_addr.ip == ip {
            rest.push(s.last().flow_id)
        } else {
            rest
        }
    }
}

/// The distinct destination ports of the flows whose source address is
/// the given one, in order of first sight.
pub open spec fn spec_ports_from(s: Seq<TrafficFlow>, ip: IpAddress) -> Seq<u16>
    decreases s.len(),
{
    if s.len() == 0 {
        Seq::empty()
    } else {
        let rest = spec_ports_from(s.drop_last(), ip);
        if s.last().src_addr.ip == ip && !rest.contains(s.last().dst_addr.port) {
            rest.push(s.last().dst_addr.port)
        } else {
            rest
        }
    }
}

/// Whether a port vector holds a port.
fn port_list_contains(l: &Vec<u16>, port: u16) -> (r: bool)
    ensures
        r == l@.contains(port),
{
    let n = l.len();
    let mut i: usize = 0;
    while i < n
        invariant
            0 <= i <= n == l@.len(),
            forall|j: int| 0 <= j < i ==> l@[j] != port,
        decreases n - i,
    {
        if l[i] == port {
            return true;
        }
        i = i + 1;
    }
    false
}

/// The distinct destination ports seen from one source.
fn ports_from(flows: &Vec<TrafficFlow>, ip: &IpAddress) -> (r: Vec<u16>)
    ensures
        r@ == spec_ports_from(flows@, *ip),
{
    let n = flows.len();
    let mut out: Vec<u16> = Vec::new();
    proof {
        assert(flows@.take(0) =~= Seq::<TrafficFlow>::empty());
    }
    let mut i: usize = 0;
    while i < n
        invariant
            0 <= i <= n == flows@.len(),
            out@ == spec_ports_from(flows@.take(i as int), *ip),
        decreases n - i,
    {
        proof {
            assert(flows@.take(i + 1).drop_last() =~= flows@.take(i as int));
            assert(flows@.take(i + 1).last() == flows@[i as int]);
        }
        let f = flows[i];
        if f.src_addr.ip == *ip {
            if !port_list_contains(&out, f.dst_addr.port) {
                out.push(f.dst_addr.port);
            }
        }
        i = i + 1;
    }
    proof {
        assert(flows@.take(n as int) =~= flows@);
    }
    out
}

/// The flow ids of one source.
fn flow_ids_from(flows: &Vec<TrafficFlow>, ip: &IpAddress) -> (r: Vec<PairKey>)
    ensures
        r@ == spec_flow_ids_from(flows@, *ip),
{
    let n = flows.len();
    let mut out: Vec<PairKey> = Vec::new();
    proof {
        assert(flows@.take(0) =~= Seq::<TrafficFlow>::empty());
    }
    let mut i: usize = 0;
    while i < n
        invariant
            0 <= i <= n == flows@.len(),
            out@ == spec_flow_ids_from(flows@.take(i as int), *ip),
        decreases n - i,
    {
        proof {
            assert(flows@.take(i + 1).drop_last() =~= flows@.take(i as int));
            assert(flows@.take(i + 1).last() == flows@[i as int]);
        }
        let f = flows[i];
        if f.src_addr.ip == *ip {
            out.push(f.flow_id);
        }
        i = i + 1;
    }
    proof {
        assert(flows@.take(n as int) =~= flows@);
    }
    out
}

/// The number of flows from one source.
fn count_flows_from(flows: &Vec<TrafficFlow>, ip: &IpAddress) -> (r: usize)
    ensures
        r == spec_flows_from(flows@, *ip),
{
    let n = flows.len();
    let mut count: usize = 0;
    proof {
        assert(flows@.take(0) =~= Seq::<TrafficFlow>::empty());
    }
    let mut i: usize = 0;
    while i < n
        invariant
            0 <= i <= n == flows@.len(),
            count == spec_flows_from(flows@.take(i as int), *ip),
            count <= i,
        decreases n - i,
    {
        proof {
            assert(flows@.take(i + 1).drop_last() =~= flows@.take(i as int));
            assert(flows@.take(i + 1).last() == flows@[i as int]);
        }
        if flows[i].src_addr.ip == *ip {
            count = count + 1;
        }
        i = i + 1;
    }
    proof {
        assert(flows@.take(n as int) =~= flows@);
    }
    count
}

/// Detect a port scan: a source covering more than twenty distinct
/// destination ports. At most one pattern is reported, naming the first
/// such source in flow order; where no source qualifies, nothing is.
pub fn detect_port_scan_pattern(flows: &Vec<TrafficFlow>, now: u64) -> (r: Option<TrafficPattern>)
    ensures
        (r matches Some(p) ==> {
            &&& p.pattern_type is PortScan
            &&& p.confidence_percent == 85
            &&& p.detected_at == now
            &&& (p.source matches Some(ip) && spec_ports_from(flows@, ip).len() > 20
                && p.related_flows@ == spec_flow_ids_from(flows@, ip) && exists|i: int|
                0 <= i < flows@.len() && (#[trigger] flows@[i]).src_addr.ip == ip)
        }),
        (r is None ==> forall|i: int|
            0 <= i < flows@.len() ==> spec_ports_from(
                flows@,
                (#[trigger] flows@[i]).src_addr.ip,
            ).len() <= 20),
{
    let n = flows.len();
    let mut i: usize = 0;
    while i < n
        invariant
            0 <= i <= n == flows@.len(),
            forall|j: int|
                0 <= j < i ==> spec_ports_from(flows@, (#[trigger] flows@[j]).src_addr.ip).len()
                    <= 20,
        decreases n - i,
    {
        let ip = flows[i].src_addr.ip;
        let ports = ports_from(flows, &ip);
        if ports.len() > 20 {
            let ids = flow_ids_from(flows, &ip);
            proof {
                assert(flows@[i as int].src_addr.ip == ip);
            }
            return Some(
                TrafficPattern {
                    pattern_type: PatternType::PortScan,
                    confidence_percent: 85,
                    detected_at: now,
                    source: Some(ip),
                    related_flows: ids,
                },
            );
        }
        i = i + 1;
    }
    None
}

/// Detect a denial-of-service pattern: a source with more flows than the
/// threshold. At most one pattern is reported, naming the first such
/// source in flow order; where no source qualifies, nothing is.
pub fn detect_ddos_pattern(flows: &Vec<TrafficFlow>, threshold: usize, now: u64) -> (r: Option<
    TrafficPattern,
>)
    ensures
        (r matches Some(p) ==> {
            &&& p.pattern_type is DDoSPattern
            &&& p.confidence_percent == 90
            &&& p.detected_at == now
            &&& (p.source matches Some(ip) && spec_flows_from(flows@, ip) > threshold
                && p.related_flows@ == spec_flow_ids_from(flows@, ip) && exists|i: int|
                0 <= i < flows@.len() && (#[trigger] flows@[i]).src_addr.ip == ip)
        }),
        (r is None ==> forall|i: int|
            0 <= i < flows@.len() ==> spec_flows_from(flows@, (#[trigger] flows@[i]).src_addr.ip)
                <= threshold),
{
    let n = flows.len();
    let mut i: usize = 0;
    while i < n
        invariant
            0 <= i <= n == flows@.len(),
            forall|j: int|
                0 <= j < i ==> spec_flows_from(flows@, (#[trigger] flows@[j]).src_addr.ip)
                    <= threshold,
        decreases n - i,
    {
        let ip = flows[i].src_addr.ip;
        let count = count_flows_from(flows, &ip);
        if count > threshold {
            let ids = flow_ids_from(flows, &ip);
            proof {
                assert(flows@[i as int].src_addr.ip == ip);
            }
            return Some(
                TrafficPattern {
                    pattern_type: PatternType::DDoSPattern,
                    confidence_percent: 90,
                    detected_at: now,
                    source: Some(ip),
                    related_flows: ids,
                },
            );
        }
        i = i + 1;
    }
    None
}

/// The sum of the total rates of the last `k` samples, as a mathematical
/// integer.
pub open spec fn spec_recent_sum(s: Seq<BandwidthSample>, k: int) -> int
    decreases k,
    when k >= 0
{
    if k <= 0 || s.len() == 0 {
        0
    } else {
        s.last().total_bps + spec_recent_sum(s.drop_last(), k - 1)
    }
}

/// Detect a traffic burst: with at least ten samples held, the newest
/// sample's rate exceeds the threshold times the mean of the last ten.
pub fn detect_burst_pattern(samples: &Vec<BandwidthSample>, threshold: u64, now: u64) -> (r:
    Option<TrafficPattern>)
    ensures
        (r is Some <==> samples@.len() >= 10 && samples@.last().total_bps * 10 > threshold
            * spec_recent_sum(samples@, 10)),
        (r matches Some(p) ==> {
            &&& p.pattern_type is BurstTraffic
            &&& p.confidence_percent == 80
            &&& p.detected_at == now
            &&& p.source is None
            &&& p.related_flows@.len() == 0
        }),
{
    let n = samples.len();
    if n < 10 {
        return None;
    }
    let current = samples[n - 1].total_bps;
    let mut sum: u128 = 0;
    let mut k: usize = 0;
    while k < 10
        invariant
            0 <= k <= 10,
            n == samples@.len(),
            n >= 10,
            sum == spec_recent_sum(samples@, k as int),
            sum <= (k as int) * 0xFFFFFFFFFFFFFFFF,
        decreases 10 - k,
    {
        proof {
            lemma_recent_sum_step(samples@, k as int);
        }
        sum = sum + (samples[n - 1 - k].total_bps as u128);
        k = k + 1;
    }
    let lhs: u128 = (current as u128) * 10;
    let t: u128 = threshold as u128;
    let rhs_sat: u128 = if t != 0 && sum != 0 && t > u128::MAX / sum {
        u128::MAX
    } else {
        proof {
            assert(t as int * sum as int <= u128::MAX) by (nonlinear_arith)
                requires
                    t as int >= 0,
                    sum as int >= 0,
                    t as int == 0 || sum as int == 0 || t as int <= u128::MAX as int
                        / sum as int,
            ;
        }
        t * sum
    };
    proof {
        if t != 0 && sum != 0 && t > u128::MAX / sum {
            assert(t as int * sum as int > u128::MAX) by (nonlinear_arith)
                requires
                    t as int >= 1,
                    sum as int >= 1,
                    t as int > u128::MAX as int / sum as int,
            ;
            assert(lhs as int <= u128::MAX);
        }
        assert((lhs > rhs_sat) == (current as int * 10 > threshold as int * spec_recent_sum(
            samples@,
            10,
        )));
    }
    if lhs > rhs_sat {
        Some(
            TrafficPattern {
                pattern_type: PatternType::BurstTraffic,
                confidence_percent: 80,
                detected_at: now,
                source: None,
                related_flows: Vec::new(),
            },
        )
    } else {
        None
    }
}

/// One step of summing the last samples from the newest backwards.
proof fn lemma_recent_sum_step(s: Seq<BandwidthSample>, k: int)
    requires
        0 <= k,
        k < s.len(),
    ensures
        spec_recent_sum(s, k + 1) == spec_recent_sum(s, k) + s[s.len() - 1 - k].total_bps,
    decreases k,
{
    if k == 0 {
        assert(spec_recent_sum(s, 1) == s.last().total_bps + spec_recent_sum(s.drop_last(), 0));
        assert(spec_recent_sum(s.drop_last(), 0) == 0);
        assert(spec_recent_sum(s, 0) == 0);
        assert(s.last() == s[s.len() - 1]);
    } else {
        lemma_recent_sum_step(s.drop_last(), k - 1);
        assert(s.drop_last()[s.drop_last().len() - 1 - (k - 1)] == s[s.len() - 1 - k]);
        assert(spec_recent_sum(s, k + 1) == s.last().total_bps + spec_recent_sum(
            s.drop_last(),
            k,
        ));
        assert(spec_recent_sum(s, k) == s.last().total_bps + spec_recent_sum(
            s.drop_last(),
            k - 1,
        ));
    }
}

/// Saturating addition on the range of unsigned 128-bit values, for sums
/// of squared deviations.
pub open spec fn sat_add_u128_int(a: int, b: int) -> int {
    if a + b > 0xFFFFFFFFFFFFFFFFFFFFFFFFFFFFFFFF {
        0xFFFFFFFFFFFFFFFFFFFFFFFFFFFFFFFF
    } else {
        a + b
    }
}

/// The squared deviation of one rate from the mean.
pub open spec fn spec_sq_dev(x: u64, mean: int) -> int {
    (x - mean) * (x - mean)
}

/// The saturating sum of squared deviations of the last `k` samples.
pub open spec fn spec_sq_dev_sum(s: Seq<BandwidthSample>, k: int, mean: int) -> int
    decreases k,
    when k >= 0
{
    if k <= 0 || s.len() == 0 {
        0
    } else {
        sat_add_u128_int(spec_sq_dev(s.last().total_bps, mean), spec_sq_dev_sum(s.drop_last(), k - 1, mean))
    }
}

/// The anomaly condition over the last sixty samples: the newest rate's
/// squared deviation from the mean exceeds the threshold squared times
/// the variance, all in integer arithmetic with a saturating sum of
/// squares.
pub open spec fn spec_anomaly_condition(s: Seq<BandwidthSample>, threshold: u64) -> bool {
    let mean = spec_recent_sum(s, 60) / 60;
    let var = spec_sq_dev_sum(s, 60, mean) / 60;
    let rhs = threshold * threshold * var;
    let capped = if rhs > 0xFFFFFFFFFFFFFFFFFFFFFFFFFFFFFFFF {
        0xFFFFFFFFFFFFFFFFFFFFFFFFFFFFFFFF
    } else {
        rhs
    };
    spec_sq_dev(s.last().total_bps, mean) > capped
}

/// The plain (non-saturating) sum of squared deviations of the last `k`
/// samples.
pub open spec fn spec_sq_dev_true(s: Seq<BandwidthSample>, k: int, mean: int) -> int
    decreases k,
    when k >= 0
{
    if k <= 0 || s.len() == 0 {
        0
    } else {
        spec_sq_dev(s.last().total_bps, mean) + spec_sq_dev_true(s.drop_last(), k - 1, mean)
    }
}

/// The saturating sum is the plain sum capped, provided every term is
/// nonnegative, which squared deviations are.
proof fn lemma_sq_dev_char(s: Seq<BandwidthSample>, k: int, mean: int)
    requires
        k >= 0,
    ensures
        spec_sq_dev_sum(s, k, mean) == if spec_sq_dev_true(s, k, mean)
            > 0xFFFFFFFFFFFFFFFFFFFFFFFFFFFFFFFF {
            0xFFFFFFFFFFFFFFFFFFFFFFFFFFFFFFFF
        } else {
            spec_sq_dev_true(s, k, mean)
        },
        spec_sq_dev_true(s, k, mean) >= 0,
    decreases k,
{
    if k > 0 && s.len() > 0 {
        lemma_sq_dev_char(s.drop_last(), k - 1, mean);
        let d = spec_sq_dev(s.last().total_bps, mean);
        assert(d >= 0) by (nonlinear_arith)
            requires
                d == (s.last().total_bps - mean) * (s.last().total_bps - mean),
        ;
    }
}

/// One step of the saturating squared-deviation sum, taken from the
/// newest sample backwards as a loop does.
proof fn lemma_sq_dev_sum_step(s: Seq<BandwidthSample>, k: int, mean: int)
    requires
        0 <= k < s.len(),
    ensures
        spec_sq_dev_sum(s, k + 1, mean) == sat_add_u128_int(
            spec_sq_dev_sum(s, k, mean),
            spec_sq_dev(s[s.len() - 1 - k].total_bps, mean),
        ),
    decreases k,
{
    if k == 0 {
        lemma_sq_dev_char(s, 1, mean);
        lemma_sq_dev_char(s, 0, mean);
        lemma_sq_dev_char(s.drop_last(), 0, mean);
        assert(spec_sq_dev(s[s.len() - 1].total_bps, mean) >= 0) by (nonlinear_arith)
            requires
                spec_sq_dev(s[s.len() - 1].total_bps, mean) == (s[s.len() - 1].total_bps - mean)
                    * (s[s.len() - 1].total_bps - mean),
        ;
    } else {
        lemma_sq_dev_sum_step(s.drop_last(), k - 1, mean);
        lemma_sq_dev_char(s, k + 1, mean);
        lemma_sq_dev_char(s, k, mean);
        lemma_sq_dev_char(s.drop_last(), k, mean);
        lemma_sq_dev_char(s.drop_last(), k - 1, mean);
        assert(s.drop_last()[s.drop_last().len() - 1 - (k - 1)] == s[s.len() - 1 - k]);
        assert(spec_sq_dev(s.last().total_bps, mean) >= 0) by (nonlinear_arith)
            requires
                spec_sq_dev(s.last().total_bps, mean) == (s.last().total_bps - mean) * (
                s.last().total_bps - mean),
        ;
        assert(spec_sq_dev(s[s.len() - 1 - k].total_bps, mean) >= 0) by (nonlinear_arith)
            requires
                spec_sq_dev(s[s.len() - 1 - k].total_bps, mean) == (s[s.len() - 1
                    - k].total_bps - mean) * (s[s.len() - 1 - k].total_bps - mean),
        ;
    }
}

/// Detect an anomaly: with at least sixty samples held, the newest rate
/// strays from the mean by more than the threshold allows.
#[verifier::loop_isolation(false)]
pub fn detect_anomaly_pattern(samples: &Vec<BandwidthSample>, threshold: u64, now: u64) -> (r:
    Option<TrafficPattern>)
    ensures
        (r is Some <==> samples@.len() >= 60 && spec_anomaly_condition(samples@, threshold)),
        (r matches Some(p) ==> {
            &&& p.pattern_type is AnomalousActivity
            &&& p.confidence_percent == 70
            &&& p.detected_at == now
            &&& p.source is None
            &&& p.related_flows@.len() == 0
        }),
{
    let n = samples.len();
    if n < 60 {
        return None;
    }
    let mut sum: u128 = 0;
    let mut k: usize = 0;
    while k < 60
        invariant
            0 <= k <= 60,
            n == samples@.len(),
            n >= 60,
            sum == spec_recent_sum(samples@, k as int),
            sum <= (k as int) * 0xFFFFFFFFFFFFFFFF,
        decreases 60 - k,
    {
        proof {
            lemma_recent_sum_step(samples@, k as int);
        }
        sum = sum + (samples[n - 1 - k].total_bps as u128);
        k = k + 1;
    }
    let mean: u128 = sum / 60;
    proof {
        assert(mean <= 0xFFFFFFFFFFFFFFFF * 60 / 60) by (nonlinear_arith)
            requires
                sum as int <= 60 * 0xFFFFFFFFFFFFFFFF,
                mean as int == sum as int / 60,
        ;
    }
    let ghost smean = spec_recent_sum(samples@, 60) / 60;
    let mut sq: u128 = 0;
    let mut j: usize = 0;
    while j < 60
        invariant
            0 <= j <= 60,
            n == samples@.len(),
            n >= 60,
            mean as int == smean,
            mean <= 0xFFFFFFFFFFFFFFFF,
            sq == spec_sq_dev_sum(samples@, j as int, smean),
        decreases 60 - j,
    {
        let x = samples[n - 1 - j].total_bps;
        let diff: u128 = if (x as u128) >= mean {
            (x as u128) - mean
        } else {
            mean - (x as u128)
        };
        proof {
            assert(diff as int * diff as int == spec_sq_dev(x, smean)) by (nonlinear_arith)
                requires
                    diff as int == if x as int >= smean {
                        x as int - smean
                    } else {
                        smean - x as int
                    },
                    spec_sq_dev(x, smean) == (x as int - smean) * (x as int - smean),
            ;
            assert(diff as int * diff as int <= 0xFFFFFFFFFFFFFFFFFFFFFFFFFFFFFFFF)
                by (nonlinear_arith)
                requires
                    0 <= diff as int <= 0xFFFFFFFFFFFFFFFF,
            ;
        }
        let term: u128 = diff * diff;
        sq = sq.saturating_add(term);
        proof {
            lemma_sq_dev_sum_step(samples@, j as int, smean);
        }
        j = j + 1;
    }
    let var: u128 = sq / 60;
    let cur = samples[n - 1].total_bps;
    let curdiff: u128 = if (cur as u128) >= mean {
        (cur as u128) - mean
    } else {
        mean - (cur as u128)
    };
    proof {
        assert(curdiff as int * curdiff as int == spec_sq_dev(cur, smean)) by (nonlinear_arith)
            requires
                curdiff as int == if cur as int >= smean {
                    cur as int - smean
                } else {
                    smean - cur as int
                },
                spec_sq_dev(cur, smean) == (cur as int - smean) * (cur as int - smean),
        ;
        assert(curdiff as int * curdiff as int <= 0xFFFFFFFFFFFFFFFFFFFFFFFFFFFFFFFF)
            by (nonlinear_arith)
            requires
                0 <= curdiff as int <= 0xFFFFFFFFFFFFFFFF,
        ;
    }
    let lhs: u128 = curdiff * curdiff;
    proof {
        assert((threshold as int) * (threshold as int) <= 0xFFFFFFFFFFFFFFFF
            * 0xFFFFFFFFFFFFFFFF) by (nonlinear_arith)
            requires
                0 <= threshold as int <= 0xFFFFFFFFFFFFFFFF,
        ;
    }
    let t2: u128 = (threshold as u128) * (threshold as u128);
    let rhs_sat: u128 = if var != 0 && t2 != 0 && t2 > u128::MAX / var {
        u128::MAX
    } else {
        proof {
            assert(t2 as int * var as int <= u128::MAX) by (nonlinear_arith)
                requires
                    t2 as int >= 0,
                    var as int >= 0,
                    t2 as int == 0 || var as int == 0 || t2 as int <= u128::MAX as int
                        / var as int,
            ;
        }
        t2 * var
    };
    proof {
        if var != 0 && t2 != 0 && t2 > u128::MAX / var {
            assert(t2 as int * var as int > u128::MAX) by (nonlinear_arith)
                requires
                    t2 as int >= 1,
                    var as int >= 1,
                    t2 as int > u128::MAX as int / var as int,
            ;
        }
        assert(t2 as int == threshold * threshold);
        assert((lhs > rhs_sat) == spec_anomaly_condition(samples@, threshold));
    }
    if lhs > rhs_sat {
        Some(
            TrafficPattern {
                pattern_type: PatternType::AnomalousActivity,
                confidence_percent: 70,
                detected_at: now,
                source: None,
                related_flows: Vec::new(),
            },
        )
    } else {
        None
    }
}


/// The highest total rate among the last `k` samples.
pub open spec fn spec_recent_max(s: Seq<BandwidthSample>, k: int) -> u64
    decreases k,
    when k >= 0
{
    if k <= 0 || s.len() == 0 {
        0
    } else {
        let rest = spec_recent_max(s.drop_last(), k - 1);
        if s.last().total_bps >= rest {
            s.last().total_bps
        } else {
            rest
        }
    }
}

/// One step of the running maximum from the newest sample backwards.
proof fn lemma_recent_max_step(s: Seq<BandwidthSample>, k: int)
    requires
        0 <= k < s.len(),
    ensures
        spec_recent_max(s, k + 1) == if s[s.len() - 1 - k].total_bps >= spec_recent_max(s, k) {
            s[s.len() - 1 - k].total_bps
        } else {
            spec_recent_max(s, k)
        },
    decreases k,
{
    if k == 0 {
        assert(spec_recent_max(s, 0) == 0);
        assert(spec_recent_max(s.drop_last(), 0) == 0);
        assert(s.last() == s[s.len() - 1]);
    } else {
        lemma_recent_max_step(s.drop_last(), k - 1);
        assert(s.drop_last()[s.drop_last().len() - 1 - (k - 1)] == s[s.len() - 1 - k]);
        assert(s.last() == s[s.len() - 1]);
    }
}

/// The bandwidth view of one analysis round.
#[derive(Clone, Debug)]
pub struct BandwidthAnalysis {
    pub total_bandwidth: u64,
    pub inbound_bandwidth: u64,
    pub outbound_bandwidth: u64,
    pub internal_bandwidth: u64,
    /// The highest recent total rate.
    pub peak_bandwidth: u64,
    /// The mean recent total rate.
    pub average_bandwidth: u64,
    /// Share of a nominal gigabit link, in whole percent capped at one
    /// hundred.
    pub utilization_percent: u64,
    pub bandwidth_history: Vec<BandwidthSample>,
}

/// Derive the bandwidth view from the sample ring: the newest sample's
/// rates, the peak and mean over the last three hundred samples, the
/// share of a nominal gigabit link, and a copy of the ring.
#[verifier::loop_isolation(false)]
pub fn analyze_bandwidth(samples: &Vec<BandwidthSample>) -> (r: BandwidthAnalysis)
    ensures
        samples@.len() == 0 ==> r.total_bandwidth == 0 && r.peak_bandwidth == 0
            && r.average_bandwidth == 0 && r.utilization_percent == 0,
        samples@.len() > 0 ==> {
            let latest = samples@.last();
            let window = if samples@.len() < 300 {
                samples@.len() as int
            } else {
                300int
            };
            &&& r.total_bandwidth == latest.total_bps
            &&& r.inbound_bandwidth == latest.inbound_bps
            &&& r.outbound_bandwidth == latest.outbound_bps
            &&& r.internal_bandwidth == latest.internal_bps
            &&& r.peak_bandwidth == spec_recent_max(samples@, window)
            &&& r.average_bandwidth == spec_recent_sum(samples@, window) / window
            &&& r.utilization_percent == {
                let pct = latest.total_bps as int * 100 / 1000000000;
                if pct > 100 {
                    100int
                } else {
                    pct
                }
            }
        },
        r.bandwidth_history@ == samples@,
{
    let n = samples.len();
    let mut history: Vec<BandwidthSample> = Vec::new();
    proof {
        assert(samples@.take(0) =~= Seq::<BandwidthSample>::empty());
    }
    let mut h: usize = 0;
    while h < n
        invariant
            0 <= h <= n == samples@.len(),
            history@ == samples@.take(h as int),
        decreases n - h,
    {
        history.push(samples[h]);
        proof {
            assert(history@ =~= samples@.take(h + 1));
        }
        h = h + 1;
    }
    proof {
        assert(samples@.take(n as int) =~= samples@);
    }
    if n == 0 {
        return BandwidthAnalysis {
            total_bandwidth: 0,
            inbound_bandwidth: 0,
            outbound_bandwidth: 0,
            internal_bandwidth: 0,
            peak_bandwidth: 0,
            average_bandwidth: 0,
            utilization_percent: 0,
            bandwidth_history: history,
        };
    }
    let latest = samples[n - 1];
    let window: usize = if n < 300 {
        n
    } else {
        300
    };
    let mut peak: u64 = 0;
    let mut sum: u128 = 0;
    let mut k: usize = 0;
    while k < window
        invariant
            0 <= k <= window <= n == samples@.len(),
            window == if n < 300 {
                n as int
            } else {
                300int
            },
            peak == spec_recent_max(samples@, k as int),
            sum == spec_recent_sum(samples@, k as int),
            sum <= (k as int) * 0xFFFFFFFFFFFFFFFF,
        decreases window - k,
    {
        proof {
            lemma_recent_max_step(samples@, k as int);
            lemma_recent_sum_step(samples@, k as int);
        }
        let v = samples[n - 1 - k].total_bps;
        if v >= peak {
            peak = v;
        }
        sum = sum + (v as u128);
        k = k + 1;
    }
    let average: u64 = ((sum / (window as u128)) as u64);
    proof {
        assert(sum as int / window as int <= 0xFFFFFFFFFFFFFFFF) by (nonlinear_arith)
            requires
                window as int >= 1,
                0 <= sum as int <= window as int * 0xFFFFFFFFFFFFFFFF,
        ;
    }
    let pct_wide: u128 = (latest.total_bps as u128) * 100 / 1000000000;
    let utilization: u64 = if pct_wide > 100 {
        100
    } else {
        (pct_wide as u64)
    };
    BandwidthAnalysis {
        total_bandwidth: latest.total_bps,
        inbound_bandwidth: latest.inbound_bps,
        outbound_bandwidth: latest.outbound_bps,
        internal_bandwidth: latest.internal_bps,
        peak_bandwidth: peak,
        average_bandwidth: average,
        utilization_percent: utilization,
        bandwidth_history: history,
    }
}

/// Per-protocol accumulation over the active flows.
#[derive(Clone, Copy, Debug)]
pub struct ProtocolStats {
    pub protocol: ProtocolType,
    pub flow_count: usize,
    pub total_bytes: u64,
    pub total_packets: u64,
    pub bandwidth_bps: u64,
    pub packet_rate_pps: u64,
    /// Share of the total bandwidth, in whole percent capped at one
    /// hundred.
    pub percentage_of_total: u64,
}

/// The flow count of one protocol.
pub open spec fn spec_proto_flows(s: Seq<TrafficFlow>, t: ProtocolType) -> int
    decreases s.len(),
{
    if s.len() == 0 {
        0
    } else {
        spec_proto_flows(s.drop_last(), t) + if s.last().protocol == t {
            1int
        } else {
            0int
        }
    }
}

/// The saturating totals of one protocol, as (bytes, packets, byte rate,
/// packet rate).
pub open spec fn spec_proto_totals(s: Seq<TrafficFlow>, t: ProtocolType) -> (u64, u64, u64, u64)
    decreases s.len(),
{
    if s.len() == 0 {
        (0u64, 0u64, 0u64, 0u64)
    } else {
        let rest = spec_proto_totals(s.drop_last(), t);
        if s.last().protocol == t {
            (
                sat_add_u64(rest.0, s.last().byte_count),
                sat_add_u64(rest.1, s.last().packet_count),
                sat_add_u64(rest.2, s.last().bytes_per_second),
                sat_add_u64(rest.3, s.last().packets_per_second),
            )
        } else {
            rest
        }
    }
}

/// The protocol breakdown of one analysis round.
#[derive(Clone, Debug)]
pub struct ProtocolBreakdown {
    /// One entry per protocol among the flows.
    pub protocol_stats: Vec<ProtocolStats>,
    /// Protocols with their bandwidth shares, by falling share.
    pub top_protocols: Vec<(ProtocolType, u64)>,
    pub total_flows: usize,
    pub total_bandwidth: u64,
}

/// Derive the per-protocol breakdown: one entry per protocol among the
/// flows, with that protocol's flow count and saturating totals, its
/// share of the total bandwidth, and the shares ordered descending.
#[verifier::loop_isolation(false)]
pub fn analyze_protocols(flows: &Vec<TrafficFlow>) -> (r: ProtocolBreakdown)
    ensures
        r.total_flows == flows@.len(),
        r.total_bandwidth == crate::flows::spec_rate_totals(flows@).0,
        forall|a: int, b: int|
            0 <= a < b < r.protocol_stats@.len() ==> (#[trigger] r.protocol_stats@[a]).protocol
                != (#[trigger] r.protocol_stats@[b]).protocol,
        forall|a: int|
            0 <= a < r.protocol_stats@.len() ==> {
                let e = #[trigger] r.protocol_stats@[a];
                let totals = spec_proto_totals(flows@, e.protocol);
                &&& e.flow_count == spec_proto_flows(flows@, e.protocol)
                &&& e.total_bytes == totals.0
                &&& e.total_packets == totals.1
                &&& e.bandwidth_bps == totals.2
                &&& e.packet_rate_pps == totals.3
                &&& e.percentage_of_total == spec_share(e.bandwidth_bps, r.total_bandwidth)
            },
        forall|i: int|
            0 <= i < flows@.len() ==> exists|a: int|
                0 <= a < r.protocol_stats@.len() && (#[trigger] r.protocol_stats@[a]).protocol
                    == (#[trigger] flows@[i]).protocol,
        r.top_protocols@.len() == r.protocol_stats@.len(),
        forall|a: int, b: int|
            0 <= a <= b < r.top_protocols@.len() ==> (#[trigger] r.top_protocols@[a]).1 >= (
            #[trigger] r.top_protocols@[b]).1,
        forall|a: int|
            0 <= a < r.top_protocols@.len() ==> exists|e: int|
                0 <= e < r.protocol_stats@.len() && (#[trigger] r.top_protocols@[a]).0
                    == r.protocol_stats@[e].protocol && r.top_protocols@[a].1
                    == r.protocol_stats@[e].percentage_of_total,
{
    let n = flows.len();
    let mut entries: Vec<ProtocolStats> = Vec::new();
    proof {
        assert(flows@.take(0) =~= Seq::<TrafficFlow>::empty());
    }
    let mut i: usize = 0;
    while i < n
        invariant
            0 <= i <= n == flows@.len(),
            forall|a: int, b: int|
                0 <= a < b < entries@.len() ==> (#[trigger] entries@[a]).protocol != (
                #[trigger] entries@[b]).protocol,
            forall|a: int|
                0 <= a < entries@.len() ==> {
                    let e = #[trigger] entries@[a];
                    let totals = spec_proto_totals(flows@.take(i as int), e.protocol);
                    &&& e.flow_count == spec_proto_flows(flows@.take(i as int), e.protocol)
                    &&& e.total_bytes == totals.0
                    &&& e.total_packets == totals.1
                    &&& e.bandwidth_bps == totals.2
                    &&& e.packet_rate_pps == totals.3
                },
            forall|j: int|
                0 <= j < i ==> exists|a: int|
                    0 <= a < entries@.len() && (#[trigger] entries@[a]).protocol == (
                    #[trigger] flows@[j]).protocol,
            entries@.len() <= i,
            forall|a: int| 0 <= a < entries@.len() ==> (#[trigger] entries@[a]).flow_count <= i,
        decreases n - i,
    {
        proof {
            assert(flows@.take(i + 1).drop_last() =~= flows@.take(i as int));
            assert(flows@.take(i + 1).last() == flows@[i as int]);
        }
        let f = flows[i];
        let en = entries.len();
        let mut at: usize = 0;
        let mut found = false;
        let mut scan: usize = 0;
        while scan < en
            invariant
                0 <= scan <= en == entries@.len(),
                !found ==> forall|a: int| 0 <= a < scan ==> (#[trigger] entries@[a]).protocol
                    != f.protocol,
                found ==> at < scan && entries@[at as int].protocol == f.protocol,
            decreases en - scan,
        {
            if !found {
                if entries[scan].protocol == f.protocol {
                    found = true;
                    at = scan;
                }
            }
            scan = scan + 1;
        }
        let ghost before = entries@;
        if found {
            let e = entries[at];
            let updated = ProtocolStats {
                flow_count: e.flow_count + 1,
                total_bytes: e.total_bytes.saturating_add(f.byte_count),
                total_packets: e.total_packets.saturating_add(f.packet_count),
                bandwidth_bps: e.bandwidth_bps.saturating_add(f.bytes_per_second),
                packet_rate_pps: e.packet_rate_pps.saturating_add(f.packets_per_second),
                ..e
            };
            entries.set(at, updated);
            proof {
                assert forall|a: int|
                    0 <= a < entries@.len() implies {
                    let e2 = #[trigger] entries@[a];
                    let totals = spec_proto_totals(flows@.take(i + 1), e2.protocol);
                    &&& e2.flow_count == spec_proto_flows(flows@.take(i + 1), e2.protocol)
                    &&& e2.total_bytes == totals.0
                    &&& e2.total_packets == totals.1
                    &&& e2.bandwidth_bps == totals.2
                    &&& e2.packet_rate_pps == totals.3
                } by {
                    if a != at {
                        assert(entries@[a] == before[a]);
                        assert(before[a].protocol != f.protocol);
                    }
                }
                assert forall|j: int|
                    0 <= j < i + 1 implies exists|a: int|
                        0 <= a < entries@.len() && (#[trigger] entries@[a]).protocol == (
                        #[trigger] flows@[j]).protocol by {
                    if j < i {
                        let a = choose|a: int|
                            0 <= a < before.len() && (#[trigger] before[a]).protocol
                                == flows@[j].protocol;
                        assert(entries@[a].protocol == before[a].protocol);
                    } else {
                        assert(entries@[at as int].protocol == f.protocol);
                    }
                }
            }
        } else {
            let fresh = ProtocolStats {
                protocol: f.protocol,
                flow_count: 1,
                total_bytes: f.byte_count,
                total_packets: f.packet_count,
                bandwidth_bps: f.bytes_per_second,
                packet_rate_pps: f.packets_per_second,
                percentage_of_total: 0,
            };
            entries.push(fresh);
            proof {
                assert forall|a: int|
                    0 <= a < entries@.len() implies {
                    let e2 = #[trigger] entries@[a];
                    let totals = spec_proto_totals(flows@.take(i + 1), e2.protocol);
                    &&& e2.flow_count == spec_proto_flows(flows@.take(i + 1), e2.protocol)
                    &&& e2.total_bytes == totals.0
                    &&& e2.total_packets == totals.1
                    &&& e2.bandwidth_bps == totals.2
                    &&& e2.packet_rate_pps == totals.3
                } by {
                    if a < entries@.len() - 1 {
                        assert(entries@[a] == before[a]);
                        assert(before[a].protocol != f.protocol);
                    } else {
                        assert(entries@[a] == fresh);
                        assert(spec_proto_flows(flows@.take(i as int), f.protocol) == 0 && (
                        spec_proto_totals(flows@.take(i as int), f.protocol)) == (
                        0u64,
                        0u64,
                        0u64,
                        0u64,
                        )) by {
                            lemma_proto_absent(flows@.take(i as int), f.protocol, before);
                        }
                    }
                }
                assert forall|j: int|
                    0 <= j < i + 1 implies exists|a: int|
                        0 <= a < entries@.len() && (#[trigger] entries@[a]).protocol == (
                        #[trigger] flows@[j]).protocol by {
                    if j < i {
                        let a = choose|a: int|
                            0 <= a < before.len() && (#[trigger] before[a]).protocol
                                == flows@[j].protocol;
                        assert(entries@[a].protocol == before[a].protocol);
                    } else {
                        assert(entries@[entries@.len() - 1].protocol == f.protocol);
                    }
                }
            }
        }
        i = i + 1;
    }
    proof {
        assert(flows@.take(n as int) =~= flows@);
    }
    let totals = crate::flows::rate_totals(flows);
    let total_bw = totals.0;
    let ghost entries1 = entries@;
    let en2 = entries.len();
    let mut p: usize = 0;
    while p < en2
        invariant
            0 <= p <= en2 == entries@.len(),
            entries@.len() == entries1.len(),
            forall|a: int|
                0 <= a < entries@.len() ==> (#[trigger] entries@[a]) == (ProtocolStats {
                    percentage_of_total: entries@[a].percentage_of_total,
                    ..entries1[a]
                }),
            forall|a: int|
                0 <= a < p ==> (#[trigger] entries@[a]).percentage_of_total == spec_share(
                    entries1[a].bandwidth_bps,
                    total_bw,
                ),
        decreases en2 - p,
    {
        let e = entries[p];
        let pct: u64 = if total_bw == 0 {
            0
        } else {
            let wide: u128 = (e.bandwidth_bps as u128) * 100 / (total_bw as u128);
            if wide > 100 {
                100
            } else {
                (wide as u64)
            }
        };
        entries.set(p, ProtocolStats { percentage_of_total: pct, ..e });
        p = p + 1;
    }
    let ghost entries2 = entries@;
    let mut top: Vec<(ProtocolType, u64)> = Vec::new();
    let en3 = entries.len();
    let mut q: usize = 0;
    while q < en3
        invariant
            0 <= q <= en3 == entries@.len(),
            entries@ == entries2,
            top@.len() == q,
            forall|a: int, b: int|
                0 <= a <= b < top@.len() ==> (#[trigger] top@[a]).1 >= (#[trigger] top@[b]).1,
            forall|a: int|
                0 <= a < top@.len() ==> exists|e: int|
                    0 <= e < entries@.len() && (#[trigger] top@[a]).0 == entries@[e].protocol
                        && top@[a].1 == entries@[e].percentage_of_total,
        decreases en3 - q,
    {
        let e = entries[q];
        let item = (e.protocol, e.percentage_of_total);
        let mut pos: usize = 0;
        while pos < top.len() && top[pos].1 >= item.1
            invariant
                0 <= pos <= top@.len(),
                forall|k: int| 0 <= k < pos ==> (#[trigger] top@[k]).1 >= item.1,
            decreases top@.len() - pos,
        {
            pos = pos + 1;
        }
        let ghost tbefore = top@;
        top.insert(pos, item);
        proof {
            tbefore.insert_ensures(pos as int, item);
            assert forall|a: int, b: int|
                0 <= a <= b < top@.len() implies (#[trigger] top@[a]).1 >= (
            #[trigger] top@[b]).1 by {
                if a < pos {
                    assert(top@[a] == tbefore[a]);
                } else if a == pos {
                    assert(top@[a] == item);
                } else {
                    assert(top@[a] == tbefore[a - 1]);
                }
                if b < pos {
                    assert(top@[b] == tbefore[b]);
                } else if b == pos {
                    assert(top@[b] == item);
                } else {
                    assert(top@[b] == tbefore[b - 1]);
                }
                if b == pos && a < pos {
                    assert(tbefore[a].1 >= item.1);
                }
                if a == pos && b > pos {
                    assert(item.1 > tbefore[pos as int].1 || pos == tbefore.len());
                }
            }
            assert forall|a: int|
                0 <= a < top@.len() implies exists|e2: int|
                    0 <= e2 < entries@.len() && (#[trigger] top@[a]).0 == entries@[e2].protocol
                        && top@[a].1 == entries@[e2].percentage_of_total by {
                if a < pos {
                    assert(top@[a] == tbefore[a]);
                } else if a == pos {
                    assert(top@[a] == item);
                    assert(entries@[q as int].protocol == item.0);
                } else {
                    assert(top@[a] == tbefore[a - 1]);
                }
            }
        }
        q = q + 1;
    }
    proof {
        assert forall|j: int|
            0 <= j < flows@.len() implies exists|a: int|
                0 <= a < entries@.len() && (#[trigger] entries@[a]).protocol == (
                #[trigger] flows@[j]).protocol by {
            let a = choose|a: int|
                0 <= a < entries1.len() && (#[trigger] entries1[a]).protocol
                    == flows@[j].protocol;
            assert(entries@[a].protocol == entries1[a].protocol);
        }
    }
    ProtocolBreakdown { protocol_stats: entries, top_protocols: top, total_flows: n, total_bandwidth: total_bw }
}

/// The whole-percent share of a part in a total, capped at one hundred;
/// zero where the total is zero.
pub open spec fn spec_share(part: u64, total: u64) -> u64 {
    if total == 0 {
        0
    } else {
        let pct = part as int * 100 / total as int;
        if pct > 100 {
            100
        } else {
            pct as u64
        }
    }
}

/// A protocol absent from every flow of a prefix has zero counts there,
/// witnessed through the entry table that covers the prefix.
proof fn lemma_proto_absent(s: Seq<TrafficFlow>, t: ProtocolType, entries: Seq<ProtocolStats>)
    requires
        forall|j: int|
            0 <= j < s.len() ==> exists|a: int|
                0 <= a < entries.len() && (#[trigger] entries[a]).protocol == (
                #[trigger] s[j]).protocol,
        forall|a: int| 0 <= a < entries.len() ==> (#[trigger] entries[a]).protocol != t,
    ensures
        spec_proto_flows(s, t) == 0,
        spec_proto_totals(s, t) == (0u64, 0u64, 0u64, 0u64),
    decreases s.len(),
{
    if s.len() > 0 {
        assert forall|j: int|
            0 <= j < s.drop_last().len() implies exists|a: int|
                0 <= a < entries.len() && (#[trigger] entries[a]).protocol == (
                #[trigger] s.drop_last()[j]).protocol by {
            assert(s.drop_last()[j] == s[j]);
        }
        lemma_proto_absent(s.drop_last(), t, entries);
        assert(s.last() == s[s.len() - 1]);
        let a = choose|a: int|
            0 <= a < entries.len() && (#[trigger] entries[a]).protocol == s[s.len() - 1].protocol;
        assert(s.last().protocol != t);
    }
}

/// The geographic slot: an extension point the core leaves empty.
#[derive(Clone, Debug)]
pub struct GeographicAnalysis {
    pub top_countries: Vec<(String, usize)>,
    pub suspicious_regions: Vec<String>,
}

/// One analysis round's full result.
#[derive(Clone, Debug)]
pub struct TrafficAnalysisResult {
    pub bandwidth_analysis: BandwidthAnalysis,
    pub protocol_breakdown: ProtocolBreakdown,
    pub patterns: Vec<TrafficPattern>,
    pub geographic_analysis: GeographicAnalysis,
    pub analysis_timestamp: u64,
}

/// Whether two patterns carry the same fields, the related flows compared
/// as sequences.
pub open spec fn spec_pattern_matches(a: TrafficPattern, b: TrafficPattern) -> bool {
    &&& a.pattern_type == b.pattern_type
    &&& a.confidence_percent == b.confidence_percent
    &&& a.detected_at == b.detected_at
    &&& a.source == b.source
    &&& a.related_flows@ == b.related_flows@
}

/// Whether two results agree on their scalar content and sizes.
pub open spec fn spec_result_matches(a: TrafficAnalysisResult, b: TrafficAnalysisResult) -> bool {
    &&& a.bandwidth_analysis.total_bandwidth == b.bandwidth_analysis.total_bandwidth
    &&& a.bandwidth_analysis.inbound_bandwidth == b.bandwidth_analysis.inbound_bandwidth
    &&& a.bandwidth_analysis.outbound_bandwidth == b.bandwidth_analysis.outbound_bandwidth
    &&& a.bandwidth_analysis.internal_bandwidth == b.bandwidth_analysis.internal_bandwidth
    &&& a.bandwidth_analysis.peak_bandwidth == b.bandwidth_analysis.peak_bandwidth
    &&& a.bandwidth_analysis.average_bandwidth == b.bandwidth_analysis.average_bandwidth
    &&& a.bandwidth_analysis.utilization_percent == b.bandwidth_analysis.utilization_percent
    &&& a.bandwidth_analysis.bandwidth_history@ == b.bandwidth_analysis.bandwidth_history@
    &&& a.protocol_breakdown.protocol_stats@ == b.protocol_breakdown.protocol_stats@
    &&& a.protocol_breakdown.top_protocols@ == b.protocol_breakdown.top_protocols@
    &&& a.protocol_breakdown.total_flows == b.protocol_breakdown.total_flows
    &&& a.protocol_breakdown.total_bandwidth == b.protocol_breakdown.total_bandwidth
    &&& a.patterns@.len() == b.patterns@.len()
    &&& (forall|j: int|
        0 <= j < a.patterns@.len() ==> spec_pattern_matches(
            #[trigger] a.patterns@[j],
            b.patterns@[j],
        ))
    &&& a.analysis_timestamp == b.analysis_timestamp
}

/// Copy an analysis result.
fn clone_result(r: &TrafficAnalysisResult) -> (c: TrafficAnalysisResult)
    ensures
        spec_result_matches(c, *r),
{
    let mut history: Vec<BandwidthSample> = Vec::new();
    let hn = r.bandwidth_analysis.bandwidth_history.len();
    let mut i: usize = 0;
    while i < hn
        invariant
            0 <= i <= hn == r.bandwidth_analysis.bandwidth_history@.len(),
            history@ == r.bandwidth_analysis.bandwidth_history@.take(i as int),
        decreases hn - i,
    {
        history.push(r.bandwidth_analysis.bandwidth_history[i]);
        proof {
            assert(history@ =~= r.bandwidth_analysis.bandwidth_history@.take(i + 1));
        }
        i = i + 1;
    }
    proof {
        assert(r.bandwidth_analysis.bandwidth_history@.take(hn as int)
            =~= r.bandwidth_analysis.bandwidth_history@);
    }
    let mut entries: Vec<ProtocolStats> = Vec::new();
    let en = r.protocol_breakdown.protocol_stats.len();
    let mut j: usize = 0;
    while j < en
        invariant
            0 <= j <= en == r.protocol_breakdown.protocol_stats@.len(),
            entries@ == r.protocol_breakdown.protocol_stats@.take(j as int),
        decreases en - j,
    {
        entries.push(r.protocol_breakdown.protocol_stats[j]);
        proof {
            assert(entries@ =~= r.protocol_breakdown.protocol_stats@.take(j + 1));
        }
        j = j + 1;
    }
    proof {
        assert(r.protocol_breakdown.protocol_stats@.take(en as int)
            =~= r.protocol_breakdown.protocol_stats@);
    }
    let mut top: Vec<(ProtocolType, u64)> = Vec::new();
    let tn = r.protocol_breakdown.top_protocols.len();
    let mut k: usize = 0;
    while k < tn
        invariant
            0 <= k <= tn == r.protocol_breakdown.top_protocols@.len(),
            top@ == r.protocol_breakdown.top_protocols@.take(k as int),
        decreases tn - k,
    {
        top.push(r.protocol_breakdown.top_protocols[k]);
        proof {
            assert(top@ =~= r.protocol_breakdown.top_protocols@.take(k + 1));
        }
        k = k + 1;
    }
    proof {
        assert(r.protocol_breakdown.top_protocols@.take(tn as int)
            =~= r.protocol_breakdown.top_protocols@);
    }
    let mut patterns: Vec<TrafficPattern> = Vec::new();
    let pn = r.patterns.len();
    let mut m: usize = 0;
    while m < pn
        invariant
            0 <= m <= pn == r.patterns@.len(),
            patterns@.len() == m,
            forall|x: int|
                0 <= x < m ==> spec_pattern_matches(#[trigger] patterns@[x], r.patterns@[x]),
        decreases pn - m,
    {
        patterns.push(clone_pattern(&r.patterns[m]));
        m = m + 1;
    }
    TrafficAnalysisResult {
        bandwidth_analysis: BandwidthAnalysis {
            total_bandwidth: r.bandwidth_analysis.total_bandwidth,
            inbound_bandwidth: r.bandwidth_analysis.inbound_bandwidth,
            outbound_bandwidth: r.bandwidth_analysis.outbound_bandwidth,
            internal_bandwidth: r.bandwidth_analysis.internal_bandwidth,
            peak_bandwidth: r.bandwidth_analysis.peak_bandwidth,
            average_bandwidth: r.bandwidth_analysis.average_bandwidth,
            utilization_percent: r.bandwidth_analysis.utilization_percent,
            bandwidth_history: history,
        },
        protocol_breakdown: ProtocolBreakdown {
            protocol_stats: entries,
            top_protocols: top,
            total_flows: r.protocol_breakdown.total_flows,
            total_bandwidth: r.protocol_breakdown.total_bandwidth,
        },
        patterns,
        geographic_analysis: GeographicAnalysis {
            top_countries: Vec::new(),
            suspicious_regions: Vec::new(),
        },
        analysis_timestamp: r.analysis_timestamp,
    }
}

/// Take one bandwidth sample over the active flows: the per-direction
/// saturating rate sums, their saturating total, and the time.
pub fn collect_bandwidth_sample(flows: &Vec<crate::flows::TrafficFlow>, now: u64) -> (r:
    BandwidthSample)
    ensures
        ({
            let rates = spec_direction_rates(flows@);
            &&& r.timestamp == now
            &&& r.inbound_bps == rates.0
            &&& r.outbound_bps == rates.1
            &&& r.internal_bps == rates.2
            &&& r.total_bps == sat_add_u64(sat_add_u64(rates.0, rates.1), rates.2)
        }),
{
    let n = flows.len();
    let mut inbound: u64 = 0;
    let mut outbound: u64 = 0;
    let mut internal: u64 = 0;
    proof {
        assert(flows@.take(0) =~= Seq::<crate::flows::TrafficFlow>::empty());
    }
    let mut i: usize = 0;
    while i < n
        invariant
            0 <= i <= n == flows@.len(),
            (inbound, outbound, internal) == spec_direction_rates(flows@.take(i as int)),
        decreases n - i,
    {
        proof {
            assert(flows@.take(i + 1).drop_last() =~= flows@.take(i as int));
            assert(flows@.take(i + 1).last() == flows@[i as int]);
        }
        let f = flows[i];
        match f.direction {
            FlowDirection::Inbound => {
                inbound = inbound.saturating_add(f.bytes_per_second);
            },
            FlowDirection::Outbound => {
                outbound = outbound.saturating_add(f.bytes_per_second);
            },
            FlowDirection::Internal => {
                internal = internal.saturating_add(f.bytes_per_second);
            },
            FlowDirection::Unknown => {},
        }
        i = i + 1;
    }
    proof {
        assert(flows@.take(n as int) =~= flows@);
    }
    BandwidthSample {
        timestamp: now,
        total_bps: inbound.saturating_add(outbound).saturating_add(internal),
        inbound_bps: inbound,
        outbound_bps: outbound,
        internal_bps: internal,
    }
}


/// Run the four detectors over the sample ring and the flows: at most one
/// pattern of each kind comes back, in the fixed order burst,
/// denial-of-service, port scan, anomaly, each present exactly when its
/// condition holds.
#[verifier::loop_isolation(false)]
pub fn detect_patterns(
    samples: &Vec<BandwidthSample>,
    flows: &Vec<TrafficFlow>,
    burst_threshold: u64,
    anomaly_threshold: u64,
    ddos_threshold: usize,
    now: u64,
) -> (r: Vec<TrafficPattern>)
    ensures
        r@.len() <= 4,
        forall|j1: int, j2: int|
            0 <= j1 < j2 < r@.len() ==> (#[trigger] r@[j1]).pattern_type != (
            #[trigger] r@[j2]).pattern_type,
        forall|j: int| 0 <= j < r@.len() ==> (#[trigger] r@[j]).detected_at == now,
        ((samples@.len() >= 10 && samples@.last().total_bps * 10 > burst_threshold
            * spec_recent_sum(samples@, 10)) <==> (exists|j: int|
            0 <= j < r@.len() && (#[trigger] r@[j]).pattern_type is BurstTraffic)),
        ((samples@.len() >= 60 && spec_anomaly_condition(samples@, anomaly_threshold)) <==> (
        exists|j: int| 0 <= j < r@.len() && (#[trigger] r@[j]).pattern_type is AnomalousActivity)),
        ((exists|i: int|
            0 <= i < flows@.len() && spec_ports_from(
                flows@,
                (#[trigger] flows@[i]).src_addr.ip,
            ).len() > 20) <==> (exists|j: int|
            0 <= j < r@.len() && (#[trigger] r@[j]).pattern_type is PortScan)),
        ((exists|i: int|
            0 <= i < flows@.len() && spec_flows_from(flows@, (#[trigger] flows@[i]).src_addr.ip)
                > ddos_threshold) <==> (exists|j: int|
            0 <= j < r@.len() && (#[trigger] r@[j]).pattern_type is DDoSPattern)),
        forall|j: int|
            0 <= j < r@.len() && (#[trigger] r@[j]).pattern_type is PortScan ==> (
            r@[j].source matches Some(ip) && spec_ports_from(flows@, ip).len() > 20
                && r@[j].related_flows@ == spec_flow_ids_from(flows@, ip)
                && r@[j].confidence_percent == 85),
        forall|j: int|
            0 <= j < r@.len() && (#[trigger] r@[j]).pattern_type is DDoSPattern ==> (
            r@[j].source matches Some(ip) && spec_flows_from(flows@, ip) > ddos_threshold
                && r@[j].related_flows@ == spec_flow_ids_from(flows@, ip)
                && r@[j].confidence_percent == 90),
        forall|j: int|
            0 <= j < r@.len() && ((#[trigger] r@[j]).pattern_type is BurstTraffic
                || r@[j].pattern_type is AnomalousActivity) ==> (r@[j].source is None
                && r@[j].related_flows@.len() == 0),
{
    let burst = detect_burst_pattern(samples, burst_threshold, now);
    let ddos = detect_ddos_pattern(flows, ddos_threshold, now);
    let scan = detect_port_scan_pattern(flows, now);
    let anomaly = detect_anomaly_pattern(samples, anomaly_threshold, now);
    let mut fresh: Vec<TrafficPattern> = Vec::new();
    let ghost mut scan_idx: int = -1;
    let ghost scan_snapshot = scan;
    let ghost mut ddos_idx: int = -1;
    let ghost ddos_snapshot = ddos;
    let ghost mut burst_idx: int = -1;
    let ghost burst_snapshot = burst;
    let ghost mut anom_idx: int = -1;
    let ghost anom_snapshot = anomaly;
    if let Some(p) = burst {
        proof {
            burst_idx = fresh@.len() as int;
        }
        fresh.push(p);
    }
    if let Some(p) = ddos {
        proof {
            ddos_idx = fresh@.len() as int;
        }
        fresh.push(p);
    }
    if let Some(p) = scan {
        proof {
            scan_idx = fresh@.len() as int;
        }
        fresh.push(p);
    }
    if let Some(p) = anomaly {
        proof {
            anom_idx = fresh@.len() as int;
        }
        fresh.push(p);
    }
    proof {
        assert(fresh@.len() <= 4);
        assert(burst_snapshot is Some ==> 0 <= burst_idx < fresh@.len() && fresh@[burst_idx]
            == burst_snapshot.unwrap());
        assert forall|j: int|
            0 <= j < fresh@.len() && j != burst_idx implies !((
        #[trigger] fresh@[j]).pattern_type is BurstTraffic) by {}
        assert(burst_snapshot is None ==> forall|j: int|
            0 <= j < fresh@.len() ==> !((#[trigger] fresh@[j]).pattern_type is BurstTraffic));
        assert(ddos_snapshot is Some ==> 0 <= ddos_idx < fresh@.len() && fresh@[ddos_idx]
            == ddos_snapshot.unwrap());
        assert forall|j: int|
            0 <= j < fresh@.len() && j != ddos_idx implies !((
        #[trigger] fresh@[j]).pattern_type is DDoSPattern) by {}
        assert(ddos_snapshot is None ==> forall|j: int|
            0 <= j < fresh@.len() ==> !((#[trigger] fresh@[j]).pattern_type is DDoSPattern));
        assert(scan_snapshot is Some ==> 0 <= scan_idx < fresh@.len() && fresh@[scan_idx]
            == scan_snapshot.unwrap());
        assert forall|j: int|
            0 <= j < fresh@.len() && j != scan_idx implies !((
        #[trigger] fresh@[j]).pattern_type is PortScan) by {}
        assert(scan_snapshot is None ==> forall|j: int|
            0 <= j < fresh@.len() ==> !((#[trigger] fresh@[j]).pattern_type is PortScan));
        assert(anom_snapshot is Some ==> 0 <= anom_idx < fresh@.len() && fresh@[anom_idx]
            == anom_snapshot.unwrap());
        assert forall|j: int|
            0 <= j < fresh@.len() && j != anom_idx implies !((
        #[trigger] fresh@[j]).pattern_type is AnomalousActivity) by {}
        assert(anom_snapshot is None ==> forall|j: int|
            0 <= j < fresh@.len() ==> !((
            #[trigger] fresh@[j]).pattern_type is AnomalousActivity));
    }
    fresh
}

/// The traffic analyzer.
pub struct TrafficAnalyzer {
    pub bandwidth_samples: Vec<BandwidthSample>,
    pub detected_patterns: Vec<TrafficPattern>,
    /// Seconds the rolling analyses look back over.
    pub analysis_window: u64,
    /// Seconds between fresh analyses; earlier calls are served from the
    /// cache.
    pub sample_interval: u64,
    pub max_samples: usize,
    pub max_patterns: usize,
    pub last_analysis: u64,
    pub cached: Option<TrafficAnalysisResult>,
    /// A burst fires when the newest rate exceeds this multiple of the
    /// recent mean.
    pub burst_threshold: u64,
    /// An anomaly fires when the newest rate strays this many standard
    /// deviations from the recent mean.
    pub anomaly_threshold: u64,
    /// A denial-of-service pattern fires above this many flows from one
    /// source.
    pub ddos_threshold: usize,
}

impl TrafficAnalyzer {
    /// The rings respect their caps and the caps are positive.
    pub open spec fn wf(self) -> bool {
        &&& self.bandwidth_samples@.len() <= self.max_samples
        &&& self.detected_patterns@.len() <= self.max_patterns
        &&& self.max_samples >= 1
        &&& self.max_patterns >= 1
    }

    /// An analyzer with the default window, interval, caps and
    /// thresholds.
    pub fn new() -> (r: TrafficAnalyzer)
        ensures
            r.wf(),
            r.bandwidth_samples@.len() == 0,
            r.detected_patterns@.len() == 0,
            r.analysis_window == 300,
            r.sample_interval == 1,
            r.max_samples == 3600,
            r.max_patterns == 100,
            r.last_analysis == 0,
            r.cached is None,
            r.burst_threshold == 10,
            r.anomaly_threshold == 5,
            r.ddos_threshold == 100,
    {
        TrafficAnalyzer {
            bandwidth_samples: Vec::new(),
            detected_patterns: Vec::new(),
            analysis_window: 300,
            sample_interval: 1,
            max_samples: 3600,
            max_patterns: 100,
            last_analysis: 0,
            cached: None,
            burst_threshold: 10,
            anomaly_threshold: 5,
            ddos_threshold: 100,
        }
    }

    /// An analyzer with the given window, interval, sample cap and burst
    /// threshold.
    pub fn with_config(
        analysis_window_secs: u64,
        sample_interval_secs: u64,
        max_samples: usize,
        burst_threshold: u64,
    ) -> (r: TrafficAnalyzer)
        requires
            max_samples >= 1,
        ensures
            r.wf(),
            r.bandwidth_samples@.len() == 0,
            r.detected_patterns@.len() == 0,
            r.analysis_window == analysis_window_secs,
            r.sample_interval == sample_interval_secs,
            r.max_samples == max_samples,
            r.max_patterns == 100,
            r.cached is None,
            r.burst_threshold == burst_threshold,
    {
        let mut r = Self::new();
        r.analysis_window = analysis_window_secs;
        r.sample_interval = sample_interval_secs;
        r.max_samples = max_samples;
        r.burst_threshold = burst_threshold;
        r
    }

    /// The held pattern ring, oldest first.
    pub fn get_pattern_history(&self) -> (r: &Vec<TrafficPattern>)
        ensures
            r@ == self.detected_patterns@,
    {
        &self.detected_patterns
    }

    /// The held sample ring, oldest first.
    pub fn get_bandwidth_history(&self) -> (r: &Vec<BandwidthSample>)
        ensures
            r@ == self.bandwidth_samples@,
    {
        &self.bandwidth_samples
    }

    /// Analyze the flows. Within the sample interval of the previous
    /// round the cached result is returned and nothing changes. Otherwise
    /// a bandwidth sample joins the bounded ring, the bandwidth and
    /// protocol views are derived, the four detectors run, at most one
    /// pattern of each kind joins the bounded pattern ring, the full
    /// result is cached, and a port scan is reported exactly when some
    /// source covers more than twenty distinct destination ports.
    #[verifier::loop_isolation(false)]
    #[verifier::rlimit(100)]
    pub fn analyze_traffic(&mut self, flows: &Vec<crate::flows::TrafficFlow>, now: u64) -> (r:
        TrafficAnalysisResult)
        requires
            old(self).wf(),
        ensures
            final(self).wf(),
            (now < sat_add_u64(old(self).last_analysis, old(self).sample_interval) && old(
                self,
            ).cached is Some) ==> {
                &&& *final(self) == *old(self)
                &&& spec_result_matches(r, old(self).cached.unwrap())
            },
            !(now < sat_add_u64(old(self).last_analysis, old(self).sample_interval) && old(
                self,
            ).cached is Some) ==> ({
                let sample = BandwidthSample {
                    timestamp: now,
                    total_bps: sat_add_u64(
                        sat_add_u64(
                            spec_direction_rates(flows@).0,
                            spec_direction_rates(flows@).1,
                        ),
                        spec_direction_rates(flows@).2,
                    ),
                    inbound_bps: spec_direction_rates(flows@).0,
                    outbound_bps: spec_direction_rates(flows@).1,
                    internal_bps: spec_direction_rates(flows@).2,
                };
                &&& final(self).bandwidth_samples@ == spec_ring_append(
                    old(self).bandwidth_samples@,
                    seq![sample],
                    old(self).max_samples as int,
                )
                &&& final(self).last_analysis == now
                &&& final(self).cached is Some
                &&& spec_result_matches(r, final(self).cached.unwrap())
                &&& r.analysis_timestamp == now
                &&& exists|found: Seq<TrafficPattern>|
                    {
                        &&& final(self).detected_patterns@ == #[trigger] spec_ring_append(
                            old(self).detected_patterns@,
                            found,
                            old(self).max_patterns as int,
                        )
                        &&& found.len() <= 4
                        &&& ((exists|i: int|
                            0 <= i < flows@.len() && spec_ports_from(
                                flows@,
                                (#[trigger] flows@[i]).src_addr.ip,
                            ).len() > 20) <==> (exists|j: int|
                            0 <= j < found.len() && (#[trigger] found[j]).pattern_type
                                is PortScan))
                        &&& (forall|j1: int, j2: int|
                            0 <= j1 < found.len() && 0 <= j2 < found.len() && (
                            #[trigger] found[j1]).pattern_type is PortScan && (
                            #[trigger] found[j2]).pattern_type is PortScan ==> j1 == j2)
                        &&& (forall|j: int|
                            0 <= j < found.len() && (#[trigger] found[j]).pattern_type
                                is PortScan ==> (found[j].source matches Some(ip)
                                && spec_ports_from(flows@, ip).len() > 20
                                && found[j].related_flows@ == spec_flow_ids_from(flows@, ip)))
                        &&& ((exists|i: int|
                            0 <= i < flows@.len() && spec_flows_from(
                                flows@,
                                (#[trigger] flows@[i]).src_addr.ip,
                            ) > old(self).ddos_threshold) <==> (exists|j: int|
                            0 <= j < found.len() && (#[trigger] found[j]).pattern_type
                                is DDoSPattern))
                        &&& (forall|j1: int, j2: int|
                            0 <= j1 < found.len() && 0 <= j2 < found.len() && (
                            #[trigger] found[j1]).pattern_type is DDoSPattern && (
                            #[trigger] found[j2]).pattern_type is DDoSPattern ==> j1 == j2)
                        &&& (forall|j: int|
                            0 <= j < found.len() && (#[trigger] found[j]).pattern_type
                                is DDoSPattern ==> (found[j].source matches Some(ip)
                                && spec_flows_from(flows@, ip) > old(self).ddos_threshold
                                && found[j].related_flows@ == spec_flow_ids_from(flows@, ip)))
                        &&& ({
                            let ns = spec_ring_append(
                                old(self).bandwidth_samples@,
                                seq![sample],
                                old(self).max_samples as int,
                            );
                            &&& ((ns.len() >= 10 && ns.last().total_bps * 10 > old(
                                self,
                            ).burst_threshold * spec_recent_sum(ns, 10)) <==> (exists|j: int|
                                0 <= j < found.len() && (#[trigger] found[j]).pattern_type
                                    is BurstTraffic))
                            &&& ((ns.len() >= 60 && spec_anomaly_condition(
                                ns,
                                old(self).anomaly_threshold,
                            )) <==> (exists|j: int|
                                0 <= j < found.len() && (#[trigger] found[j]).pattern_type
                                    is AnomalousActivity))
                        })
                        &&& (forall|j1: int, j2: int|
                            0 <= j1 < found.len() && 0 <= j2 < found.len() && (
                            #[trigger] found[j1]).pattern_type is BurstTraffic && (
                            #[trigger] found[j2]).pattern_type is BurstTraffic ==> j1 == j2)
                        &&& (forall|j1: int, j2: int|
                            0 <= j1 < found.len() && 0 <= j2 < found.len() && (
                            #[trigger] found[j1]).pattern_type is AnomalousActivity && (
                            #[trigger] found[j2]).pattern_type is AnomalousActivity ==> j1 == j2)
                        &&& (forall|j: int|
                            0 <= j < found.len() && ((#[trigger] found[j]).pattern_type
                                is BurstTraffic || found[j].pattern_type is AnomalousActivity)
                                ==> (found[j].source is None && found[j].related_flows@.len()
                                == 0 && found[j].detected_at == now))
                    }
            }),
    {
        if now < self.last_analysis.saturating_add(self.sample_interval) {
            if let Some(ref cached) = self.cached {
                let out = clone_result(cached);
                return out;
            }
        }
        self.last_analysis = now;
        let sample = collect_bandwidth_sample(flows, now);
        let ghost s0 = self.bandwidth_samples@;
        self.bandwidth_samples.push(sample);
        if self.bandwidth_samples.len() > self.max_samples {
            self.bandwidth_samples.remove(0);
        }
        proof {
            let items = seq![sample];
            assert(items.drop_last() =~= Seq::<BandwidthSample>::empty());
            assert(spec_ring_append(s0, items.drop_last(), self.max_samples as int) == s0);
            if s0.push(sample).len() > self.max_samples {
                assert(self.bandwidth_samples@ =~= s0.push(sample).drop_first());
            } else {
                assert(self.bandwidth_samples@ =~= s0.push(sample));
            }
        }
        let bandwidth_analysis = analyze_bandwidth(&self.bandwidth_samples);
        let protocol_breakdown = analyze_protocols(flows);
        let fresh = detect_patterns(
            &self.bandwidth_samples,
            flows,
            self.burst_threshold,
            self.anomaly_threshold,
            self.ddos_threshold,
            now,
        );
        let ghost p0 = self.detected_patterns@;
        let ghost mut found: Seq<TrafficPattern> = Seq::empty();
        proof {
            assert(spec_ring_append(p0, found, self.max_patterns as int) == p0);
        }
        let ghost sv1 = self.bandwidth_samples@;
        let fn2 = fresh.len();
        let mut fi: usize = 0;
        while fi < fn2
            invariant
                0 <= fi <= fn2 == fresh@.len(),
                found.len() == fi as int,
                forall|x: int|
                    0 <= x < fi ==> spec_pattern_matches(#[trigger] found[x], fresh@[x]),
                self.detected_patterns@ == spec_ring_append(
                    p0,
                    found,
                    self.max_patterns as int,
                ),
                self.detected_patterns@.len() <= self.max_patterns,
                self.max_samples == old(self).max_samples,
                self.max_patterns == old(self).max_patterns,
                self.bandwidth_samples@ == sv1,
                self.last_analysis == now,
                self.sample_interval == old(self).sample_interval,
                self.burst_threshold == old(self).burst_threshold,
                self.anomaly_threshold == old(self).anomaly_threshold,
                self.ddos_threshold == old(self).ddos_threshold,
            decreases fn2 - fi,
        {
            let ev = clone_pattern(&fresh[fi]);
            proof {
                assert(spec_pattern_matches(ev, fresh@[fi as int]));
            }
            let ghost rprev = self.detected_patterns@;
            self.detected_patterns.push(ev);
            if self.detected_patterns.len() > self.max_patterns {
                self.detected_patterns.remove(0);
            }
            proof {
                let fv = fresh@[fi as int];
                let em2 = found.push(ev);
                assert(em2.drop_last() =~= found);
                if rprev.push(ev).len() > self.max_patterns {
                    assert(self.detected_patterns@ =~= rprev.push(ev).drop_first());
                } else {
                    assert(self.detected_patterns@ =~= rprev.push(ev));
                }
                assert(spec_ring_append(p0, em2, self.max_patterns as int)
                    == self.detected_patterns@);
                found = em2;
                assert(found[fi as int] == ev);
            }
            fi = fi + 1;
        }
        let mut result_patterns: Vec<TrafficPattern> = Vec::new();
        let dn = self.detected_patterns.len();
        let mut di: usize = 0;
        while di < dn
            invariant
                0 <= di <= dn == self.detected_patterns@.len(),
                result_patterns@.len() == di,
            decreases dn - di,
        {
            result_patterns.push(clone_pattern(&self.detected_patterns[di]));
            di = di + 1;
        }
        let result = TrafficAnalysisResult {
            bandwidth_analysis,
            protocol_breakdown,
            patterns: result_patterns,
            geographic_analysis: GeographicAnalysis {
                top_countries: Vec::new(),
                suspicious_regions: Vec::new(),
            },
            analysis_timestamp: now,
        };
        let out = clone_result(&result);
        self.cached = Some(result);
        proof {
            assert(found.len() == fresh@.len());
            assert forall|j: int|
                0 <= j < found.len() implies (#[trigger] found[j]).pattern_type
                == fresh@[j].pattern_type && found[j].source == fresh@[j].source
                && found[j].related_flows@ == fresh@[j].related_flows@ && found[j].detected_at
                == fresh@[j].detected_at && found[j].confidence_percent
                == fresh@[j].confidence_percent by {
                assert(spec_pattern_matches(found[j], fresh@[j]));
            }
            assert forall|j1: int, j2: int|
                0 <= j1 < found.len() && 0 <= j2 < found.len() && j1 != j2 implies (
            #[trigger] found[j1]).pattern_type != (#[trigger] found[j2]).pattern_type by {
                if j1 < j2 {
                    assert(fresh@[j1].pattern_type != fresh@[j2].pattern_type);
                } else {
                    assert(fresh@[j2].pattern_type != fresh@[j1].pattern_type);
                }
            }
            if exists|j: int|
                0 <= j < fresh@.len() && (#[trigger] fresh@[j]).pattern_type is BurstTraffic {
                let j0 = choose|j: int|
                    0 <= j < fresh@.len() && (#[trigger] fresh@[j]).pattern_type is BurstTraffic;
                assert(found[j0].pattern_type is BurstTraffic);
            }
            if exists|j: int|
                0 <= j < found.len() && (#[trigger] found[j]).pattern_type is BurstTraffic {
                let j0 = choose|j: int|
                    0 <= j < found.len() && (#[trigger] found[j]).pattern_type is BurstTraffic;
                assert(fresh@[j0].pattern_type is BurstTraffic);
            }
            if exists|j: int|
                0 <= j < fresh@.len() && (#[trigger] fresh@[j]).pattern_type
                    is AnomalousActivity {
                let j0 = choose|j: int|
                    0 <= j < fresh@.len() && (#[trigger] fresh@[j]).pattern_type
                        is AnomalousActivity;
                assert(found[j0].pattern_type is AnomalousActivity);
            }
            if exists|j: int|
                0 <= j < found.len() && (#[trigger] found[j]).pattern_type
                    is AnomalousActivity {
                let j0 = choose|j: int|
                    0 <= j < found.len() && (#[trigger] found[j]).pattern_type
                        is AnomalousActivity;
                assert(fresh@[j0].pattern_type is AnomalousActivity);
            }
            if exists|j: int|
                0 <= j < fresh@.len() && (#[trigger] fresh@[j]).pattern_type is PortScan {
                let j0 = choose|j: int|
                    0 <= j < fresh@.len() && (#[trigger] fresh@[j]).pattern_type is PortScan;
                assert(found[j0].pattern_type is PortScan);
            }
            if exists|j: int|
                0 <= j < found.len() && (#[trigger] found[j]).pattern_type is PortScan {
                let j0 = choose|j: int|
                    0 <= j < found.len() && (#[trigger] found[j]).pattern_type is PortScan;
                assert(fresh@[j0].pattern_type is PortScan);
            }
            if exists|j: int|
                0 <= j < fresh@.len() && (#[trigger] fresh@[j]).pattern_type is DDoSPattern {
                let j0 = choose|j: int|
                    0 <= j < fresh@.len() && (#[trigger] fresh@[j]).pattern_type is DDoSPattern;
                assert(found[j0].pattern_type is DDoSPattern);
            }
            if exists|j: int|
                0 <= j < found.len() && (#[trigger] found[j]).pattern_type is DDoSPattern {
                let j0 = choose|j: int|
                    0 <= j < found.len() && (#[trigger] found[j]).pattern_type is DDoSPattern;
                assert(fresh@[j0].pattern_type is DDoSPattern);
            }
        }
        out
    }
}

} // verus!
