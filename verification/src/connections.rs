//! The connection tracker: a keyed view of observed endpoint pairs.
//!
//! Connections are identified by the direction-agnostic pair key and
//! reconciled against socket-table snapshots: entries absent from the
//! latest snapshot are dropped, idle entries time out, and the active set
//! is capped, oldest first.

use vstd::prelude::*;
use crate::net::{Endpoint, PairKey, spec_pair_key, pair_key};
use crate::packet::{PacketMeta, TransportTag};
use crate::procfs::{ProcConnection, TcpState};
use crate::protocols::{ProtocolAnalyzer, ProtocolType, spec_classify};
use crate::sat_add_u64;

verus! {

/// The coarse connection state shown to consumers.
#[derive(Clone, Copy, Debug, PartialEq, Eq, Structural)]
pub enum ConnectionState {
    Establishing,
    Established,
    Closing,
    Closed,
    Unknown,
}

/// The coarse state a kernel TCP state folds to: listening sockets count
/// as established.
pub open spec fn spec_convert_tcp_state(t: TcpState) -> ConnectionState {
    match t {
        TcpState::Established => ConnectionState::Established,
        TcpState::SynSent | TcpState::SynRecv => ConnectionState::Establishing,
        TcpState::FinWait1 | TcpState::FinWait2 | TcpState::TimeWait | TcpState::CloseWait
            | TcpState::LastAck | TcpState::Closing => ConnectionState::Closing,
        TcpState::Close => ConnectionState::Closed,
        TcpState::Listen => ConnectionState::Established,
        TcpState::Unknown(_) => ConnectionState::Unknown,
    }
}

/// One tracked connection.
#[derive(Clone, Copy, Debug)]
pub struct ConnectionInfo {
    pub local_addr: Endpoint,
    pub remote_addr: Endpoint,
    pub protocol: ProtocolType,
    pub state: ConnectionState,
    pub established_time: u64,
    pub last_seen: u64,
    pub bytes_sent: u64,
    pub bytes_received: u64,
    pub packets_sent: u64,
    pub packets_received: u64,
    /// Reserved for external enrichment; the tracker never fills it.
    pub process_id: Option<u32>,
}

/// The pair key a tracked connection is filed under.
pub open spec fn spec_conn_key(c: ConnectionInfo) -> PairKey {
    spec_pair_key(c.local_addr, c.remote_addr)
}

/// The connections held in a record sequence, as a map from pair key to
/// record.
pub open spec fn spec_conn_map_of(s: Seq<ConnectionInfo>) -> Map<PairKey, ConnectionInfo>
    decreases s.len(),
{
    if s.len() == 0 {
        Map::empty()
    } else {
        spec_conn_map_of(s.drop_last()).insert(spec_conn_key(s.last()), s.last())
    }
}

/// In a record sequence with pairwise-distinct keys, the map entry of an
/// indexed record is that record.
proof fn lemma_conn_map_at(s: Seq<ConnectionInfo>, i: int)
    requires
        0 <= i < s.len(),
        forall|a: int, b: int|
            0 <= a < b < s.len() ==> spec_conn_key(#[trigger] s[a]) != spec_conn_key(
                #[trigger] s[b],
            ),
    ensures
        spec_conn_map_of(s).contains_key(spec_conn_key(s[i])),
        spec_conn_map_of(s)[spec_conn_key(s[i])] == s[i],
    decreases s.len(),
{
    if i < s.len() - 1 {
        lemma_conn_map_at(s.drop_last(), i);
        assert(s.drop_last()[i] == s[i]);
        assert(spec_conn_key(s.last()) != spec_conn_key(s[i]));
    }
}

/// In a record sequence with pairwise-distinct keys, replacing an indexed
/// record with one of the same key replaces its map entry.
proof fn lemma_conn_map_update(s: Seq<ConnectionInfo>, i: int, v: ConnectionInfo)
    requires
        0 <= i < s.len(),
        spec_conn_key(v) == spec_conn_key(s[i]),
        forall|a: int, b: int|
            0 <= a < b < s.len() ==> spec_conn_key(#[trigger] s[a]) != spec_conn_key(
                #[trigger] s[b],
            ),
    ensures
        spec_conn_map_of(s.update(i, v)) == spec_conn_map_of(s).insert(spec_conn_key(v), v),
    decreases s.len(),
{
    let t = s.update(i, v);
    if i == s.len() - 1 {
        assert(t.drop_last() =~= s.drop_last());
        assert(t.last() == v);
        assert(spec_conn_map_of(t) =~= spec_conn_map_of(s).insert(spec_conn_key(v), v));
    } else {
        lemma_conn_map_update(s.drop_last(), i, v);
        assert(t.drop_last() =~= s.drop_last().update(i, v));
        assert(t.last() == s.last());
        assert(spec_conn_key(s.last()) != spec_conn_key(v));
        assert(spec_conn_map_of(t) =~= spec_conn_map_of(s).insert(spec_conn_key(v), v));
    }
}

/// A key that appears in no record has no map entry.
proof fn lemma_conn_map_absent(s: Seq<ConnectionInfo>, k: PairKey)
    requires
        forall|i: int| 0 <= i < s.len() ==> spec_conn_key(#[trigger] s[i]) != k,
    ensures
        !spec_conn_map_of(s).contains_key(k),
    decreases s.len(),
{
    if s.len() > 0 {
        lemma_conn_map_absent(s.drop_last(), k);
    }
}

/// Every key of the map of a record sequence is the key of some record.
proof fn lemma_conn_map_keys(s: Seq<ConnectionInfo>, k: PairKey)
    requires
        spec_conn_map_of(s).contains_key(k),
    ensures
        exists|i: int| 0 <= i < s.len() && spec_conn_key(#[trigger] s[i]) == k,
    decreases s.len(),
{
    if s.len() > 0 {
        if spec_conn_key(s.last()) == k {
            assert(spec_conn_key(s[s.len() - 1]) == k);
        } else {
            lemma_conn_map_keys(s.drop_last(), k);
            let i = choose|i: int|
                0 <= i < s.drop_last().len() && spec_conn_key(#[trigger] s.drop_last()[i]) == k;
            assert(s.drop_last()[i] == s[i]);
            assert(spec_conn_key(s[i]) == k);
        }
    }
}

/// The synthetic zero-length TCP packet a socket-table entry stands for
/// when it is classified.
pub open spec fn spec_conn_packet(c: ProcConnection, now: u64) -> PacketMeta {
    PacketMeta {
        timestamp: now,
        length: 0,
        tag: TransportTag::Tcp,
        src_ip: Some(c.local_addr.ip),
        dst_ip: Some(c.remote_addr.ip),
        src_port: Some(c.local_addr.port),
        dst_port: Some(c.remote_addr.port),
    }
}

/// The set of pair keys a socket-table snapshot covers.
pub open spec fn spec_proc_keys(list: Seq<ProcConnection>) -> Set<PairKey> {
    Set::new(
        |k: PairKey|
            exists|i: int|
                0 <= i < list.len() && spec_pair_key(
                    (#[trigger] list[i]).local_addr,
                    list[i].remote_addr,
                ) == k,
    )
}

/// One snapshot entry folded into the connection map: a fresh record on
/// first sight, then state, last-seen time and protocol brought up to
/// date.
pub open spec fn spec_proc_upsert(
    m: Map<PairKey, ConnectionInfo>,
    c: ProcConnection,
    now: u64,
) -> Map<PairKey, ConnectionInfo> {
    let k = spec_pair_key(c.local_addr, c.remote_addr);
    let base = if m.contains_key(k) {
        m[k]
    } else {
        ConnectionInfo {
            local_addr: c.local_addr,
            remote_addr: c.remote_addr,
            protocol: spec_classify(spec_conn_packet(c, now)),
            state: spec_convert_tcp_state(c.state),
            established_time: now,
            last_seen: now,
            bytes_sent: 0,
            bytes_received: 0,
            packets_sent: 0,
            packets_received: 0,
            process_id: None,
        }
    };
    m.insert(
        k,
        ConnectionInfo {
            state: spec_convert_tcp_state(c.state),
            last_seen: now,
            protocol: spec_classify(spec_conn_packet(c, now)),
            ..base
        },
    )
}

/// A whole snapshot folded into the connection map, in order.
pub open spec fn spec_proc_fold(
    m: Map<PairKey, ConnectionInfo>,
    list: Seq<ProcConnection>,
    now: u64,
) -> Map<PairKey, ConnectionInfo>
    decreases list.len(),
{
    if list.len() == 0 {
        m
    } else {
        spec_proc_upsert(spec_proc_fold(m, list.drop_last(), now), list.last(), now)
    }
}

/// Whether a record survives the idle timeout at a given time: a record
/// seen within the timeout, or seen in the future, stays.
pub open spec fn spec_keeps_fresh(c: ConnectionInfo, now: u64, timeout: u64) -> bool {
    now < c.last_seen || now - c.last_seen < timeout
}

/// The connection tracker.
pub struct ConnectionTracker {
    pub conns: Vec<ConnectionInfo>,
    pub analyzer: ProtocolAnalyzer,
    pub timeout_secs: u64,
    pub max_connections: usize,
}

impl ConnectionTracker {
    /// Each pair key is held at most once, and the classifier is
    /// well-formed.
    pub open spec fn wf(self) -> bool {
        &&& forall|a: int, b: int|
            0 <= a < b < self.conns@.len() ==> spec_conn_key(#[trigger] self.conns@[a])
                != spec_conn_key(#[trigger] self.conns@[b])
        &&& self.analyzer.wf()
    }

    /// The tracked connections as a map from pair key to record.
    pub open spec fn conn_map(self) -> Map<PairKey, ConnectionInfo> {
        spec_conn_map_of(self.conns@)
    }

    /// A tracker with the default idle timeout of five minutes and an
    /// active cap of one thousand entries.
    pub fn new() -> (r: ConnectionTracker)
        ensures
            r.wf(),
            r.conn_map() == Map::<PairKey, ConnectionInfo>::empty(),
            r.timeout_secs == 300,
            r.max_connections == 1000,
            r.conns@.len() == 0,
    {
        ConnectionTracker {
            conns: Vec::new(),
            analyzer: ProtocolAnalyzer::new(),
            timeout_secs: 300,
            max_connections: 1000,
        }
    }

    /// A tracker with the given idle timeout and active cap.
    pub fn with_config(timeout_secs: u64, max_connections: usize) -> (r: ConnectionTracker)
        ensures
            r.wf(),
            r.conn_map() == Map::<PairKey, ConnectionInfo>::empty(),
            r.timeout_secs == timeout_secs,
            r.max_connections == max_connections,
            r.conns@.len() == 0,
    {
        ConnectionTracker { conns: Vec::new(), analyzer: ProtocolAnalyzer::new(), timeout_secs, max_connections }
    }

    /// Fold a kernel TCP state to the coarse state.
    pub fn convert_tcp_state(tcp_state: &TcpState) -> (r: ConnectionState)
        ensures
            r == spec_convert_tcp_state(*tcp_state),
    {
        match tcp_state {
            TcpState::Established => ConnectionState::Established,
            TcpState::SynSent | TcpState::SynRecv => ConnectionState::Establishing,
            TcpState::FinWait1 | TcpState::FinWait2 | TcpState::TimeWait | TcpState::CloseWait
                | TcpState::LastAck | TcpState::Closing => ConnectionState::Closing,
            TcpState::Close => ConnectionState::Closed,
            TcpState::Listen => ConnectionState::Established,
            TcpState::Unknown(_) => ConnectionState::Unknown,
        }
    }

    /// The number of tracked connections.
    pub fn get_connection_count(&self) -> (r: usize)
        ensures
            r == self.conns@.len(),
    {
        self.conns.len()
    }

    /// The tracked connections.
    pub fn get_active_connections(&self) -> (r: &Vec<ConnectionInfo>)
        ensures
            r@ == self.conns@,
    {
        &self.conns
    }

    /// The classifier the tracker feeds.
    pub fn get_protocol_analyzer(&self) -> (r: &ProtocolAnalyzer)
        ensures
            r == &self.analyzer,
    {
        &self.analyzer
    }

    /// Account one observed packet: with all four tuple fields present the
    /// packet is classified and its connection record is created or
    /// brought up to date; the observed bytes and the packet count as
    /// sent, since direction is not resolved at this layer. A packet with
    /// an incomplete tuple changes nothing.
    #[verifier::loop_isolation(false)]
    pub fn track_packet(&mut self, packet: &PacketMeta, now: u64)
        requires
            old(self).wf(),
        ensures
            final(self).wf(),
            final(self).timeout_secs == old(self).timeout_secs,
            final(self).max_connections == old(self).max_connections,
            !(packet.src_ip is Some && packet.dst_ip is Some && packet.src_port is Some
                && packet.dst_port is Some) ==> *final(self) == *old(self),
            (packet.src_ip is Some && packet.dst_ip is Some && packet.src_port is Some
                && packet.dst_port is Some) ==> {
                let src = Endpoint { ip: packet.src_ip.unwrap(), port: packet.src_port.unwrap() };
                let dst = Endpoint { ip: packet.dst_ip.unwrap(), port: packet.dst_port.unwrap() };
                let k = spec_pair_key(src, dst);
                let proto = spec_classify(*packet);
                let base = if old(self).conn_map().contains_key(k) {
                    old(self).conn_map()[k]
                } else {
                    ConnectionInfo {
                        local_addr: src,
                        remote_addr: dst,
                        protocol: proto,
                        state: ConnectionState::Established,
                        established_time: now,
                        last_seen: now,
                        bytes_sent: 0,
                        bytes_received: 0,
                        packets_sent: 0,
                        packets_received: 0,
                        process_id: None,
                    }
                };
                let updated = ConnectionInfo {
                    packets_sent: sat_add_u64(base.packets_sent, 1),
                    bytes_sent: sat_add_u64(base.bytes_sent, packet.length as u64),
                    last_seen: now,
                    protocol: proto,
                    ..base
                };
                &&& final(self).conn_map() == old(self).conn_map().insert(k, updated)
                &&& ({
                    let prev = if old(self).analyzer.stats_map().contains_key(proto) {
                        old(self).analyzer.stats_map()[proto]
                    } else {
                        (0u64, 0u64)
                    };
                    final(self).analyzer.stats_map() == old(self).analyzer.stats_map().insert(
                        proto,
                        (sat_add_u64(prev.0, 1), sat_add_u64(prev.1, packet.length as u64)),
                    )
                })
            },
    {
        if packet.src_ip.is_some() && packet.dst_ip.is_some() && packet.src_port.is_some()
            && packet.dst_port.is_some() {
            let src = Endpoint {
                ip: packet.src_ip.unwrap(),
                port: packet.src_port.unwrap(),
            };
            let dst = Endpoint {
                ip: packet.dst_ip.unwrap(),
                port: packet.dst_port.unwrap(),
            };
            let k = pair_key(&src, &dst);
            let protocol = self.analyzer.analyze_packet(packet);
            let ghost a1 = self.analyzer;
            let n = self.conns.len();
            let ghost s0 = self.conns@;
            let mut i: usize = 0;
            while i < n
                invariant
                    0 <= i <= n == self.conns@.len(),
                    s0 == self.conns@,
                    self.analyzer == a1,
                    self.timeout_secs == old(self).timeout_secs,
                    self.max_connections == old(self).max_connections,
                    forall|a: int, b: int|
                        0 <= a < b < s0.len() ==> spec_conn_key(#[trigger] s0[a]) != spec_conn_key(
                            #[trigger] s0[b],
                        ),
                    forall|j: int| 0 <= j < i ==> spec_conn_key(#[trigger] s0[j]) != k,
                decreases n - i,
            {
                let entry = self.conns[i];
                let ek = pair_key(&entry.local_addr, &entry.remote_addr);
                if ek == k {
                    proof {
                        lemma_conn_map_at(s0, i as int);
                    }
                    let updated = ConnectionInfo {
                        packets_sent: entry.packets_sent.saturating_add(1),
                        bytes_sent: entry.bytes_sent.saturating_add(packet.length as u64),
                        last_seen: now,
                        protocol,
                        ..entry
                    };
                    self.conns.set(i, updated);
                    proof {
                        lemma_conn_map_update(s0, i as int, updated);
                    }
                    return ;
                }
                i = i + 1;
            }
            let fresh = ConnectionInfo {
                local_addr: src,
                remote_addr: dst,
                protocol,
                state: ConnectionState::Established,
                established_time: now,
                last_seen: now,
                bytes_sent: packet.length as u64,
                bytes_received: 0,
                packets_sent: 1,
                packets_received: 0,
                process_id: None,
            };
            self.conns.push(fresh);
            proof {
                assert(self.conns@.drop_last() =~= s0);
                lemma_conn_map_absent(s0, k);
            }
        }
    }
}

/// Folding a snapshot adds exactly the snapshot's keys to the map's
/// domain.
proof fn lemma_proc_fold_dom(m: Map<PairKey, ConnectionInfo>, list: Seq<ProcConnection>, now: u64)
    ensures
        spec_proc_fold(m, list, now).dom() =~= m.dom() + spec_proc_keys(list),
    decreases list.len(),
{
    if list.len() == 0 {
        assert(spec_proc_keys(list) =~= Set::<PairKey>::empty());
    } else {
        lemma_proc_fold_dom(m, list.drop_last(), now);
        assert(spec_proc_keys(list) =~= spec_proc_keys(list.drop_last()).insert(
            spec_pair_key(list.last().local_addr, list.last().remote_addr),
        )) by {
            let kl = spec_pair_key(list.last().local_addr, list.last().remote_addr);
            assert forall|k: PairKey| spec_proc_keys(list).contains(k) implies spec_proc_keys(
                list.drop_last(),
            ).insert(kl).contains(k) by {
                let i = choose|i: int|
                    0 <= i < list.len() && spec_pair_key(
                        (#[trigger] list[i]).local_addr,
                        list[i].remote_addr,
                    ) == k;
                if i < list.len() - 1 {
                    assert(list.drop_last()[i] == list[i]);
                    assert(spec_proc_keys(list.drop_last()).contains(k));
                }
            }
            assert forall|k: PairKey|
                spec_proc_keys(list.drop_last()).insert(kl).contains(k) implies spec_proc_keys(
                list,
            ).contains(k) by {
                if spec_proc_keys(list.drop_last()).contains(k) {
                    let i = choose|i: int|
                        0 <= i < list.drop_last().len() && spec_pair_key(
                            (#[trigger] list.drop_last()[i]).local_addr,
                            list.drop_last()[i].remote_addr,
                        ) == k;
                    assert(list[i] == list.drop_last()[i]);
                } else {
                    assert(list[list.len() - 1] == list.last());
                }
            }
        }
    }
}

/// After a fold, every snapshot key holds an entry seen now, and every
/// other key keeps its old entry.
proof fn lemma_proc_fold_entries(
    m: Map<PairKey, ConnectionInfo>,
    list: Seq<ProcConnection>,
    now: u64,
)
    ensures
        forall|k: PairKey|
            spec_proc_keys(list).contains(k) ==> spec_proc_fold(m, list, now).contains_key(k) && (
            #[trigger] spec_proc_fold(m, list, now)[k]).last_seen == now,
        forall|k: PairKey|
            !spec_proc_keys(list).contains(k) && m.contains_key(k) ==> spec_proc_fold(
                m,
                list,
                now,
            ).contains_key(k) && (#[trigger] spec_proc_fold(m, list, now)[k]) == m[k],
    decreases list.len(),
{
    if list.len() == 0 {
        assert(spec_proc_keys(list) =~= Set::<PairKey>::empty());
    } else {
        lemma_proc_fold_entries(m, list.drop_last(), now);
        lemma_proc_fold_dom(m, list.drop_last(), now);
        let kl = spec_pair_key(list.last().local_addr, list.last().remote_addr);
        assert(spec_proc_keys(list).contains(kl)) by {
            assert(list[list.len() - 1] == list.last());
        }
        assert forall|k: PairKey|
            spec_proc_keys(list).contains(k) && k != kl implies spec_proc_keys(
            list.drop_last(),
        ).contains(k) by {
            let i = choose|i: int|
                0 <= i < list.len() && spec_pair_key(
                    (#[trigger] list[i]).local_addr,
                    list[i].remote_addr,
                ) == k;
            assert(i < list.len() - 1);
            assert(list.drop_last()[i] == list[i]);
        }
        assert forall|k: PairKey|
            !spec_proc_keys(list).contains(k) implies !spec_proc_keys(
            list.drop_last(),
        ).contains(k) by {
            if spec_proc_keys(list.drop_last()).contains(k) {
                let i = choose|i: int|
                    0 <= i < list.drop_last().len() && spec_pair_key(
                        (#[trigger] list.drop_last()[i]).local_addr,
                        list.drop_last()[i].remote_addr,
                    ) == k;
                assert(list[i] == list.drop_last()[i]);
            }
        }
    }
}

/// Whether a snapshot covers a pair key.
fn proc_covers_key(list: &Vec<ProcConnection>, k: &PairKey) -> (r: bool)
    ensures
        r == spec_proc_keys(list@).contains(*k),
{
    let n = list.len();
    let mut i: usize = 0;
    while i < n
        invariant
            0 <= i <= n == list@.len(),
            forall|j: int|
                0 <= j < i ==> spec_pair_key((#[trigger] list@[j]).local_addr, list@[j].remote_addr)
                    != *k,
        decreases n - i,
    {
        let entry = list[i];
        let ek = pair_key(&entry.local_addr, &entry.remote_addr);
        if ek == *k {
            return true;
        }
        i = i + 1;
    }
    false
}

/// In a record sequence with pairwise-distinct keys, removing an indexed
/// record removes its map entry.
proof fn lemma_conn_map_remove(s: Seq<ConnectionInfo>, i: int)
    requires
        0 <= i < s.len(),
        forall|a: int, b: int|
            0 <= a < b < s.len() ==> spec_conn_key(#[trigger] s[a]) != spec_conn_key(
                #[trigger] s[b],
            ),
    ensures
        spec_conn_map_of(s.remove(i)) == spec_conn_map_of(s).remove(spec_conn_key(s[i])),
    decreases s.len(),
{
    let t = s.remove(i);
    if i == s.len() - 1 {
        assert(t =~= s.drop_last());
        lemma_conn_map_absent_of_distinct(s.drop_last(), spec_conn_key(s[i]), s);
        assert(spec_conn_map_of(t) =~= spec_conn_map_of(s).remove(spec_conn_key(s[i])));
    } else {
        lemma_conn_map_remove(s.drop_last(), i);
        assert(t.drop_last() =~= s.drop_last().remove(i));
        assert(t.last() == s.last());
        assert(spec_conn_key(s[i]) != spec_conn_key(s.last()));
        assert(spec_conn_map_of(t) =~= spec_conn_map_of(s).remove(spec_conn_key(s[i])));
    }
}

/// In a record sequence with pairwise-distinct keys, the key of the last
/// record is absent from the map of the rest.
proof fn lemma_conn_map_absent_of_distinct(t: Seq<ConnectionInfo>, k: PairKey, s: Seq<ConnectionInfo>)
    requires
        t == s.drop_last(),
        s.len() > 0,
        k == spec_conn_key(s[s.len() - 1]),
        forall|a: int, b: int|
            0 <= a < b < s.len() ==> spec_conn_key(#[trigger] s[a]) != spec_conn_key(
                #[trigger] s[b],
            ),
    ensures
        !spec_conn_map_of(t).contains_key(k),
{
    assert forall|j: int| 0 <= j < t.len() implies spec_conn_key(#[trigger] t[j]) != k by {
        assert(t[j] == s[j]);
    }
    lemma_conn_map_absent(t, k);
}

/// The number of records that survive the idle timeout.
pub open spec fn spec_fresh_count(s: Seq<ConnectionInfo>, now: u64, timeout: u64) -> int
    decreases s.len(),
{
    if s.len() == 0 {
        0
    } else {
        spec_fresh_count(s.drop_last(), now, timeout) + if spec_keeps_fresh(
            s.last(),
            now,
            timeout,
        ) {
            1int
        } else {
            0int
        }
    }
}

impl ConnectionTracker {
    /// Drop idle connections, and where the active set still exceeds its
    /// cap, drop the surplus entries seen longest ago: a record is only
    /// removed in favour of records seen no earlier.
    #[verifier::loop_isolation(false)]
    pub fn cleanup_old_connections(&mut self, now: u64)
        requires
            old(self).wf(),
        ensures
            final(self).wf(),
            final(self).timeout_secs == old(self).timeout_secs,
            final(self).max_connections == old(self).max_connections,
            final(self).analyzer == old(self).analyzer,
            final(self).conns@.len() <= old(self).max_connections,
            final(self).conns@.len() == if spec_fresh_count(
                old(self).conns@,
                now,
                old(self).timeout_secs,
            ) <= old(self).max_connections {
                spec_fresh_count(old(self).conns@, now, old(self).timeout_secs)
            } else {
                old(self).max_connections as int
            },
            forall|k: PairKey|
                final(self).conn_map().contains_key(k) ==> old(self).conn_map().contains_key(k)
                    && (#[trigger] final(self).conn_map()[k]) == old(self).conn_map()[k]
                    && spec_keeps_fresh(old(self).conn_map()[k], now, old(self).timeout_secs),
            (old(self).conns@.len() <= old(self).max_connections && (forall|i: int|
                0 <= i < old(self).conns@.len() ==> spec_keeps_fresh(
                    #[trigger] old(self).conns@[i],
                    now,
                    old(self).timeout_secs,
                ))) ==> final(self).conn_map() == old(self).conn_map(),
            forall|k1: PairKey, k2: PairKey|
                old(self).conn_map().contains_key(k1) && spec_keeps_fresh(
                    old(self).conn_map()[k1],
                    now,
                    old(self).timeout_secs,
                ) && !final(self).conn_map().contains_key(k1)
                    && final(self).conn_map().contains_key(k2) ==> (#[trigger] old(
                    self,
                ).conn_map()[k1]).last_seen
                    <= (#[trigger] old(self).conn_map()[k2]).last_seen,
    {
        let timeout = self.timeout_secs;
        let ghost s0 = self.conns@;
        let ghost m0 = spec_conn_map_of(s0);
        let n = self.conns.len();
        let mut kept: Vec<ConnectionInfo> = Vec::new();
        proof {
            assert(s0.take(0) =~= Seq::<ConnectionInfo>::empty());
        }
        let mut i: usize = 0;
        while i < n
            invariant
                0 <= i <= n,
                kept@.len() == spec_fresh_count(s0.take(i as int), now, timeout),
                forall|a: int, b: int|
                    0 <= a < b < kept@.len() ==> spec_conn_key(#[trigger] kept@[a])
                        != spec_conn_key(#[trigger] kept@[b]),
                forall|a: int|
                    0 <= a < kept@.len() ==> exists|j: int|
                        0 <= j < i && #[trigger] kept@[a] == s0[j],
                forall|k: PairKey|
                    #[trigger] spec_conn_map_of(kept@).contains_key(k) <==> (spec_conn_map_of(
                        s0.take(i as int),
                    ).contains_key(k) && spec_keeps_fresh(
                        spec_conn_map_of(s0.take(i as int))[k],
                        now,
                        timeout,
                    )),
                forall|k: PairKey|
                    #[trigger] spec_conn_map_of(kept@).contains_key(k) ==> spec_conn_map_of(kept@)[k]
                        == spec_conn_map_of(s0.take(i as int))[k],
            decreases n - i,
        {
            let c = self.conns[i];
            proof {
                assert(s0.take(i + 1).drop_last() =~= s0.take(i as int));
                assert(s0.take(i + 1).last() == s0[i as int]);
                assert forall|j: int| 0 <= j < i implies spec_conn_key(#[trigger] s0[j])
                    != spec_conn_key(s0[i as int]) by {}
                lemma_conn_map_absent_prefix(s0, i as int);
            }
            let fresh_entry = if now >= c.last_seen {
                now - c.last_seen < timeout
            } else {
                true
            };
            if fresh_entry {
                let ghost kept_before = kept@;
                kept.push(c);
                proof {
                    assert(kept@.drop_last() =~= kept_before);
                    assert(spec_conn_map_of(kept@) == spec_conn_map_of(kept_before).insert(
                        spec_conn_key(c),
                        c,
                    ));
                    assert(spec_conn_map_of(s0.take(i + 1)) == spec_conn_map_of(
                        s0.take(i as int),
                    ).insert(spec_conn_key(s0[i as int]), s0[i as int]));
                    assert forall|a: int|
                        0 <= a < kept@.len() implies exists|j: int|
                            0 <= j < i + 1 && #[trigger] kept@[a] == s0[j] by {
                        if a < kept@.len() - 1 {
                            assert(kept@[a] == kept_before[a]);
                            let j = choose|j: int| 0 <= j < i && #[trigger] kept_before[a] == s0[j];
                            assert(kept@[a] == s0[j]);
                        } else {
                            assert(kept@[a] == s0[i as int]);
                        }
                    }
                    assert forall|a: int, b: int|
                        0 <= a < b < kept@.len() implies spec_conn_key(#[trigger] kept@[a])
                            != spec_conn_key(#[trigger] kept@[b]) by {
                        if b == kept@.len() - 1 {
                            let j = choose|j: int| 0 <= j < i && #[trigger] kept_before[a] == s0[j];
                            assert(kept@[a] == s0[j]);
                            assert(spec_conn_key(s0[j]) != spec_conn_key(s0[i as int]));
                        } else {
                            assert(kept@[a] == kept_before[a]);
                            assert(kept@[b] == kept_before[b]);
                        }
                    }
                    assert forall|k: PairKey|
                        #[trigger] spec_conn_map_of(kept@).contains_key(k) <==> (spec_conn_map_of(
                            s0.take(i + 1),
                        ).contains_key(k) && spec_keeps_fresh(
                            spec_conn_map_of(s0.take(i + 1))[k],
                            now,
                            timeout,
                        )) by {
                        if k != spec_conn_key(c) {
                            assert(spec_conn_map_of(kept@).contains_key(k)
                                == spec_conn_map_of(kept_before).contains_key(k));
                        }
                    }
                }
            } else {
                proof {
                    assert(spec_conn_map_of(s0.take(i + 1)) == spec_conn_map_of(
                        s0.take(i as int),
                    ).insert(spec_conn_key(s0[i as int]), s0[i as int]));
                    assert(!spec_conn_map_of(kept@).contains_key(spec_conn_key(s0[i as int])));
                }
            }
            i = i + 1;
        }
        proof {
            assert(s0.take(n as int) =~= s0);
        }
        self.conns = kept;
        let ghost m1 = spec_conn_map_of(self.conns@);
        let ghost len1 = self.conns@.len() as int;
        proof {
            assert forall|k: PairKey|
                #[trigger] m0.contains_key(k) && spec_keeps_fresh(m0[k], now, timeout)
                    implies m1.contains_key(k) && m1[k] == m0[k] by {
                assert(spec_conn_map_of(self.conns@).contains_key(k) <==> (spec_conn_map_of(
                    s0.take(n as int),
                ).contains_key(k) && spec_keeps_fresh(
                    spec_conn_map_of(s0.take(n as int))[k],
                    now,
                    timeout,
                )));
            }
            assert forall|k: PairKey|
                #[trigger] m1.contains_key(k) implies m0.contains_key(k) && m1[k] == m0[k]
                    && spec_keeps_fresh(m0[k], now, timeout) by {
                assert(spec_conn_map_of(self.conns@).contains_key(k) <==> (spec_conn_map_of(
                    s0.take(n as int),
                ).contains_key(k) && spec_keeps_fresh(
                    spec_conn_map_of(s0.take(n as int))[k],
                    now,
                    timeout,
                )));
            }
        }
        let max = self.max_connections;
        while self.conns.len() > max
            invariant
                len1 <= max ==> self.conns@.len() == len1,
                len1 > max ==> max <= self.conns@.len() <= len1,
                self.conns@.len() == len1 ==> spec_conn_map_of(self.conns@) == m1,
                forall|a: int, b: int|
                    0 <= a < b < self.conns@.len() ==> spec_conn_key(#[trigger] self.conns@[a])
                        != spec_conn_key(#[trigger] self.conns@[b]),
                forall|k: PairKey|
                    #[trigger] spec_conn_map_of(self.conns@).contains_key(k) ==> m1.contains_key(k)
                        && spec_conn_map_of(self.conns@)[k] == m1[k],
                forall|k1: PairKey, k2: PairKey|
                    m1.contains_key(k1) && !spec_conn_map_of(self.conns@).contains_key(k1)
                        && #[trigger] spec_conn_map_of(self.conns@).contains_key(k2) ==> (
                    #[trigger] m1[k1]).last_seen <= spec_conn_map_of(self.conns@)[k2].last_seen,
                self.timeout_secs == old(self).timeout_secs,
                self.max_connections == old(self).max_connections,
                self.analyzer == old(self).analyzer,
            decreases self.conns@.len(),
        {
            let len = self.conns.len();
            let mut m: usize = 0;
            let mut j: usize = 1;
            while j < len
                invariant
                    0 <= m < j <= len == self.conns@.len(),
                    forall|a: int|
                        0 <= a < j ==> (#[trigger] self.conns@[m as int]).last_seen
                            <= self.conns@[a].last_seen,
                decreases len - j,
            {
                if self.conns[j].last_seen < self.conns[m].last_seen {
                    m = j;
                }
                j = j + 1;
            }
            let ghost cur = self.conns@;
            let ghost km = spec_conn_key(cur[m as int]);
            proof {
                lemma_conn_map_at(cur, m as int);
                lemma_conn_map_remove(cur, m as int);
            }
            self.conns.remove(m);
            proof {
                assert(self.conns@ =~= cur.remove(m as int));
                assert forall|k1: PairKey, k2: PairKey|
                    m1.contains_key(k1) && !spec_conn_map_of(self.conns@).contains_key(k1)
                        && #[trigger] spec_conn_map_of(self.conns@).contains_key(k2) implies (
                #[trigger] m1[k1]).last_seen <= spec_conn_map_of(self.conns@)[k2].last_seen by {
                    if k1 == km {
                        lemma_conn_map_keys(self.conns@, k2);
                        let a = choose|a: int|
                            0 <= a < self.conns@.len() && spec_conn_key(
                                #[trigger] self.conns@[a],
                            ) == k2;
                        lemma_conn_map_at(self.conns@, a);
                        let orig = if a < m as int {
                            a
                        } else {
                            a + 1
                        };
                        assert(self.conns@[a] == cur[orig]);
                        assert(cur[m as int].last_seen <= cur[orig].last_seen);
                        assert(m1[k1] == cur[m as int]) by {
                            assert(spec_conn_map_of(cur).contains_key(km));
                        }
                    }
                }
            }
        }
        proof {
            let mfinal = spec_conn_map_of(self.conns@);
            assert forall|k: PairKey| #[trigger] m0.contains_key(k) implies exists|i: int|
                0 <= i < s0.len() && spec_conn_key(#[trigger] s0[i]) == k by {
                lemma_conn_map_keys(s0, k);
            }
            if s0.len() <= max && (forall|i: int|
                0 <= i < s0.len() ==> spec_keeps_fresh(#[trigger] s0[i], now, timeout)) {
                assert forall|k: PairKey| #[trigger] m0.contains_key(k) implies m1.contains_key(k)
                    && m1[k] == m0[k] by {
                    let i = choose|i: int| 0 <= i < s0.len() && spec_conn_key(#[trigger] s0[i]) == k;
                    lemma_conn_map_at(s0, i);
                    assert(spec_keeps_fresh(m0[k], now, timeout));
                }
                assert(m1 =~= m0);
                lemma_fresh_count_all(s0, now, timeout);
                assert(len1 <= max);
                assert(mfinal == m1);
            }
            assert forall|k1: PairKey, k2: PairKey|
                m0.contains_key(k1) && spec_keeps_fresh(m0[k1], now, timeout)
                    && !mfinal.contains_key(k1) && mfinal.contains_key(k2) implies (
            #[trigger] m0[k1]).last_seen <= (#[trigger] m0[k2]).last_seen by {
                let i = choose|i: int| 0 <= i < s0.len() && spec_conn_key(#[trigger] s0[i]) == k1;
                lemma_conn_map_at(s0, i);
                assert(m1.contains_key(k1) && m1[k1] == m0[k1]);
                assert(mfinal.contains_key(k2) ==> m1.contains_key(k2) && mfinal[k2] == m1[k2]);
                assert(m1[k2] == m0[k2]);
                assert(m1[k1].last_seen <= mfinal[k2].last_seen);
            }
        }
    }
}

/// Where every record survives the timeout, the fresh count is the whole
/// length.
proof fn lemma_fresh_count_all(s: Seq<ConnectionInfo>, now: u64, timeout: u64)
    requires
        forall|i: int| 0 <= i < s.len() ==> spec_keeps_fresh(#[trigger] s[i], now, timeout),
    ensures
        spec_fresh_count(s, now, timeout) == s.len(),
    decreases s.len(),
{
    if s.len() > 0 {
        lemma_fresh_count_all(s.drop_last(), now, timeout);
    }
}

/// In a record sequence with pairwise-distinct keys, the key of an
/// indexed record is absent from the map of any earlier prefix.
proof fn lemma_conn_map_absent_prefix(s: Seq<ConnectionInfo>, i: int)
    requires
        0 <= i < s.len(),
        forall|a: int, b: int|
            0 <= a < b < s.len() ==> spec_conn_key(#[trigger] s[a]) != spec_conn_key(
                #[trigger] s[b],
            ),
    ensures
        !spec_conn_map_of(s.take(i)).contains_key(spec_conn_key(s[i])),
{
    assert forall|j: int| 0 <= j < s.take(i).len() implies spec_conn_key(#[trigger] s.take(i)[j])
        != spec_conn_key(s[i]) by {
        assert(s.take(i)[j] == s[j]);
    }
    lemma_conn_map_absent(s.take(i), spec_conn_key(s[i]));
}

/// A sequence of records with pairwise-distinct keys, each key covered by
/// a snapshot, has no more records than the snapshot has entries.
proof fn lemma_distinct_keys_le_list(s: Seq<ConnectionInfo>, list: Seq<ProcConnection>)
    requires
        forall|a: int, b: int|
            0 <= a < b < s.len() ==> spec_conn_key(#[trigger] s[a]) != spec_conn_key(
                #[trigger] s[b],
            ),
        forall|a: int|
            0 <= a < s.len() ==> spec_proc_keys(list).contains(spec_conn_key(#[trigger] s[a])),
    ensures
        s.len() <= list.len(),
    decreases s.len(),
{
    if s.len() > 0 {
        let k = spec_conn_key(s.last());
        assert(spec_proc_keys(list).contains(spec_conn_key(s[s.len() - 1])));
        let j = choose|j: int|
            0 <= j < list.len() && spec_pair_key(
                (#[trigger] list[j]).local_addr,
                list[j].remote_addr,
            ) == k;
        let rest = list.remove(j);
        assert forall|a: int|
            0 <= a < s.drop_last().len() implies spec_proc_keys(rest).contains(
            spec_conn_key(#[trigger] s.drop_last()[a]),
        ) by {
            assert(s.drop_last()[a] == s[a]);
            let ka = spec_conn_key(s[a]);
            assert(spec_proc_keys(list).contains(ka));
            let ja = choose|ja: int|
                0 <= ja < list.len() && spec_pair_key(
                    (#[trigger] list[ja]).local_addr,
                    list[ja].remote_addr,
                ) == ka;
            assert(ka != k);
            assert(ja != j);
            list.remove_ensures(j);
            if ja < j {
                assert(rest[ja] == list[ja]);
            } else {
                assert(rest[ja - 1] == list[ja]);
            }
        }
        lemma_distinct_keys_le_list(s.drop_last(), rest);
    }
}

impl ConnectionTracker {
    /// Reconcile the tracker with a socket-table snapshot: entries absent
    /// from the snapshot are dropped; every snapshot entry is inserted on
    /// first sight and otherwise has its state, protocol and last-seen
    /// time brought up to date, later entries of the same pair winning;
    /// each entry is also classified, raising its protocol's packet count;
    /// finally idle entries time out and the set is capped, oldest first.
    /// With a positive timeout and a snapshot within the cap, the tracked
    /// set afterwards is exactly the folded snapshot.
    #[verifier::loop_isolation(false)]
    pub fn update_from_proc(&mut self, tcp_connections: &Vec<ProcConnection>, now: u64)
        requires
            old(self).wf(),
        ensures
            final(self).wf(),
            final(self).timeout_secs == old(self).timeout_secs,
            final(self).max_connections == old(self).max_connections,
            final(self).conns@.len() <= old(self).max_connections,
            forall|t: crate::protocols::ProtocolType|
                old(self).analyzer.stats_map().contains_key(t)
                    ==> final(self).analyzer.stats_map().contains_key(t)
                    && (#[trigger] final(self).analyzer.stats_map()[t]).0
                    >= old(self).analyzer.stats_map()[t].0
                    && final(self).analyzer.stats_map()[t].1
                    >= old(self).analyzer.stats_map()[t].1,
            ({
                let folded = spec_proc_fold(
                    old(self).conn_map().restrict(spec_proc_keys(tcp_connections@)),
                    tcp_connections@,
                    now,
                );
                &&& forall|k: PairKey|
                    final(self).conn_map().contains_key(k) ==> folded.contains_key(k) && (
                    #[trigger] final(self).conn_map()[k]) == folded[k]
                &&& forall|k: PairKey|
                    final(self).conn_map().contains_key(k) ==> spec_proc_keys(
                        tcp_connections@,
                    ).contains(k)
                &&& (old(self).timeout_secs >= 1 && tcp_connections@.len()
                    <= old(self).max_connections) ==> final(self).conn_map() == folded
            }),
    {
        let ghost m0 = self.conn_map();
        let ghost keys = spec_proc_keys(tcp_connections@);
        let ghost s0 = self.conns@;
        let n = self.conns.len();
        let mut kept: Vec<ConnectionInfo> = Vec::new();
        proof {
            assert(s0.take(0) =~= Seq::<ConnectionInfo>::empty());
        }
        let mut i: usize = 0;
        while i < n
            invariant
                0 <= i <= n,
                forall|a: int, b: int|
                    0 <= a < b < kept@.len() ==> spec_conn_key(#[trigger] kept@[a])
                        != spec_conn_key(#[trigger] kept@[b]),
                forall|a: int|
                    0 <= a < kept@.len() ==> exists|j: int|
                        0 <= j < i && #[trigger] kept@[a] == s0[j],
                forall|k: PairKey|
                    #[trigger] spec_conn_map_of(kept@).contains_key(k) <==> (spec_conn_map_of(
                        s0.take(i as int),
                    ).contains_key(k) && keys.contains(k)),
                forall|k: PairKey|
                    #[trigger] spec_conn_map_of(kept@).contains_key(k) ==> spec_conn_map_of(kept@)[k]
                        == spec_conn_map_of(s0.take(i as int))[k],
            decreases n - i,
        {
            let c = self.conns[i];
            let ck = pair_key(&c.local_addr, &c.remote_addr);
            proof {
                assert(s0.take(i + 1).drop_last() =~= s0.take(i as int));
                assert(s0.take(i + 1).last() == s0[i as int]);
                lemma_conn_map_absent_prefix(s0, i as int);
                assert(spec_conn_map_of(s0.take(i + 1)) == spec_conn_map_of(
                    s0.take(i as int),
                ).insert(spec_conn_key(s0[i as int]), s0[i as int]));
            }
            if proc_covers_key(tcp_connections, &ck) {
                let ghost kept_before = kept@;
                kept.push(c);
                proof {
                    assert(kept@.drop_last() =~= kept_before);
                    assert(spec_conn_map_of(kept@) == spec_conn_map_of(kept_before).insert(
                        spec_conn_key(c),
                        c,
                    ));
                    assert forall|a: int|
                        0 <= a < kept@.len() implies exists|j: int|
                            0 <= j < i + 1 && #[trigger] kept@[a] == s0[j] by {
                        if a < kept@.len() - 1 {
                            assert(kept@[a] == kept_before[a]);
                            let j = choose|j: int| 0 <= j < i && #[trigger] kept_before[a] == s0[j];
                            assert(kept@[a] == s0[j]);
                        } else {
                            assert(kept@[a] == s0[i as int]);
                        }
                    }
                    assert forall|a: int, b: int|
                        0 <= a < b < kept@.len() implies spec_conn_key(#[trigger] kept@[a])
                            != spec_conn_key(#[trigger] kept@[b]) by {
                        if b == kept@.len() - 1 {
                            let j = choose|j: int| 0 <= j < i && #[trigger] kept_before[a] == s0[j];
                            assert(kept@[a] == s0[j]);
                            assert(spec_conn_key(s0[j]) != spec_conn_key(s0[i as int]));
                        } else {
                            assert(kept@[a] == kept_before[a]);
                            assert(kept@[b] == kept_before[b]);
                        }
                    }
                    assert forall|k: PairKey|
                        #[trigger] spec_conn_map_of(kept@).contains_key(k) <==> (spec_conn_map_of(
                            s0.take(i + 1),
                        ).contains_key(k) && keys.contains(k)) by {
                        if k != spec_conn_key(c) {
                            assert(spec_conn_map_of(kept@).contains_key(k)
                                == spec_conn_map_of(kept_before).contains_key(k));
                        }
                    }
                }
            } else {
                proof {
                    assert(!spec_conn_map_of(kept@).contains_key(spec_conn_key(s0[i as int])));
                }
            }
            i = i + 1;
        }
        proof {
            assert(s0.take(n as int) =~= s0);
        }
        self.conns = kept;
        let ghost mr = m0.restrict(keys);
        proof {
            assert forall|k: PairKey|
                #[trigger] spec_conn_map_of(self.conns@).contains_key(k) implies mr.contains_key(k)
                    && spec_conn_map_of(self.conns@)[k] == mr[k] by {}
            assert(spec_conn_map_of(self.conns@) =~= mr);
            assert(tcp_connections@.take(0) =~= Seq::<ProcConnection>::empty());
        }
        let ghost a0 = self.analyzer;
        proof {
            assert(a0 == old(self).analyzer);
            assert forall|a: int| 0 <= a < self.conns@.len() implies keys.contains(
                spec_conn_key(#[trigger] self.conns@[a]),
            ) by {
                lemma_conn_map_at(self.conns@, a);
            }
        }
        let ln = tcp_connections.len();
        let mut p: usize = 0;
        while p < ln
            invariant
                0 <= p <= ln == tcp_connections@.len(),
                forall|a: int, b: int|
                    0 <= a < b < self.conns@.len() ==> spec_conn_key(#[trigger] self.conns@[a])
                        != spec_conn_key(#[trigger] self.conns@[b]),
                spec_conn_map_of(self.conns@) == spec_proc_fold(
                    mr,
                    tcp_connections@.take(p as int),
                    now,
                ),
                forall|a: int|
                    0 <= a < self.conns@.len() ==> keys.contains(
                        spec_conn_key(#[trigger] self.conns@[a]),
                    ),
                self.analyzer.wf(),
                forall|t: crate::protocols::ProtocolType|
                    #![trigger a0.stats_map().dom().contains(t)]
                    a0.stats_map().contains_key(t) ==> self.analyzer.stats_map().contains_key(t)
                        && self.analyzer.stats_map()[t].0 >= a0.stats_map()[t].0
                        && self.analyzer.stats_map()[t].1 >= a0.stats_map()[t].1,
                self.timeout_secs == old(self).timeout_secs,
                self.max_connections == old(self).max_connections,
            decreases ln - p,
        {
            let c = tcp_connections[p];
            let pkt = PacketMeta {
                timestamp: now,
                length: 0,
                tag: TransportTag::Tcp,
                src_ip: Some(c.local_addr.ip),
                dst_ip: Some(c.remote_addr.ip),
                src_port: Some(c.local_addr.port),
                dst_port: Some(c.remote_addr.port),
            };
            proof {
                assert(pkt == spec_conn_packet(c, now));
            }
            let ghost amid = self.analyzer;
            let protocol = self.analyzer.analyze_packet(&pkt);
            let k = pair_key(&c.local_addr, &c.remote_addr);
            let state = Self::convert_tcp_state(&c.state);
            let ghost scur = self.conns@;
            let ghost mcur = spec_conn_map_of(scur);
            proof {
                assert(tcp_connections@.take(p + 1).drop_last() =~= tcp_connections@.take(
                    p as int,
                ));
                assert(tcp_connections@.take(p + 1).last() == tcp_connections@[p as int]);
                assert(keys.contains(k)) by {
                    assert(spec_pair_key(
                        tcp_connections@[p as int].local_addr,
                        tcp_connections@[p as int].remote_addr,
                    ) == k);
                }
            }
            let cn = self.conns.len();
            let mut q: usize = 0;
            let mut found = false;
            let mut found_at: usize = 0;
            while q < cn
                invariant
                    0 <= q <= cn == scur.len(),
                    scur == self.conns@,
                    !found ==> forall|j: int|
                        0 <= j < q ==> spec_conn_key(#[trigger] scur[j]) != k,
                    found ==> found_at < q && spec_conn_key(scur[found_at as int]) == k,
                decreases cn - q,
            {
                if !found {
                    let e = self.conns[q];
                    let ek = pair_key(&e.local_addr, &e.remote_addr);
                    if ek == k {
                        found = true;
                        found_at = q;
                    }
                }
                q = q + 1;
            }
            if found {
                proof {
                    lemma_conn_map_at(scur, found_at as int);
                }
                let entry = self.conns[found_at];
                let updated = ConnectionInfo {
                    state,
                    last_seen: now,
                    protocol,
                    ..entry
                };
                self.conns.set(found_at, updated);
                proof {
                    lemma_conn_map_update(scur, found_at as int, updated);
                }
            } else {
                proof {
                    lemma_conn_map_absent(scur, k);
                }
                let fresh = ConnectionInfo {
                    local_addr: c.local_addr,
                    remote_addr: c.remote_addr,
                    protocol,
                    state,
                    established_time: now,
                    last_seen: now,
                    bytes_sent: 0,
                    bytes_received: 0,
                    packets_sent: 0,
                    packets_received: 0,
                    process_id: None,
                };
                self.conns.push(fresh);
                proof {
                    assert(self.conns@.drop_last() =~= scur);
                }
            }
            proof {
                assert forall|t: crate::protocols::ProtocolType|
                    #![trigger a0.stats_map().dom().contains(t)]
                    a0.stats_map().contains_key(t) implies self.analyzer.stats_map().contains_key(
                    t,
                ) && self.analyzer.stats_map()[t].0 >= a0.stats_map()[t].0
                    && self.analyzer.stats_map()[t].1 >= a0.stats_map()[t].1 by {
                    assert(a0.stats_map().dom().contains(t));
                    assert(amid.stats_map().contains_key(t) && amid.stats_map()[t].0
                        >= a0.stats_map()[t].0 && amid.stats_map()[t].1 >= a0.stats_map()[t].1);
                }
            }
            p = p + 1;
        }
        proof {
            assert(tcp_connections@.take(ln as int) =~= tcp_connections@);
        }
        let ghost mpre = spec_conn_map_of(self.conns@);
        let ghost spre = self.conns@;
        proof {
            lemma_proc_fold_dom(mr, tcp_connections@, now);
            lemma_proc_fold_entries(mr, tcp_connections@, now);
            if self.timeout_secs >= 1 && tcp_connections@.len() <= self.max_connections {
                lemma_distinct_keys_le_list(spre, tcp_connections@);
                assert forall|a: int|
                    0 <= a < spre.len() implies spec_keeps_fresh(
                    #[trigger] spre[a],
                    now,
                    self.timeout_secs,
                ) by {
                    lemma_conn_map_at(spre, a);
                    let ka = spec_conn_key(spre[a]);
                    assert(keys.contains(ka));
                    assert(mpre[ka].last_seen == now);
                }
            }
        }
        let ghost apre = self.analyzer;
        self.cleanup_old_connections(now);
        proof {
            let folded = spec_proc_fold(mr, tcp_connections@, now);
            assert(self.analyzer == apre);
            assert forall|k: PairKey|
                self.conn_map().contains_key(k) implies keys.contains(k) && folded.contains_key(k)
                    && self.conn_map()[k] == folded[k] by {
                assert(self.conn_map()[k] == mpre[k]);
                assert(mpre.contains_key(k));
                assert(folded.dom().contains(k));
                assert(mr.dom().subset_of(keys));
            }
        }
    }
}

/// The records of a given protocol, in held order.
pub open spec fn spec_conns_by_protocol(s: Seq<ConnectionInfo>, t: ProtocolType) -> Seq<
    ConnectionInfo,
>
    decreases s.len(),
{
    if s.len() == 0 {
        Seq::empty()
    } else if s.last().protocol == t {
        spec_conns_by_protocol(s.drop_last(), t).push(s.last())
    } else {
        spec_conns_by_protocol(s.drop_last(), t)
    }
}

/// The records in a given coarse state, in held order.
pub open spec fn spec_conns_by_state(s: Seq<ConnectionInfo>, st: ConnectionState) -> Seq<
    ConnectionInfo,
>
    decreases s.len(),
{
    if s.len() == 0 {
        Seq::empty()
    } else if s.last().state == st {
        spec_conns_by_state(s.drop_last(), st).push(s.last())
    } else {
        spec_conns_by_state(s.drop_last(), st)
    }
}

/// The total bytes a record has moved in both directions, saturating.
pub open spec fn spec_conn_traffic(c: ConnectionInfo) -> u64 {
    sat_add_u64(c.bytes_sent, c.bytes_received)
}

/// The total bytes a record has moved in both directions, saturating.
pub fn conn_traffic(c: &ConnectionInfo) -> (r: u64)
    ensures
        r == spec_conn_traffic(*c),
{
    c.bytes_sent.saturating_add(c.bytes_received)
}

/// The saturating totals of sent and received bytes over a record
/// sequence.
pub open spec fn spec_total_transferred(s: Seq<ConnectionInfo>) -> (u64, u64)
    decreases s.len(),
{
    if s.len() == 0 {
        (0u64, 0u64)
    } else {
        let rest = spec_total_transferred(s.drop_last());
        (sat_add_u64(rest.0, s.last().bytes_sent), sat_add_u64(rest.1, s.last().bytes_received))
    }
}

impl ConnectionTracker {
    /// The tracked connections of one protocol, in held order.
    pub fn get_connections_by_protocol(&self, protocol: &ProtocolType) -> (r: Vec<ConnectionInfo>)
        ensures
            r@ == spec_conns_by_protocol(self.conns@, *protocol),
    {
        let n = self.conns.len();
        let mut out: Vec<ConnectionInfo> = Vec::new();
        proof {
            assert(self.conns@.take(0) =~= Seq::<ConnectionInfo>::empty());
        }
        let mut i: usize = 0;
        while i < n
            invariant
                0 <= i <= n == self.conns@.len(),
                out@ == spec_conns_by_protocol(self.conns@.take(i as int), *protocol),
            decreases n - i,
        {
            proof {
                assert(self.conns@.take(i + 1).drop_last() =~= self.conns@.take(i as int));
                assert(self.conns@.take(i + 1).last() == self.conns@[i as int]);
            }
            let c = self.conns[i];
            if c.protocol == *protocol {
                out.push(c);
            }
            i = i + 1;
        }
        proof {
            assert(self.conns@.take(n as int) =~= self.conns@);
        }
        out
    }

    /// The tracked connections in one coarse state, in held order.
    pub fn get_connections_by_state(&self, state: &ConnectionState) -> (r: Vec<ConnectionInfo>)
        ensures
            r@ == spec_conns_by_state(self.conns@, *state),
    {
        let n = self.conns.len();
        let mut out: Vec<ConnectionInfo> = Vec::new();
        proof {
            assert(self.conns@.take(0) =~= Seq::<ConnectionInfo>::empty());
        }
        let mut i: usize = 0;
        while i < n
            invariant
                0 <= i <= n == self.conns@.len(),
                out@ == spec_conns_by_state(self.conns@.take(i as int), *state),
            decreases n - i,
        {
            proof {
                assert(self.conns@.take(i + 1).drop_last() =~= self.conns@.take(i as int));
                assert(self.conns@.take(i + 1).last() == self.conns@[i as int]);
            }
            let c = self.conns[i];
            if c.state == *state {
                out.push(c);
            }
            i = i + 1;
        }
        proof {
            assert(self.conns@.take(n as int) =~= self.conns@);
        }
        out
    }

    /// The saturating totals of bytes sent and bytes received over all
    /// tracked connections.
    pub fn get_total_bytes_transferred(&self) -> (r: (u64, u64))
        ensures
            r == spec_total_transferred(self.conns@),
    {
        let n = self.conns.len();
        let mut sent: u64 = 0;
        let mut received: u64 = 0;
        proof {
            assert(self.conns@.take(0) =~= Seq::<ConnectionInfo>::empty());
        }
        let mut i: usize = 0;
        while i < n
            invariant
                0 <= i <= n == self.conns@.len(),
                (sent, received) == spec_total_transferred(self.conns@.take(i as int)),
            decreases n - i,
        {
            proof {
                assert(self.conns@.take(i + 1).drop_last() =~= self.conns@.take(i as int));
                assert(self.conns@.take(i + 1).last() == self.conns@[i as int]);
            }
            let c = self.conns[i];
            sent = sent.saturating_add(c.bytes_sent);
            received = received.saturating_add(c.bytes_received);
            i = i + 1;
        }
        proof {
            assert(self.conns@.take(n as int) =~= self.conns@);
        }
        (sent, received)
    }

    /// The records that moved the most bytes: at most `limit` records,
    /// ordered by falling total traffic, all drawn from the tracked set;
    /// when a tracked record is left out, the list is full and the
    /// record's traffic is at most the last listed one.
    pub fn get_top_connections_by_traffic(&self, limit: usize) -> (r: Vec<ConnectionInfo>)
        ensures
            r@.len() == if limit < self.conns@.len() {
                limit as int
            } else {
                self.conns@.len() as int
            },
            forall|a: int, b: int|
                0 <= a <= b < r@.len() ==> spec_conn_traffic(#[trigger] r@[a]) >= spec_conn_traffic(
                    #[trigger] r@[b],
                ),
            forall|a: int| 0 <= a < r@.len() ==> self.conns@.contains(#[trigger] r@[a]),
            forall|j: int|
                0 <= j < self.conns@.len() && (forall|a: int|
                    0 <= a < r@.len() ==> r@[a] != self.conns@[j]) ==> r@.len() == limit && (
                r@.len() > 0 ==> spec_conn_traffic(#[trigger] self.conns@[j]) <= spec_conn_traffic(
                    r@[r@.len() - 1],
                )),
    {
        broadcast use vstd::seq_lib::group_to_multiset_ensures;

        let n = self.conns.len();
        let mut sorted: Vec<ConnectionInfo> = Vec::new();
        proof {
            assert(self.conns@.take(0) =~= Seq::<ConnectionInfo>::empty());
        }
        let mut i: usize = 0;
        while i < n
            invariant
                0 <= i <= n == self.conns@.len(),
                sorted@.len() == i,
                forall|a: int, b: int|
                    0 <= a <= b < sorted@.len() ==> spec_conn_traffic(#[trigger] sorted@[a])
                        >= spec_conn_traffic(#[trigger] sorted@[b]),
                forall|a: int|
                    0 <= a < sorted@.len() ==> self.conns@.contains(#[trigger] sorted@[a]),
                sorted@.to_multiset() == self.conns@.take(i as int).to_multiset(),
            decreases n - i,
        {
            let x = self.conns[i];
            let xt = x.bytes_sent.saturating_add(x.bytes_received);
            let mut pos: usize = 0;
            while pos < sorted.len() && conn_traffic(&sorted[pos]) >= xt
                invariant
                    0 <= pos <= sorted@.len(),
                    xt == spec_conn_traffic(x),
                    forall|k: int|
                        0 <= k < pos ==> spec_conn_traffic(#[trigger] sorted@[k])
                            >= spec_conn_traffic(x),
                decreases sorted@.len() - pos,
            {
                pos = pos + 1;
            }
            let ghost before = sorted@;
            sorted.insert(pos, x);
            proof {
                before.insert_ensures(pos as int, x);
                assert forall|a: int, b: int|
                    0 <= a <= b < sorted@.len() implies spec_conn_traffic(#[trigger] sorted@[a])
                    >= spec_conn_traffic(#[trigger] sorted@[b]) by {
                    if a < pos {
                        assert(sorted@[a] == before[a]);
                    } else if a == pos {
                        assert(sorted@[a] == x);
                    } else {
                        assert(sorted@[a] == before[a - 1]);
                    }
                    if b < pos {
                        assert(sorted@[b] == before[b]);
                    } else if b == pos {
                        assert(sorted@[b] == x);
                    } else {
                        assert(sorted@[b] == before[b - 1]);
                    }
                    if b == pos && a < pos {
                        assert(spec_conn_traffic(before[a]) >= spec_conn_traffic(x));
                    }
                    if a == pos && b > pos {
                        assert(spec_conn_traffic(x) > spec_conn_traffic(before[pos as int]) || pos
                            == before.len());
                    }
                }
                assert(self.conns@.contains(x)) by {
                    assert(self.conns@[i as int] == x);
                }
                assert forall|a: int| 0 <= a < sorted@.len() implies self.conns@.contains(
                    #[trigger] sorted@[a],
                ) by {
                    if a < pos {
                        assert(sorted@[a] == before[a]);
                    } else if a > pos {
                        assert(sorted@[a] == before[a - 1]);
                    }
                }
                crate::lemma_insert_to_multiset(before, pos as int, x);
                assert(self.conns@.take(i + 1).drop_last() =~= self.conns@.take(i as int));
                assert(self.conns@.take(i + 1).last() == self.conns@[i as int]);
                self.conns@.take(i as int).to_multiset_ensures();
                assert(self.conns@.take(i + 1) =~= self.conns@.take(i as int).push(
                    self.conns@[i as int],
                ));
            }
            i = i + 1;
        }
        let keep: usize = if limit < sorted.len() {
            limit
        } else {
            sorted.len()
        };
        let ghost full = sorted@;
        sorted.truncate(keep);
        proof {
            assert(sorted@ == full.take(keep as int));
            assert(self.conns@.take(n as int) =~= self.conns@);
            assert(full.to_multiset() == self.conns@.to_multiset());
            assert forall|j: int|
                0 <= j < self.conns@.len() && (forall|a: int|
                    0 <= a < sorted@.len() ==> sorted@[a] != self.conns@[j]) implies sorted@.len()
                == limit && (sorted@.len() > 0 ==> spec_conn_traffic(#[trigger] self.conns@[j])
                <= spec_conn_traffic(sorted@[sorted@.len() - 1])) by {
                assert(self.conns@.contains(self.conns@[j]));
                assert(self.conns@.to_multiset().count(self.conns@[j]) > 0);
                assert(full.to_multiset().count(self.conns@[j]) > 0);
                assert(full.contains(self.conns@[j]));
                let m = choose|m: int| 0 <= m < full.len() && full[m] == self.conns@[j];
                if m < keep {
                    assert(sorted@[m] == full[m]);
                } else {
                    assert(keep < full.len());
                    assert(keep == limit);
                    if keep > 0 {
                        assert(spec_conn_traffic(full[keep - 1]) >= spec_conn_traffic(full[m]));
                        assert(sorted@[keep - 1] == full[keep - 1]);
                    }
                }
            }
        }
        sorted
    }
}

} // verus!
