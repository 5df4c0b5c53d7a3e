//! The protocol classifier and its per-protocol accounting.
//!
//! A packet is mapped to a protocol tag through a fixed well-known-port
//! table, destination port first; the classifier keeps a packet and byte
//! count for every tag it has returned.

use vstd::prelude::*;
use vstd::map::*;
use crate::packet::{PacketMeta, TransportTag};
use crate::sat_add_u64;
use crate::text::{spec_decimal, decimal_string};

verus! {

/// A protocol tag: the well-known application protocols, port-qualified
/// TCP and UDP, ICMP, and the unknown tag.
#[derive(Clone, Copy, Debug, PartialEq, Eq, Hash, Structural)]
pub enum ProtocolType {
    Http,
    Https,
    Ssh,
    Dns,
    Ftp,
    Smtp,
    Pop3,
    Imap,
    Telnet,
    Tcp(u16),
    Udp(u16),
    Icmp,
    Unknown,
}

/// The well-known-port table: the protocol conventionally bound to a port,
/// if any.
pub open spec fn spec_well_known(port: u16) -> Option<ProtocolType> {
    if port == 80 || port == 8080 {
        Some(ProtocolType::Http)
    } else if port == 443 || port == 8443 {
        Some(ProtocolType::Https)
    } else if port == 22 {
        Some(ProtocolType::Ssh)
    } else if port == 53 {
        Some(ProtocolType::Dns)
    } else if port == 21 || port == 20 {
        Some(ProtocolType::Ftp)
    } else if port == 25 || port == 587 {
        Some(ProtocolType::Smtp)
    } else if port == 110 || port == 995 {
        Some(ProtocolType::Pop3)
    } else if port == 143 || port == 993 {
        Some(ProtocolType::Imap)
    } else if port == 23 {
        Some(ProtocolType::Telnet)
    } else {
        None
    }
}

/// Look a port up in the well-known-port table.
pub fn well_known_protocol(port: u16) -> (r: Option<ProtocolType>)
    ensures
        r == spec_well_known(port),
{
    if port == 80 || port == 8080 {
        Some(ProtocolType::Http)
    } else if port == 443 || port == 8443 {
        Some(ProtocolType::Https)
    } else if port == 22 {
        Some(ProtocolType::Ssh)
    } else if port == 53 {
        Some(ProtocolType::Dns)
    } else if port == 21 || port == 20 {
        Some(ProtocolType::Ftp)
    } else if port == 25 || port == 587 {
        Some(ProtocolType::Smtp)
    } else if port == 110 || port == 995 {
        Some(ProtocolType::Pop3)
    } else if port == 143 || port == 993 {
        Some(ProtocolType::Imap)
    } else if port == 23 {
        Some(ProtocolType::Telnet)
    } else {
        None
    }
}

/// The protocol a transport-tagged packet classifies to: ICMP for the ICMP
/// tag; for TCP and UDP, a well-known-port hit with the destination port
/// consulted first, else the port-qualified tag with the destination port
/// preferred; unknown otherwise.
pub open spec fn spec_classify(p: PacketMeta) -> ProtocolType {
    match p.tag {
        TransportTag::Icmp => ProtocolType::Icmp,
        TransportTag::Tcp => {
            if p.dst_port matches Some(dp) && spec_well_known(dp) is Some {
                spec_well_known(p.dst_port.unwrap()).unwrap()
            } else if p.src_port matches Some(sp) && spec_well_known(sp) is Some {
                spec_well_known(p.src_port.unwrap()).unwrap()
            } else if p.dst_port is Some {
                ProtocolType::Tcp(p.dst_port.unwrap())
            } else if p.src_port is Some {
                ProtocolType::Tcp(p.src_port.unwrap())
            } else {
                ProtocolType::Unknown
            }
        },
        TransportTag::Udp => {
            if p.dst_port matches Some(dp) && spec_well_known(dp) is Some {
                spec_well_known(p.dst_port.unwrap()).unwrap()
            } else if p.src_port matches Some(sp) && spec_well_known(sp) is Some {
                spec_well_known(p.src_port.unwrap()).unwrap()
            } else if p.dst_port is Some {
                ProtocolType::Udp(p.dst_port.unwrap())
            } else if p.src_port is Some {
                ProtocolType::Udp(p.src_port.unwrap())
            } else {
                ProtocolType::Unknown
            }
        },
        TransportTag::Other(_) => ProtocolType::Unknown,
    }
}

/// Classification is a function of the packet's structure alone: equal
/// packets classify to equal protocols.
pub proof fn lemma_classify_deterministic(p1: PacketMeta, p2: PacketMeta)
    requires
        p1 == p2,
    ensures
        spec_classify(p1) == spec_classify(p2),
{
}

impl ProtocolType {
    /// Whether traffic of this protocol is conventionally encrypted.
    pub open spec fn spec_is_encrypted(self) -> bool {
        match self {
            ProtocolType::Https | ProtocolType::Ssh | ProtocolType::Pop3
                | ProtocolType::Imap => true,
            _ => false,
        }
    }

    /// Whether traffic of this protocol is conventionally encrypted.
    pub fn is_encrypted(&self) -> (r: bool)
        ensures
            r == self.spec_is_encrypted(),
    {
        match self {
            ProtocolType::Https | ProtocolType::Ssh | ProtocolType::Pop3
                | ProtocolType::Imap => true,
            _ => false,
        }
    }

    /// The conventional default port of the protocol, if any.
    pub open spec fn spec_default_port(self) -> Option<u16> {
        match self {
            ProtocolType::Http => Some(80u16),
            ProtocolType::Https => Some(443u16),
            ProtocolType::Ssh => Some(22u16),
            ProtocolType::Dns => Some(53u16),
            ProtocolType::Ftp => Some(21u16),
            ProtocolType::Smtp => Some(25u16),
            ProtocolType::Pop3 => Some(110u16),
            ProtocolType::Imap => Some(143u16),
            ProtocolType::Telnet => Some(23u16),
            ProtocolType::Tcp(port) => Some(port),
            ProtocolType::Udp(port) => Some(port),
            _ => None,
        }
    }

    /// The conventional default port of the protocol, if any.
    pub fn default_port(&self) -> (r: Option<u16>)
        ensures
            r == self.spec_default_port(),
    {
        match self {
            ProtocolType::Http => Some(80),
            ProtocolType::Https => Some(443),
            ProtocolType::Ssh => Some(22),
            ProtocolType::Dns => Some(53),
            ProtocolType::Ftp => Some(21),
            ProtocolType::Smtp => Some(25),
            ProtocolType::Pop3 => Some(110),
            ProtocolType::Imap => Some(143),
            ProtocolType::Telnet => Some(23),
            ProtocolType::Tcp(port) => Some(*port),
            ProtocolType::Udp(port) => Some(*port),
            _ => None,
        }
    }

    /// The short display name of the protocol.
    pub open spec fn spec_display_name(self) -> Seq<char> {
        match self {
            ProtocolType::Http => "HTTP"@,
            ProtocolType::Https => "HTTPS"@,
            ProtocolType::Ssh => "SSH"@,
            ProtocolType::Dns => "DNS"@,
            ProtocolType::Ftp => "FTP"@,
            ProtocolType::Smtp => "SMTP"@,
            ProtocolType::Pop3 => "POP3"@,
            ProtocolType::Imap => "IMAP"@,
            ProtocolType::Telnet => "TELNET"@,
            ProtocolType::Tcp(port) => "TCP:"@ + spec_decimal(port as int),
            ProtocolType::Udp(port) => "UDP:"@ + spec_decimal(port as int),
            ProtocolType::Icmp => "ICMP"@,
            ProtocolType::Unknown => "UNKNOWN"@,
        }
    }

    /// The short display name of the protocol.
    pub fn display_name(&self) -> (r: String)
        ensures
            r@ == self.spec_display_name(),
    {
        match self {
            ProtocolType::Http => "HTTP".to_owned(),
            ProtocolType::Https => "HTTPS".to_owned(),
            ProtocolType::Ssh => "SSH".to_owned(),
            ProtocolType::Dns => "DNS".to_owned(),
            ProtocolType::Ftp => "FTP".to_owned(),
            ProtocolType::Smtp => "SMTP".to_owned(),
            ProtocolType::Pop3 => "POP3".to_owned(),
            ProtocolType::Imap => "IMAP".to_owned(),
            ProtocolType::Telnet => "TELNET".to_owned(),
            ProtocolType::Tcp(port) => "TCP:".to_owned().concat(
                decimal_string(*port as u64).as_str(),
            ),
            ProtocolType::Udp(port) => "UDP:".to_owned().concat(
                decimal_string(*port as u64).as_str(),
            ),
            ProtocolType::Icmp => "ICMP".to_owned(),
            ProtocolType::Unknown => "UNKNOWN".to_owned(),
        }
    }

    /// The long description of the protocol.
    pub open spec fn spec_description(self) -> Seq<char> {
        match self {
            ProtocolType::Http => "Hypertext Transfer Protocol"@,
            ProtocolType::Https => "HTTP Secure (TLS/SSL)"@,
            ProtocolType::Ssh => "Secure Shell"@,
            ProtocolType::Dns => "Domain Name System"@,
            ProtocolType::Ftp => "File Transfer Protocol"@,
            ProtocolType::Smtp => "Simple Mail Transfer Protocol"@,
            ProtocolType::Pop3 => "Post Office Protocol v3"@,
            ProtocolType::Imap => "Internet Message Access Protocol"@,
            ProtocolType::Telnet => "Telnet Protocol"@,
            ProtocolType::Tcp(port) => "TCP (port "@ + spec_decimal(port as int) + ")"@,
            ProtocolType::Udp(port) => "UDP (port "@ + spec_decimal(port as int) + ")"@,
            ProtocolType::Icmp => "Internet Control Message Protocol"@,
            ProtocolType::Unknown => "Unknown Protocol"@,
        }
    }

    /// The long description of the protocol.
    pub fn description(&self) -> (r: String)
        ensures
            r@ == self.spec_description(),
    {
        match self {
            ProtocolType::Http => "Hypertext Transfer Protocol".to_owned(),
            ProtocolType::Https => "HTTP Secure (TLS/SSL)".to_owned(),
            ProtocolType::Ssh => "Secure Shell".to_owned(),
            ProtocolType::Dns => "Domain Name System".to_owned(),
            ProtocolType::Ftp => "File Transfer Protocol".to_owned(),
            ProtocolType::Smtp => "Simple Mail Transfer Protocol".to_owned(),
            ProtocolType::Pop3 => "Post Office Protocol v3".to_owned(),
            ProtocolType::Imap => "Internet Message Access Protocol".to_owned(),
            ProtocolType::Telnet => "Telnet Protocol".to_owned(),
            ProtocolType::Tcp(port) => "TCP (port ".to_owned().concat(
                decimal_string(*port as u64).as_str(),
            ).concat(")"),
            ProtocolType::Udp(port) => "UDP (port ".to_owned().concat(
                decimal_string(*port as u64).as_str(),
            ).concat(")"),
            ProtocolType::Icmp => "Internet Control Message Protocol".to_owned(),
            ProtocolType::Unknown => "Unknown Protocol".to_owned(),
        }
    }
}

/// The accounting record of one protocol: its tag, static attributes, and
/// the packets and bytes attributed to it.
#[derive(Clone, Copy, Debug)]
pub struct ProtocolInfo {
    pub protocol_type: ProtocolType,
    pub is_encrypted: bool,
    pub default_port: Option<u16>,
    pub packet_count: u64,
    pub byte_count: u64,
}

/// The counts held in a record sequence, as a map from protocol to its
/// packet and byte counts.
pub open spec fn spec_stats_map_of(s: Seq<ProtocolInfo>) -> Map<ProtocolType, (u64, u64)>
    decreases s.len(),
{
    if s.len() == 0 {
        Map::empty()
    } else {
        spec_stats_map_of(s.drop_last()).insert(
            s.last().protocol_type,
            (s.last().packet_count, s.last().byte_count),
        )
    }
}

/// The protocol classifier with its per-protocol records.
pub struct ProtocolAnalyzer {
    pub stats: Vec<ProtocolInfo>,
}

impl ProtocolAnalyzer {
    /// Each protocol has at most one record, and each record carries the
    /// protocol's canonical attributes.
    pub open spec fn wf(self) -> bool {
        &&& forall|i: int, j: int|
            0 <= i < j < self.stats@.len() ==> (#[trigger] self.stats@[i]).protocol_type != (
            #[trigger] self.stats@[j]).protocol_type
        &&& forall|i: int|
            0 <= i < self.stats@.len() ==> {
                &&& (#[trigger] self.stats@[i]).is_encrypted
                    == self.stats@[i].protocol_type.spec_is_encrypted()
                &&& self.stats@[i].default_port == self.stats@[i].protocol_type.spec_default_port()
            }
    }

    /// The counts the analyzer holds, as a map from protocol to its packet
    /// and byte counts.
    pub open spec fn stats_map(self) -> Map<ProtocolType, (u64, u64)> {
        spec_stats_map_of(self.stats@)
    }

    /// The record sequence the analyzer holds.
    pub open spec fn spec_records(self) -> Seq<ProtocolInfo> {
        self.stats@
    }

    /// A fresh classifier with no records.
    pub fn new() -> (r: ProtocolAnalyzer)
        ensures
            r.wf(),
            r.stats_map() == Map::<ProtocolType, (u64, u64)>::empty(),
            r.spec_records().len() == 0,
    {
        ProtocolAnalyzer { stats: Vec::new() }
    }

    /// The records, one per protocol seen.
    pub fn get_protocol_statistics(&self) -> (r: &Vec<ProtocolInfo>)
        ensures
            r@ == self.spec_records(),
            spec_stats_map_of(r@) == self.stats_map(),
    {
        &self.stats
    }

    /// Classify a packet without touching the records.
    pub fn identify_protocol(&self, packet: &PacketMeta) -> (r: ProtocolType)
        ensures
            r == spec_classify(*packet),
    {
        match &packet.tag {
            TransportTag::Icmp => ProtocolType::Icmp,
            TransportTag::Tcp => {
                if let Some(dp) = packet.dst_port {
                    if let Some(known) = well_known_protocol(dp) {
                        return known;
                    }
                }
                if let Some(sp) = packet.src_port {
                    if let Some(known) = well_known_protocol(sp) {
                        return known;
                    }
                }
                if let Some(dp) = packet.dst_port {
                    ProtocolType::Tcp(dp)
                } else if let Some(sp) = packet.src_port {
                    ProtocolType::Tcp(sp)
                } else {
                    ProtocolType::Unknown
                }
            },
            TransportTag::Udp => {
                if let Some(dp) = packet.dst_port {
                    if let Some(known) = well_known_protocol(dp) {
                        return known;
                    }
                }
                if let Some(sp) = packet.src_port {
                    if let Some(known) = well_known_protocol(sp) {
                        return known;
                    }
                }
                if let Some(dp) = packet.dst_port {
                    ProtocolType::Udp(dp)
                } else if let Some(sp) = packet.src_port {
                    ProtocolType::Udp(sp)
                } else {
                    ProtocolType::Unknown
                }
            },
            TransportTag::Other(_) => ProtocolType::Unknown,
        }
    }

    /// Classify a packet and attribute it to the protocol's record: its
    /// packet count rises by one and its byte count by the packet length,
    /// both saturating; every other record is untouched.
    pub fn analyze_packet(&mut self, packet: &PacketMeta) -> (r: ProtocolType)
        requires
            old(self).wf(),
        ensures
            final(self).wf(),
            r == spec_classify(*packet),
            ({
                let prev = if old(self).stats_map().contains_key(r) {
                    old(self).stats_map()[r]
                } else {
                    (0u64, 0u64)
                };
                final(self).stats_map() == old(self).stats_map().insert(
                    r,
                    (sat_add_u64(prev.0, 1), sat_add_u64(prev.1, packet.length as u64)),
                )
            }),
    {
        let protocol = self.identify_protocol(packet);
        let n = self.stats.len();
        let ghost s0 = self.stats@;
        let mut i: usize = 0;
        while i < n
            invariant
                0 <= i <= n == self.stats@.len(),
                s0 == self.stats@,
                s0 == old(self).stats@,
                old(self).wf(),
                protocol == spec_classify(*packet),
                forall|k: int| 0 <= k < i ==> (#[trigger] s0[k]).protocol_type != protocol,
            decreases n - i,
        {
            if self.stats[i].protocol_type == protocol {
                proof {
                    lemma_stats_map_at(s0, i as int);
                }
                let entry = self.stats[i];
                let updated = ProtocolInfo {
                    packet_count: entry.packet_count.saturating_add(1),
                    byte_count: entry.byte_count.saturating_add(packet.length as u64),
                    ..entry
                };
                self.stats.set(i, updated);
                proof {
                    lemma_stats_map_update(s0, i as int, updated);
                }
                return protocol;
            }
            i = i + 1;
        }
        let fresh = ProtocolInfo {
            protocol_type: protocol,
            is_encrypted: protocol.is_encrypted(),
            default_port: protocol.default_port(),
            packet_count: 1,
            byte_count: packet.length as u64,
        };
        self.stats.push(fresh);
        proof {
            assert(self.stats@.drop_last() =~= s0);
            lemma_stats_map_absent(s0, protocol);
        }
        protocol
    }

    /// Drop every record.
    pub fn reset_statistics(&mut self)
        ensures
            final(self).wf(),
            final(self).stats_map() == Map::<ProtocolType, (u64, u64)>::empty(),
            final(self).spec_records().len() == 0,
    {
        self.stats.clear();
    }
}

/// In a record sequence with pairwise-distinct protocols, the map entry of
/// an indexed record holds that record's counts.
proof fn lemma_stats_map_at(s: Seq<ProtocolInfo>, i: int)
    requires
        0 <= i < s.len(),
        forall|a: int, b: int|
            0 <= a < b < s.len() ==> (#[trigger] s[a]).protocol_type != (
            #[trigger] s[b]).protocol_type,
    ensures
        spec_stats_map_of(s).contains_key(s[i].protocol_type),
        spec_stats_map_of(s)[s[i].protocol_type] == (s[i].packet_count, s[i].byte_count),
    decreases s.len(),
{
    if i < s.len() - 1 {
        lemma_stats_map_at(s.drop_last(), i);
        assert(s.drop_last()[i] == s[i]);
        assert(s.last().protocol_type != s[i].protocol_type);
    }
}

/// In a record sequence with pairwise-distinct protocols, replacing an
/// indexed record with one of the same protocol replaces its map entry.
proof fn lemma_stats_map_update(s: Seq<ProtocolInfo>, i: int, v: ProtocolInfo)
    requires
        0 <= i < s.len(),
        v.protocol_type == s[i].protocol_type,
        forall|a: int, b: int|
            0 <= a < b < s.len() ==> (#[trigger] s[a]).protocol_type != (
            #[trigger] s[b]).protocol_type,
    ensures
        spec_stats_map_of(s.update(i, v)) == spec_stats_map_of(s).insert(
            v.protocol_type,
            (v.packet_count, v.byte_count),
        ),
    decreases s.len(),
{
    let t = s.update(i, v);
    if i == s.len() - 1 {
        assert(t.drop_last() =~= s.drop_last());
        assert(t.last() == v);
        assert_maps_equal!(
            spec_stats_map_of(t),
            spec_stats_map_of(s).insert(v.protocol_type, (v.packet_count, v.byte_count))
        );
    } else {
        lemma_stats_map_update(s.drop_last(), i, v);
        assert(t.drop_last() =~= s.drop_last().update(i, v));
        assert(t.last() == s.last());
        assert(s.last().protocol_type != v.protocol_type);
        assert_maps_equal!(
            spec_stats_map_of(t),
            spec_stats_map_of(s).insert(v.protocol_type, (v.packet_count, v.byte_count))
        );
    }
}

/// A protocol that appears in no record has no map entry.
proof fn lemma_stats_map_absent(s: Seq<ProtocolInfo>, t: ProtocolType)
    requires
        forall|k: int| 0 <= k < s.len() ==> (#[trigger] s[k]).protocol_type != t,
    ensures
        !spec_stats_map_of(s).contains_key(t),
    decreases s.len(),
{
    if s.len() > 0 {
        lemma_stats_map_absent(s.drop_last(), t);
    }
}

/// The packet total of a record sequence, accumulated with saturation.
pub open spec fn spec_total_packets(s: Seq<ProtocolInfo>) -> u64
    decreases s.len(),
{
    if s.len() == 0 {
        0
    } else {
        sat_add_u64(spec_total_packets(s.drop_last()), s.last().packet_count)
    }
}

/// The byte total of a record sequence, accumulated with saturation.
pub open spec fn spec_total_bytes(s: Seq<ProtocolInfo>) -> u64
    decreases s.len(),
{
    if s.len() == 0 {
        0
    } else {
        sat_add_u64(spec_total_bytes(s.drop_last()), s.last().byte_count)
    }
}

impl ProtocolAnalyzer {
    /// The total of all packet counts, saturating.
    pub fn get_total_packets(&self) -> (r: u64)
        ensures
            r == spec_total_packets(self.spec_records()),
    {
        let n = self.stats.len();
        let mut acc: u64 = 0;
        let mut i: usize = 0;
        while i < n
            invariant
                0 <= i <= n == self.stats@.len(),
                acc == spec_total_packets(self.stats@.take(i as int)),
            decreases n - i,
        {
            proof {
                assert(self.stats@.take(i + 1).drop_last() =~= self.stats@.take(i as int));
                assert(self.stats@.take(i + 1).last() == self.stats@[i as int]);
            }
            acc = acc.saturating_add(self.stats[i].packet_count);
            i = i + 1;
        }
        proof {
            assert(self.stats@.take(n as int) =~= self.stats@);
        }
        acc
    }

    /// The total of all byte counts, saturating.
    pub fn get_total_bytes(&self) -> (r: u64)
        ensures
            r == spec_total_bytes(self.spec_records()),
    {
        let n = self.stats.len();
        let mut acc: u64 = 0;
        let mut i: usize = 0;
        while i < n
            invariant
                0 <= i <= n == self.stats@.len(),
                acc == spec_total_bytes(self.stats@.take(i as int)),
            decreases n - i,
        {
            proof {
                assert(self.stats@.take(i + 1).drop_last() =~= self.stats@.take(i as int));
                assert(self.stats@.take(i + 1).last() == self.stats@[i as int]);
            }
            acc = acc.saturating_add(self.stats[i].byte_count);
            i = i + 1;
        }
        proof {
            assert(self.stats@.take(n as int) =~= self.stats@);
        }
        acc
    }

    /// The records of the most active protocols: at most `limit` records,
    /// ordered by falling packet count, all drawn from the held records;
    /// when a held record is left out, the list is full and the record's
    /// packet count is at most the last listed one.
    pub fn get_top_protocols(&self, limit: usize) -> (r: Vec<ProtocolInfo>)
        ensures
            r@.len() == if limit < self.spec_records().len() {
                limit as int
            } else {
                self.spec_records().len() as int
            },
            forall|a: int, b: int|
                0 <= a <= b < r@.len() ==> (#[trigger] r@[a]).packet_count >= (
                #[trigger] r@[b]).packet_count,
            forall|a: int| 0 <= a < r@.len() ==> self.spec_records().contains(#[trigger] r@[a]),
            forall|j: int|
                0 <= j < self.spec_records().len() && (forall|a: int|
                    0 <= a < r@.len() ==> r@[a] != self.spec_records()[j]) ==> r@.len() == limit
                    && (r@.len() > 0 ==> (#[trigger] self.spec_records()[j]).packet_count
                    <= r@[r@.len() - 1].packet_count),
    {
        broadcast use vstd::seq_lib::group_to_multiset_ensures;

        let n = self.stats.len();
        let mut sorted: Vec<ProtocolInfo> = Vec::new();
        proof {
            assert(self.stats@.take(0) =~= Seq::<ProtocolInfo>::empty());
        }
        let mut i: usize = 0;
        while i < n
            invariant
                0 <= i <= n == self.stats@.len(),
                sorted@.len() == i,
                forall|a: int, b: int|
                    0 <= a <= b < sorted@.len() ==> (#[trigger] sorted@[a]).packet_count >= (
                    #[trigger] sorted@[b]).packet_count,
                forall|a: int|
                    0 <= a < sorted@.len() ==> self.stats@.contains(#[trigger] sorted@[a]),
                sorted@.to_multiset() == self.stats@.take(i as int).to_multiset(),
            decreases n - i,
        {
            let x = self.stats[i];
            let mut pos: usize = 0;
            while pos < sorted.len() && sorted[pos].packet_count >= x.packet_count
                invariant
                    0 <= pos <= sorted@.len(),
                    forall|k: int|
                        0 <= k < pos ==> (#[trigger] sorted@[k]).packet_count >= x.packet_count,
                decreases sorted@.len() - pos,
            {
                pos = pos + 1;
            }
            let ghost before = sorted@;
            sorted.insert(pos, x);
            proof {
                before.insert_ensures(pos as int, x);
                assert forall|a: int, b: int|
                    0 <= a <= b < sorted@.len() implies (#[trigger] sorted@[a]).packet_count >= (
                    #[trigger] sorted@[b]).packet_count by {
                    if a < pos {
                        assert(sorted@[a] == before[a]);
                    } else if a == pos {
                        assert(sorted@[a] == x);
                    } else {
                        assert(sorted@[a] == before[a - 1]);
                    }
                    if b < pos {
                        assert(sorted@[b] == before[b]);
                    } else if b == pos {
                        assert(sorted@[b] == x);
                    } else {
                        assert(sorted@[b] == before[b - 1]);
                    }
                    if b == pos && a < pos {
                        assert(before[a].packet_count >= x.packet_count);
                    }
                    if a == pos && b > pos {
                        assert(x.packet_count > before[pos as int].packet_count || pos
                            == before.len());
                    }
                }
                assert(self.stats@.contains(x)) by {
                    assert(self.stats@[i as int] == x);
                }
                assert forall|a: int| 0 <= a < sorted@.len() implies self.stats@.contains(
                    #[trigger] sorted@[a],
                ) by {
                    if a < pos {
                        assert(sorted@[a] == before[a]);
                    } else if a > pos {
                        assert(sorted@[a] == before[a - 1]);
                    }
                }
                crate::lemma_insert_to_multiset(before, pos as int, x);
                assert(self.stats@.take(i + 1).drop_last() =~= self.stats@.take(i as int));
                assert(self.stats@.take(i + 1).last() == self.stats@[i as int]);
                self.stats@.take(i as int).to_multiset_ensures();
                assert(self.stats@.take(i + 1) =~= self.stats@.take(i as int).push(
                    self.stats@[i as int],
                ));
            }
            i = i + 1;
        }
        let keep: usize = if limit < sorted.len() {
            limit
        } else {
            sorted.len()
        };
        let ghost full = sorted@;
        sorted.truncate(keep);
        proof {
            assert(sorted@ == full.take(keep as int));
            assert(self.stats@.take(n as int) =~= self.stats@);
            assert(full.to_multiset() == self.stats@.to_multiset());
            assert forall|j: int|
                0 <= j < self.stats@.len() && (forall|a: int|
                    0 <= a < sorted@.len() ==> sorted@[a] != self.stats@[j]) implies sorted@.len()
                == limit && (sorted@.len() > 0 ==> (#[trigger] self.stats@[j]).packet_count
                <= sorted@[sorted@.len() - 1].packet_count) by {
                assert(self.stats@.contains(self.stats@[j]));
                assert(self.stats@.to_multiset().count(self.stats@[j]) > 0);
                assert(full.to_multiset().count(self.stats@[j]) > 0);
                assert(full.contains(self.stats@[j]));
                let m = choose|m: int| 0 <= m < full.len() && full[m] == self.stats@[j];
                if m < keep {
                    assert(sorted@[m] == full[m]);
                } else {
                    assert(keep < full.len());
                    assert(keep == limit);
                    if keep > 0 {
                        assert(full[keep - 1].packet_count >= full[m].packet_count);
                        assert(sorted@[keep - 1] == full[keep - 1]);
                    }
                }
            }
        }
        sorted
    }
}

impl ProtocolAnalyzer {
    /// Classify a packet by its port conventions alone; the payload slot
    /// is an extension point for signature inspection and is ignored.
    pub fn deep_packet_inspection(&self, packet: &PacketMeta, _payload: Option<&Vec<u8>>) -> (r:
        ProtocolType)
        ensures
            r == spec_classify(*packet),
    {
        self.identify_protocol(packet)
    }
}

} // verus!
