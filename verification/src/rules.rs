//! Firewall rules: what they match and how they are built.
//!
//! A rule names an action, a direction, a protocol, optional address and
//! port sets, and a priority. A missing set means any value is accepted; a
//! present set demands membership.

use vstd::prelude::*;
use crate::net::IpAddress;
use crate::sat_add_u64;

verus! {

/// What a matching rule does to a packet.
#[derive(Clone, Copy, Debug, PartialEq, Eq, Structural)]
pub enum RuleAction {
    Allow,
    Block,
    Log,
    LogAndBlock,
}

/// Which direction of traffic a rule applies to.
#[derive(Clone, Copy, Debug, PartialEq, Eq, Structural)]
pub enum RuleDirection {
    Inbound,
    Outbound,
    Bidirectional,
}

/// Which transport protocol a rule applies to.
#[derive(Clone, Copy, Debug, PartialEq, Eq, Structural)]
pub enum RuleProtocol {
    TCP,
    UDP,
    ICMP,
    Any,
}

/// One firewall rule.
#[derive(Clone, Debug)]
pub struct FirewallRule {
    pub id: u32,
    pub name: String,
    pub enabled: bool,
    pub action: RuleAction,
    pub direction: RuleDirection,
    pub protocol: RuleProtocol,
    /// Source addresses the rule accepts; absent means any.
    pub source_ips: Option<Vec<IpAddress>>,
    /// Destination addresses the rule accepts; absent means any.
    pub destination_ips: Option<Vec<IpAddress>>,
    /// Source ports the rule accepts; absent means any.
    pub source_ports: Option<Vec<u16>>,
    /// Destination ports the rule accepts; absent means any.
    pub destination_ports: Option<Vec<u16>>,
    /// Higher priorities are evaluated first.
    pub priority: u8,
    pub description: String,
    pub created_at: u64,
    pub last_matched: Option<u64>,
    pub match_count: u64,
}

/// Whether an optional address set accepts an address: a missing set
/// accepts everything.
pub open spec fn spec_ip_set_accepts(set: Option<Vec<IpAddress>>, ip: IpAddress) -> bool {
    match set {
        Some(l) => l@.contains(ip),
        None => true,
    }
}

/// Whether an optional port set accepts a port: a missing set accepts
/// everything.
pub open spec fn spec_port_set_accepts(set: Option<Vec<u16>>, port: u16) -> bool {
    match set {
        Some(l) => l@.contains(port),
        None => true,
    }
}

/// Whether a rule matches a packet reduced to its fields: the rule is
/// enabled, its protocol is any or equal, its direction is bidirectional
/// or equal, and every present set contains the corresponding field.
pub open spec fn spec_matches_packet(
    r: FirewallRule,
    src_ip: IpAddress,
    dst_ip: IpAddress,
    src_port: u16,
    dst_port: u16,
    protocol: RuleProtocol,
    direction: RuleDirection,
) -> bool {
    &&& r.enabled
    &&& (r.protocol is Any || r.protocol == protocol)
    &&& (r.direction is Bidirectional || r.direction == direction)
    &&& spec_ip_set_accepts(r.source_ips, src_ip)
    &&& spec_ip_set_accepts(r.destination_ips, dst_ip)
    &&& spec_port_set_accepts(r.source_ports, src_port)
    &&& spec_port_set_accepts(r.destination_ports, dst_port)
}

/// Whether a vector of addresses holds an address.
fn ip_vec_contains(l: &Vec<IpAddress>, ip: &IpAddress) -> (r: bool)
    ensures
        r == l@.contains(*ip),
{
    let n = l.len();
    let mut i: usize = 0;
    while i < n
        invariant
            0 <= i <= n == l@.len(),
            forall|j: int| 0 <= j < i ==> l@[j] != *ip,
        decreases n - i,
    {
        if l[i] == *ip {
            return true;
        }
        i = i + 1;
    }
    false
}

/// Whether a vector of ports holds a port.
fn port_vec_contains(l: &Vec<u16>, port: u16) -> (r: bool)
    ensures
        r == l@.contains(port),
{
    let n = l.len();
    let mut i: usize = 0;
    while i < n
        invariant
            0 <= i <= n == l@.len(),
            forall|j: int| 0 <= j < i ==> l@[j] != port,
        decreases n - i,
    {
        if l[i] == port {
            return true;
        }
        i = i + 1;
    }
    false
}

impl FirewallRule {
    /// A fresh enabled rule of medium priority with no sets, created at
    /// the epoch; the caller stamps a creation time where one matters.
    pub fn new(
        id: u32,
        name: String,
        action: RuleAction,
        direction: RuleDirection,
        protocol: RuleProtocol,
    ) -> (r: FirewallRule)
        ensures
            r.id == id,
            r.name == name,
            r.enabled,
            r.action == action,
            r.direction == direction,
            r.protocol == protocol,
            r.source_ips is None,
            r.destination_ips is None,
            r.source_ports is None,
            r.destination_ports is None,
            r.priority == 128,
            r.description@ == Seq::<char>::empty(),
            r.created_at == 0,
            r.last_matched is None,
            r.match_count == 0,
    {
        FirewallRule {
            id,
            name,
            enabled: true,
            action,
            direction,
            protocol,
            source_ips: None,
            destination_ips: None,
            source_ports: None,
            destination_ports: None,
            priority: 128,
            description: String::new(),
            created_at: 0,
            last_matched: None,
            match_count: 0,
        }
    }

    /// The rule with an address added to its source set; a fresh set is
    /// opened where none was present, and a present address is not added
    /// twice.
    pub fn with_source_ip(self, ip: IpAddress) -> (r: FirewallRule)
        ensures
            (r.source_ips matches Some(l) && {
                let before = match self.source_ips {
                    Some(b) => b@,
                    None => Seq::<IpAddress>::empty(),
                };
                l@ == if before.contains(ip) {
                    before
                } else {
                    before.push(ip)
                }
            }),
            r == (FirewallRule { source_ips: r.source_ips, ..self }),
    {
        let mut set = match self.source_ips {
            Some(l) => l,
            None => Vec::new(),
        };
        if !ip_vec_contains(&set, &ip) {
            set.push(ip);
        }
        FirewallRule { source_ips: Some(set), ..self }
    }

    /// The rule with every given address added to its source set.
    pub fn with_source_ips(self, ips: Vec<IpAddress>) -> (r: FirewallRule)
        ensures
            (r.source_ips matches Some(l) && forall|i: int|
                0 <= i < ips@.len() ==> l@.contains(#[trigger] ips@[i])),
            (r.source_ips matches Some(l) && forall|i: int|
                0 <= i < l@.len() ==> ips@.contains(#[trigger] l@[i]) || (
                self.source_ips matches Some(b) && b@.contains(l@[i]))),
            r == (FirewallRule { source_ips: r.source_ips, ..self }),
    {
        let mut set = match self.source_ips {
            Some(l) => l,
            None => Vec::new(),
        };
        let ghost base = set@;
        let ghost orig = self.source_ips;
        let n = ips.len();
        proof {
            assert(forall|i: int|
                0 <= i < base.len() ==> (orig matches Some(b) && b@.contains(#[trigger] base[i])));
        }
        let mut i: usize = 0;
        while i < n
            invariant
                0 <= i <= n == ips@.len(),
                forall|j: int| 0 <= j < i ==> set@.contains(#[trigger] ips@[j]),
                forall|j: int|
                    0 <= j < set@.len() ==> ips@.contains(#[trigger] set@[j]) || (
                    orig matches Some(b) && b@.contains(set@[j])),
            decreases n - i,
        {
            if !ip_vec_contains(&set, &ips[i]) {
                let ghost before = set@;
                set.push(ips[i]);
                proof {
                    assert forall|j: int| 0 <= j < i + 1 implies set@.contains(
                        #[trigger] ips@[j],
                    ) by {
                        if j < i {
                            let x = choose|x: int| 0 <= x < before.len() && before[x] == ips@[j];
                            assert(set@[x] == ips@[j]);
                        } else {
                            assert(set@[set@.len() - 1] == ips@[j]);
                        }
                    }
                }
            }
            i = i + 1;
        }
        FirewallRule { source_ips: Some(set), ..self }
    }

    /// The rule with an address added to its destination set.
    pub fn with_destination_ip(self, ip: IpAddress) -> (r: FirewallRule)
        ensures
            (r.destination_ips matches Some(l) && {
                let before = match self.destination_ips {
                    Some(b) => b@,
                    None => Seq::<IpAddress>::empty(),
                };
                l@ == if before.contains(ip) {
                    before
                } else {
                    before.push(ip)
                }
            }),
            r == (FirewallRule { destination_ips: r.destination_ips, ..self }),
    {
        let mut set = match self.destination_ips {
            Some(l) => l,
            None => Vec::new(),
        };
        if !ip_vec_contains(&set, &ip) {
            set.push(ip);
        }
        FirewallRule { destination_ips: Some(set), ..self }
    }

    /// The rule with a port added to its source-port set.
    pub fn with_source_port(self, port: u16) -> (r: FirewallRule)
        ensures
            (r.source_ports matches Some(l) && {
                let before = match self.source_ports {
                    Some(b) => b@,
                    None => Seq::<u16>::empty(),
                };
                l@ == if before.contains(port) {
                    before
                } else {
                    before.push(port)
                }
            }),
            r == (FirewallRule { source_ports: r.source_ports, ..self }),
    {
        let mut set = match self.source_ports {
            Some(l) => l,
            None => Vec::new(),
        };
        if !port_vec_contains(&set, port) {
            set.push(port);
        }
        FirewallRule { source_ports: Some(set), ..self }
    }

    /// The rule with a port added to its destination-port set.
    pub fn with_destination_port(self, port: u16) -> (r: FirewallRule)
        ensures
            (r.destination_ports matches Some(l) && {
                let before = match self.destination_ports {
                    Some(b) => b@,
                    None => Seq::<u16>::empty(),
                };
                l@ == if before.contains(port) {
                    before
                } else {
                    before.push(port)
                }
            }),
            r == (FirewallRule { destination_ports: r.destination_ports, ..self }),
    {
        let mut set = match self.destination_ports {
            Some(l) => l,
            None => Vec::new(),
        };
        if !port_vec_contains(&set, port) {
            set.push(port);
        }
        FirewallRule { destination_ports: Some(set), ..self }
    }

    /// The rule with every given port added to its destination-port set.
    pub fn with_destination_ports(self, ports: Vec<u16>) -> (r: FirewallRule)
        ensures
            (r.destination_ports matches Some(l) && forall|i: int|
                0 <= i < ports@.len() ==> l@.contains(#[trigger] ports@[i])),
            (r.destination_ports matches Some(l) && forall|i: int|
                0 <= i < l@.len() ==> ports@.contains(#[trigger] l@[i]) || (
                self.destination_ports matches Some(b) && b@.contains(l@[i]))),
            r == (FirewallRule { destination_ports: r.destination_ports, ..self }),
    {
        let mut set = match self.destination_ports {
            Some(l) => l,
            None => Vec::new(),
        };
        let ghost orig = self.destination_ports;
        let n = ports.len();
        let mut i: usize = 0;
        while i < n
            invariant
                0 <= i <= n == ports@.len(),
                forall|j: int| 0 <= j < i ==> set@.contains(#[trigger] ports@[j]),
                forall|j: int|
                    0 <= j < set@.len() ==> ports@.contains(#[trigger] set@[j]) || (
                    orig matches Some(b) && b@.contains(set@[j])),
            decreases n - i,
        {
            if !port_vec_contains(&set, ports[i]) {
                let ghost before = set@;
                set.push(ports[i]);
                proof {
                    assert forall|j: int| 0 <= j < i + 1 implies set@.contains(
                        #[trigger] ports@[j],
                    ) by {
                        if j < i {
                            let x = choose|x: int| 0 <= x < before.len() && before[x] == ports@[j];
                            assert(set@[x] == ports@[j]);
                        } else {
                            assert(set@[set@.len() - 1] == ports@[j]);
                        }
                    }
                }
            }
            i = i + 1;
        }
        FirewallRule { destination_ports: Some(set), ..self }
    }

    /// The rule with its priority replaced.
    pub fn with_priority(self, priority: u8) -> (r: FirewallRule)
        ensures
            r == (FirewallRule { priority, ..self }),
    {
        FirewallRule { priority, ..self }
    }

    /// The rule with its description replaced.
    pub fn with_description(self, description: String) -> (r: FirewallRule)
        ensures
            r == (FirewallRule { description, ..self }),
    {
        FirewallRule { description, ..self }
    }

    /// The rule with its creation time stamped.
    pub fn with_created_at(self, created_at: u64) -> (r: FirewallRule)
        ensures
            r == (FirewallRule { created_at, ..self }),
    {
        FirewallRule { created_at, ..self }
    }

    /// Whether the rule matches a packet reduced to its fields.
    pub fn matches_packet(
        &self,
        src_ip: &IpAddress,
        dst_ip: &IpAddress,
        src_port: u16,
        dst_port: u16,
        protocol: &RuleProtocol,
        direction: &RuleDirection,
    ) -> (r: bool)
        ensures
            r == spec_matches_packet(
                *self,
                *src_ip,
                *dst_ip,
                src_port,
                dst_port,
                *protocol,
                *direction,
            ),
    {
        if !self.enabled {
            return false;
        }
        let proto_ok = match self.protocol {
            RuleProtocol::Any => true,
            _ => self.protocol == *protocol,
        };
        if !proto_ok {
            return false;
        }
        let dir_ok = match self.direction {
            RuleDirection::Bidirectional => true,
            _ => self.direction == *direction,
        };
        if !dir_ok {
            return false;
        }
        if let Some(ref allowed) = self.source_ips {
            if !ip_vec_contains(allowed, src_ip) {
                return false;
            }
        }
        if let Some(ref allowed) = self.destination_ips {
            if !ip_vec_contains(allowed, dst_ip) {
                return false;
            }
        }
        if let Some(ref allowed) = self.source_ports {
            if !port_vec_contains(allowed, src_port) {
                return false;
            }
        }
        if let Some(ref allowed) = self.destination_ports {
            if !port_vec_contains(allowed, dst_port) {
                return false;
            }
        }
        true
    }

    /// Note a match: the match count rises by one, saturating, and the
    /// time of the match is recorded.
    pub fn record_match(&mut self, now: u64)
        ensures
            *final(self) == (FirewallRule {
                match_count: sat_add_u64(old(self).match_count, 1),
                last_matched: Some(now),
                ..*old(self)
            }),
    {
        self.last_matched = Some(now);
        self.match_count = self.match_count.saturating_add(1);
    }
}

/// Ready-made rules for common situations.
pub struct RuleTemplates;

impl RuleTemplates {
    /// Block every inbound connection, at high priority.
    pub fn block_all_incoming() -> (r: FirewallRule)
        ensures
            r.action is Block,
            r.direction is Inbound,
            r.protocol is Any,
            r.priority == 200,
            r.enabled,
            r.source_ips is None,
            r.destination_ips is None,
            r.source_ports is None,
            r.destination_ports is None,
    {
        FirewallRule::new(
            1,
            "Block All Incoming".to_owned(),
            RuleAction::Block,
            RuleDirection::Inbound,
            RuleProtocol::Any,
        ).with_description("Block all incoming connections".to_owned()).with_priority(200)
    }

    /// Allow inbound secure-shell traffic.
    pub fn allow_ssh() -> (r: FirewallRule)
        ensures
            r.action is Allow,
            r.direction is Inbound,
            r.protocol is TCP,
            r.priority == 250,
            r.enabled,
            (r.destination_ports matches Some(l) && l@ == seq![22u16]),
            r.source_ips is None,
            r.destination_ips is None,
            r.source_ports is None,
    {
        let r = FirewallRule::new(
            2,
            "Allow SSH".to_owned(),
            RuleAction::Allow,
            RuleDirection::Inbound,
            RuleProtocol::TCP,
        ).with_destination_port(22).with_description("Allow SSH connections".to_owned())
            .with_priority(250);
        proof {
            assert(r.destination_ports matches Some(l) && l@ =~= seq![22u16]);
        }
        r
    }

    /// Allow inbound web traffic on the two standard ports.
    pub fn allow_http_https() -> (r: FirewallRule)
        ensures
            r.action is Allow,
            r.direction is Inbound,
            r.protocol is TCP,
            r.priority == 240,
            r.enabled,
            (r.destination_ports matches Some(l) && l@.contains(80u16) && l@.contains(443u16)),
    {
        let mut ports: Vec<u16> = Vec::new();
        ports.push(80);
        ports.push(443);
        proof {
            assert(ports@[0] == 80u16);
            assert(ports@[1] == 443u16);
        }
        FirewallRule::new(
            3,
            "Allow HTTP/HTTPS".to_owned(),
            RuleAction::Allow,
            RuleDirection::Inbound,
            RuleProtocol::TCP,
        ).with_destination_ports(ports).with_description(
            "Allow HTTP and HTTPS connections".to_owned(),
        ).with_priority(240)
    }

    /// Log and block traffic to commonly attacked ports.
    pub fn block_suspicious_ports() -> (r: FirewallRule)
        ensures
            r.action is LogAndBlock,
            r.direction is Bidirectional,
            r.protocol is Any,
            r.priority == 220,
            r.enabled,
            (r.destination_ports matches Some(l) && l@.contains(1433u16) && l@.contains(3306u16)
                && l@.contains(445u16) && l@.contains(23u16) && l@.contains(21u16)),
    {
        let mut ports: Vec<u16> = Vec::new();
        ports.push(1433);
        ports.push(1521);
        ports.push(3306);
        ports.push(5432);
        ports.push(135);
        ports.push(139);
        ports.push(445);
        ports.push(23);
        ports.push(21);
        proof {
            assert(ports@[0] == 1433u16);
            assert(ports@[2] == 3306u16);
            assert(ports@[6] == 445u16);
            assert(ports@[7] == 23u16);
            assert(ports@[8] == 21u16);
        }
        FirewallRule::new(
            4,
            "Block Suspicious Ports".to_owned(),
            RuleAction::LogAndBlock,
            RuleDirection::Bidirectional,
            RuleProtocol::Any,
        ).with_destination_ports(ports).with_description(
            "Block commonly attacked ports".to_owned(),
        ).with_priority(220)
    }

    /// Allow all loopback traffic, at the highest priority.
    pub fn allow_localhost() -> (r: FirewallRule)
        ensures
            r.action is Allow,
            r.direction is Bidirectional,
            r.protocol is Any,
            r.priority == 255,
            r.enabled,
            (r.source_ips matches Some(l) && l@.contains(IpAddress::V4(0x7F000001))),
            (r.destination_ips matches Some(l) && l@.contains(IpAddress::V4(0x7F000001))),
    {
        let loopback = IpAddress::v4(127, 0, 0, 1);
        let r = FirewallRule::new(
            5,
            "Allow Localhost".to_owned(),
            RuleAction::Allow,
            RuleDirection::Bidirectional,
            RuleProtocol::Any,
        ).with_source_ip(loopback).with_destination_ip(loopback).with_description(
            "Allow all localhost traffic".to_owned(),
        ).with_priority(255);
        proof {
            assert(loopback == IpAddress::V4(0x7F000001));
            assert(r.source_ips matches Some(l) && l@[0] == IpAddress::V4(0x7F000001));
            assert(r.destination_ips matches Some(l) && l@[0] == IpAddress::V4(0x7F000001));
        }
        r
    }

    /// Log every connection, at the lowest useful priority, letting
    /// evaluation continue past it.
    pub fn log_all_connections() -> (r: FirewallRule)
        ensures
            r.action is Log,
            r.direction is Bidirectional,
            r.protocol is Any,
            r.priority == 1,
            r.enabled,
            r.source_ips is None,
            r.destination_ips is None,
            r.source_ports is None,
            r.destination_ports is None,
    {
        FirewallRule::new(
            6,
            "Log All Connections".to_owned(),
            RuleAction::Log,
            RuleDirection::Bidirectional,
            RuleProtocol::Any,
        ).with_description("Log all network connections for monitoring".to_owned()).with_priority(
            1,
        )
    }
}

/// The display name of a rule action.
pub open spec fn spec_action_name(a: RuleAction) -> Seq<char> {
    match a {
        RuleAction::Allow => "Allow"@,
        RuleAction::Block => "Block"@,
        RuleAction::Log => "Log"@,
        RuleAction::LogAndBlock => "LogAndBlock"@,
    }
}

/// The display name of a rule action.
pub fn action_name(a: &RuleAction) -> (r: &'static str)
    ensures
        r@ == spec_action_name(*a),
{
    match a {
        RuleAction::Allow => "Allow",
        RuleAction::Block => "Block",
        RuleAction::Log => "Log",
        RuleAction::LogAndBlock => "LogAndBlock",
    }
}

/// The display name of a rule protocol.
pub open spec fn spec_rule_protocol_name(p: RuleProtocol) -> Seq<char> {
    match p {
        RuleProtocol::TCP => "TCP"@,
        RuleProtocol::UDP => "UDP"@,
        RuleProtocol::ICMP => "ICMP"@,
        RuleProtocol::Any => "ANY"@,
    }
}

/// The display name of a rule protocol.
pub fn rule_protocol_name(p: &RuleProtocol) -> (r: &'static str)
    ensures
        r@ == spec_rule_protocol_name(*p),
{
    match p {
        RuleProtocol::TCP => "TCP",
        RuleProtocol::UDP => "UDP",
        RuleProtocol::ICMP => "ICMP",
        RuleProtocol::Any => "ANY",
    }
}

impl FirewallRule {
    /// The seconds the rule has existed by now; zero where the clock
    /// stands before its creation.
    pub fn get_age(&self, now: u64) -> (r: u64)
        ensures
            r == if now >= self.created_at {
                now - self.created_at
            } else {
                0int
            },
    {
        now.saturating_sub(self.created_at)
    }

    /// The seconds since the rule last matched, if it ever did; zero
    /// where the clock stands before the match.
    pub fn get_time_since_last_match(&self, now: u64) -> (r: Option<u64>)
        ensures
            (self.last_matched matches Some(t) ==> r == Some(
                (if now >= t {
                    (now - t) as u64
                } else {
                    0u64
                }),
            )),
            (self.last_matched is None ==> r is None),
    {
        match self.last_matched {
            Some(t) => Some(now.saturating_sub(t)),
            None => None,
        }
    }
}

} // verus!
