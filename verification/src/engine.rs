//! The firewall engine: an ordered rule set, its statistics, and its
//! event log.
//!
//! Rules are held in falling priority order, stable within equal
//! priorities. A packet walks the rules in that order; a matching log rule
//! records and lets the walk continue, any other matching rule decides,
//! and the walk falls through to allow.

use vstd::prelude::*;
use vstd::std_specs::vec::vec_index_mut;
use crate::net::{Endpoint, IpAddress};
use crate::packet::{PacketMeta, TransportTag};
use crate::rules::{FirewallRule, RuleAction, RuleDirection, RuleProtocol, spec_matches_packet};
use crate::{sat_add_u64, spec_ring_append};

verus! {

/// The engine's running statistics.
#[derive(Clone, Copy, Debug)]
pub struct FirewallStats {
    pub total_packets_processed: u64,
    pub packets_allowed: u64,
    pub packets_blocked: u64,
    pub packets_logged: u64,
    pub rules_matched: u64,
    pub active_rules: usize,
    pub enabled_rules: usize,
    pub last_reset: u64,
}

impl FirewallStats {
    /// Fresh statistics, all zero, reset at the epoch.
    pub fn new() -> (r: FirewallStats)
        ensures
            r == (FirewallStats {
                total_packets_processed: 0u64,
                packets_allowed: 0u64,
                packets_blocked: 0u64,
                packets_logged: 0u64,
                rules_matched: 0u64,
                active_rules: 0usize,
                enabled_rules: 0usize,
                last_reset: 0u64,
            }),
    {
        FirewallStats {
            total_packets_processed: 0,
            packets_allowed: 0,
            packets_blocked: 0,
            packets_logged: 0,
            rules_matched: 0,
            active_rules: 0,
            enabled_rules: 0,
            last_reset: 0,
        }
    }

    /// Zero every counter and stamp the reset time.
    pub fn reset(&mut self, now: u64)
        ensures
            *final(self) == (FirewallStats {
                total_packets_processed: 0u64,
                packets_allowed: 0u64,
                packets_blocked: 0u64,
                packets_logged: 0u64,
                rules_matched: 0u64,
                active_rules: 0usize,
                enabled_rules: 0usize,
                last_reset: now,
            }),
    {
        *self = FirewallStats { last_reset: now, ..FirewallStats::new() };
    }

    /// The share of processed packets that were blocked, in whole
    /// percent; zero where nothing was processed.
    pub fn get_block_rate(&self) -> (r: u64)
        ensures
            self.total_packets_processed == 0 ==> r == 0,
            self.total_packets_processed > 0 && self.packets_blocked
                <= self.total_packets_processed ==> r == self.packets_blocked * 100
                / self.total_packets_processed as int,
    {
        if self.total_packets_processed == 0 {
            0
        } else {
            let wide: u128 = (self.packets_blocked as u128) * 100 / (
            self.total_packets_processed as u128);
            proof {
                if self.packets_blocked <= self.total_packets_processed {
                    let b = self.packets_blocked as int;
                    let t = self.total_packets_processed as int;
                    assert(b * 100 / t <= 100) by (nonlinear_arith)
                        requires
                            0 <= b <= t,
                            t >= 1,
                    ;
                }
            }
            if wide > 0xFFFFFFFFFFFFFFFF {
                u64::MAX
            } else {
                wide as u64
            }
        }
    }

    /// The share of processed packets that were allowed, in whole
    /// percent; zero where nothing was processed.
    pub fn get_allow_rate(&self) -> (r: u64)
        ensures
            self.total_packets_processed == 0 ==> r == 0,
            self.total_packets_processed > 0 && self.packets_allowed
                <= self.total_packets_processed ==> r == self.packets_allowed * 100
                / self.total_packets_processed as int,
    {
        if self.total_packets_processed == 0 {
            0
        } else {
            let wide: u128 = (self.packets_allowed as u128) * 100 / (
            self.total_packets_processed as u128);
            proof {
                if self.packets_allowed <= self.total_packets_processed {
                    let b = self.packets_allowed as int;
                    let t = self.total_packets_processed as int;
                    assert(b * 100 / t <= 100) by (nonlinear_arith)
                        requires
                            0 <= b <= t,
                            t >= 1,
                    ;
                }
            }
            if wide > 0xFFFFFFFFFFFFFFFF {
                u64::MAX
            } else {
                wide as u64
            }
        }
    }
}

/// One recorded rule match.
#[derive(Clone, Debug)]
pub struct FirewallEvent {
    pub timestamp: u64,
    pub rule_id: u32,
    pub rule_name: String,
    pub action: RuleAction,
    pub src_ip: IpAddress,
    pub dst_ip: IpAddress,
    pub src_port: u16,
    pub dst_port: u16,
    pub protocol: RuleProtocol,
    pub direction: RuleDirection,
    pub packet_size: usize,
}

/// The fields of a packet as the engine evaluates them.
pub struct PacketFields {
    pub src_ip: IpAddress,
    pub dst_ip: IpAddress,
    pub src_port: u16,
    pub dst_port: u16,
    pub protocol: RuleProtocol,
    pub direction: RuleDirection,
}

/// Whether a rule matches the evaluated fields.
pub open spec fn spec_rule_matches(r: FirewallRule, f: PacketFields) -> bool {
    spec_matches_packet(r, f.src_ip, f.dst_ip, f.src_port, f.dst_port, f.protocol, f.direction)
}

/// The action the walk from an index returns: the first matching rule's
/// action, except that a matching log rule lets the walk continue; allow
/// on fall-through.
pub open spec fn spec_eval_action(rules: Seq<FirewallRule>, f: PacketFields, i: int) -> RuleAction
    decreases rules.len() - i,
    when 0 <= i <= rules.len()
{
    if i >= rules.len() {
        RuleAction::Allow
    } else if spec_rule_matches(rules[i], f) {
        if rules[i].action is Log {
            spec_eval_action(rules, f, i + 1)
        } else {
            rules[i].action
        }
    } else {
        spec_eval_action(rules, f, i + 1)
    }
}

/// The rules after the walk from an index: every matching rule visited has
/// its match noted, and a non-log match ends the walk.
pub open spec fn spec_eval_rules(
    rules: Seq<FirewallRule>,
    f: PacketFields,
    now: u64,
    i: int,
) -> Seq<FirewallRule>
    decreases rules.len() - i,
    when 0 <= i <= rules.len()
{
    if i >= rules.len() {
        rules
    } else if spec_rule_matches(rules[i], f) {
        let stamped = rules.update(
            i,
            FirewallRule {
                match_count: sat_add_u64(rules[i].match_count, 1),
                last_matched: Some(now),
                ..rules[i]
            },
        );
        if rules[i].action is Log {
            spec_eval_rules(stamped, f, now, i + 1)
        } else {
            stamped
        }
    } else {
        spec_eval_rules(rules, f, now, i + 1)
    }
}

/// The event a matching rule records for a packet.
pub open spec fn spec_event_of(
    r: FirewallRule,
    f: PacketFields,
    now: u64,
    packet_size: usize,
) -> FirewallEvent {
    FirewallEvent {
        timestamp: now,
        rule_id: r.id,
        rule_name: r.name,
        action: r.action,
        src_ip: f.src_ip,
        dst_ip: f.dst_ip,
        src_port: f.src_port,
        dst_port: f.dst_port,
        protocol: f.protocol,
        direction: f.direction,
        packet_size,
    }
}

/// The events the walk from an index records, in order: one per matching
/// rule visited.
pub open spec fn spec_eval_events(
    rules: Seq<FirewallRule>,
    f: PacketFields,
    now: u64,
    packet_size: usize,
    i: int,
) -> Seq<FirewallEvent>
    decreases rules.len() - i,
    when 0 <= i <= rules.len()
{
    if i >= rules.len() {
        Seq::empty()
    } else if spec_rule_matches(rules[i], f) {
        if rules[i].action is Log {
            seq![spec_event_of(rules[i], f, now, packet_size)] + spec_eval_events(
                rules,
                f,
                now,
                packet_size,
                i + 1,
            )
        } else {
            seq![spec_event_of(rules[i], f, now, packet_size)]
        }
    } else {
        spec_eval_events(rules, f, now, packet_size, i + 1)
    }
}

/// The counter deltas of the walk from an index, as (allowed, blocked,
/// logged, matched): log matches raise the logged and matched counts and
/// continue; a terminal match raises its action's count; fall-through
/// raises the allowed count.
pub open spec fn spec_eval_counts(rules: Seq<FirewallRule>, f: PacketFields, i: int) -> (
    int,
    int,
    int,
    int,
)
    decreases rules.len() - i,
    when 0 <= i <= rules.len()
{
    if i >= rules.len() {
        (1, 0, 0, 0)
    } else if spec_rule_matches(rules[i], f) {
        match rules[i].action {
            RuleAction::Allow => (1, 0, 0, 1),
            RuleAction::Block => (0, 1, 0, 1),
            RuleAction::LogAndBlock => (0, 1, 1, 1),
            RuleAction::Log => {
                let rest = spec_eval_counts(rules, f, i + 1);
                (rest.0, rest.1, rest.2 + 1, rest.3 + 1)
            },
        }
    } else {
        spec_eval_counts(rules, f, i + 1)
    }
}

/// The index where a rule of the given priority is inserted: before the
/// first rule of lower priority, after every rule of equal or higher
/// priority.
pub open spec fn spec_insert_pos(rules: Seq<FirewallRule>, priority: u8, i: int) -> int
    decreases rules.len() - i,
    when 0 <= i <= rules.len()
{
    if i >= rules.len() {
        i
    } else if rules[i].priority < priority {
        i
    } else {
        spec_insert_pos(rules, priority, i + 1)
    }
}

/// The insertion index lies in range, everything before it has at least
/// the priority, and the rule there, if any, has less.
proof fn lemma_insert_pos_bounds(rules: Seq<FirewallRule>, priority: u8, i: int)
    requires
        0 <= i <= rules.len(),
    ensures
        i <= spec_insert_pos(rules, priority, i) <= rules.len(),
        forall|j: int|
            i <= j < spec_insert_pos(rules, priority, i) ==> (#[trigger] rules[j]).priority
                >= priority,
        spec_insert_pos(rules, priority, i) < rules.len() ==> rules[spec_insert_pos(
            rules,
            priority,
            i,
        )].priority < priority,
    decreases rules.len() - i,
{
    if i < rules.len() && rules[i].priority >= priority {
        lemma_insert_pos_bounds(rules, priority, i + 1);
    }
}

/// The number of enabled rules.
pub open spec fn spec_enabled_count(rules: Seq<FirewallRule>) -> int
    decreases rules.len(),
{
    if rules.len() == 0 {
        0
    } else {
        spec_enabled_count(rules.drop_last()) + if rules.last().enabled {
            1int
        } else {
            0int
        }
    }
}

/// The firewall engine.
pub struct FirewallEngine {
    pub rules: Vec<FirewallRule>,
    pub stats: FirewallStats,
    pub recent_events: Vec<FirewallEvent>,
    pub max_events: usize,
    pub rule_counter: u32,
    pub enabled: bool,
}

impl FirewallEngine {
    /// Rules stand in falling priority order, the event log respects its
    /// cap, the cap is positive, and the derived rule counts in the
    /// statistics are right.
    pub open spec fn wf(self) -> bool {
        &&& forall|a: int, b: int|
            0 <= a <= b < self.rules@.len() ==> (#[trigger] self.rules@[a]).priority >= (
            #[trigger] self.rules@[b]).priority
        &&& self.recent_events@.len() <= self.max_events
        &&& self.max_events >= 1
        &&& self.stats.active_rules == self.rules@.len()
        &&& self.stats.enabled_rules == spec_enabled_count(self.rules@)
    }

    /// A fresh enabled engine with no rules, no events, and an event cap
    /// of one thousand.
    pub fn new() -> (r: FirewallEngine)
        ensures
            r.wf(),
            r.rules@.len() == 0,
            r.recent_events@.len() == 0,
            r.max_events == 1000,
            r.rule_counter == 0,
            r.enabled,
            r.stats == (FirewallStats {
                total_packets_processed: 0u64,
                packets_allowed: 0u64,
                packets_blocked: 0u64,
                packets_logged: 0u64,
                rules_matched: 0u64,
                active_rules: 0usize,
                enabled_rules: 0usize,
                last_reset: 0u64,
            }),
    {
        FirewallEngine {
            rules: Vec::new(),
            stats: FirewallStats::new(),
            recent_events: Vec::new(),
            max_events: 1000,
            rule_counter: 0,
            enabled: true,
        }
    }

    /// Derive the rule counts held in the statistics.
    fn update_stats(&mut self)
        ensures
            final(self).stats.active_rules == old(self).rules@.len(),
            final(self).stats.enabled_rules == spec_enabled_count(old(self).rules@),
            final(self).rules == old(self).rules,
            final(self).recent_events == old(self).recent_events,
            final(self).max_events == old(self).max_events,
            final(self).rule_counter == old(self).rule_counter,
            final(self).enabled == old(self).enabled,
            final(self).stats.total_packets_processed == old(self).stats.total_packets_processed,
            final(self).stats.packets_allowed == old(self).stats.packets_allowed,
            final(self).stats.packets_blocked == old(self).stats.packets_blocked,
            final(self).stats.packets_logged == old(self).stats.packets_logged,
            final(self).stats.rules_matched == old(self).stats.rules_matched,
            final(self).stats.last_reset == old(self).stats.last_reset,
    {
        let n = self.rules.len();
        let mut enabled_count: usize = 0;
        proof {
            assert(self.rules@.take(0) =~= Seq::<FirewallRule>::empty());
        }
        let mut i: usize = 0;
        while i < n
            invariant
                0 <= i <= n == self.rules@.len(),
                *self == *old(self),
                enabled_count == spec_enabled_count(self.rules@.take(i as int)),
                enabled_count <= i,
            decreases n - i,
        {
            proof {
                assert(self.rules@.take(i + 1).drop_last() =~= self.rules@.take(i as int));
                assert(self.rules@.take(i + 1).last() == self.rules@[i as int]);
            }
            if self.rules[i].enabled {
                enabled_count = enabled_count + 1;
            }
            i = i + 1;
        }
        proof {
            assert(self.rules@.take(n as int) =~= self.rules@);
        }
        self.stats.active_rules = n;
        self.stats.enabled_rules = enabled_count;
    }

    /// Add a rule: it takes the next identifier and stands before the
    /// first rule of lower priority, after every rule of equal or higher
    /// priority, so that order is stable within a priority.
    #[verifier::loop_isolation(false)]
    pub fn add_rule(&mut self, rule: FirewallRule) -> (r: u32)
        requires
            old(self).wf(),
            old(self).rule_counter < 0xFFFFFFFF,
        ensures
            final(self).wf(),
            r == old(self).rule_counter + 1,
            final(self).rule_counter == old(self).rule_counter + 1,
            final(self).rules@ == old(self).rules@.insert(
                spec_insert_pos(old(self).rules@, rule.priority, 0),
                (FirewallRule { id: (old(self).rule_counter + 1) as u32, ..rule }),
            ),
            final(self).rules@.len() == old(self).rules@.len() + 1,
            final(self).recent_events == old(self).recent_events,
            final(self).enabled == old(self).enabled,
            final(self).max_events == old(self).max_events,
            final(self).stats.total_packets_processed
                == old(self).stats.total_packets_processed,
            final(self).stats.packets_allowed == old(self).stats.packets_allowed,
            final(self).stats.packets_blocked == old(self).stats.packets_blocked,
            final(self).stats.packets_logged == old(self).stats.packets_logged,
            final(self).stats.rules_matched == old(self).stats.rules_matched,
    {
        self.rule_counter = self.rule_counter + 1;
        let stamped = FirewallRule { id: self.rule_counter, ..rule };
        let ghost rules0 = self.rules@;
        let n = self.rules.len();
        let mut pos: usize = 0;
        while pos < n && self.rules[pos].priority >= stamped.priority
            invariant
                0 <= pos <= n == self.rules@.len(),
                self.rules@ == rules0,
                self.rule_counter == old(self).rule_counter + 1,
                self.recent_events == old(self).recent_events,
                self.stats == old(self).stats,
                self.enabled == old(self).enabled,
                self.max_events == old(self).max_events,
                spec_insert_pos(rules0, stamped.priority, 0) == spec_insert_pos(
                    rules0,
                    stamped.priority,
                    pos as int,
                ),
            decreases n - pos,
        {
            pos = pos + 1;
        }
        let ghost at = pos as int;
        self.rules.insert(pos, stamped);
        proof {
            rules0.insert_ensures(at, stamped);
            lemma_insert_pos_bounds(rules0, stamped.priority, 0);
            assert(spec_insert_pos(rules0, stamped.priority, at) == at);
            assert forall|a: int, b: int|
                0 <= a <= b < self.rules@.len() implies (#[trigger] self.rules@[a]).priority >= (
            #[trigger] self.rules@[b]).priority by {
                if a < at {
                    assert(self.rules@[a] == rules0[a]);
                } else if a == at {
                    assert(self.rules@[a] == stamped);
                } else {
                    assert(self.rules@[a] == rules0[a - 1]);
                }
                if b < at {
                    assert(self.rules@[b] == rules0[b]);
                } else if b == at {
                    assert(self.rules@[b] == stamped);
                } else {
                    assert(self.rules@[b] == rules0[b - 1]);
                }
                if b == at && a < at {
                    assert(rules0[a].priority >= stamped.priority);
                }
                if a == at && b > at {
                    assert(b - 1 >= at);
                    if at < rules0.len() {
                        assert(rules0[at].priority < stamped.priority);
                        assert(rules0[at].priority >= rules0[b - 1].priority);
                    }
                }
            }
        }
        self.update_stats();
        self.rule_counter
    }

    /// Remove the rule with an identifier; nothing changes where no rule
    /// has it.
    #[verifier::loop_isolation(false)]
    pub fn remove_rule(&mut self, rule_id: u32) -> (r: bool)
        requires
            old(self).wf(),
        ensures
            final(self).wf(),
            r == exists|i: int|
                0 <= i < old(self).rules@.len() && (#[trigger] old(self).rules@[i]).id == rule_id,
            !r ==> *final(self) == *old(self),
            r ==> exists|i: int|
                {
                    &&& 0 <= i < old(self).rules@.len()
                    &&& (#[trigger] old(self).rules@[i]).id == rule_id
                    &&& final(self).rules@ == old(self).rules@.remove(i)
                },
            final(self).rule_counter == old(self).rule_counter,
            final(self).enabled == old(self).enabled,
            final(self).recent_events == old(self).recent_events,
    {
        let ghost rules0 = self.rules@;
        let n = self.rules.len();
        let mut i: usize = 0;
        while i < n
            invariant
                0 <= i <= n == self.rules@.len(),
                *self == *old(self),
                rules0 == self.rules@,
                forall|j: int| 0 <= j < i ==> (#[trigger] rules0[j]).id != rule_id,
            decreases n - i,
        {
            if self.rules[i].id == rule_id {
                let ghost at = i as int;
                self.rules.remove(i);
                proof {
                    rules0.remove_ensures(at);
                    assert(self.rules@ =~= rules0.remove(at));
                    assert forall|a: int, b: int|
                        0 <= a <= b < self.rules@.len() implies (#[trigger] self.rules@[a]).priority
                        >= (#[trigger] self.rules@[b]).priority by {
                        if a < at {
                            assert(self.rules@[a] == rules0[a]);
                        } else {
                            assert(self.rules@[a] == rules0[a + 1]);
                        }
                        if b < at {
                            assert(self.rules@[b] == rules0[b]);
                        } else {
                            assert(self.rules@[b] == rules0[b + 1]);
                        }
                    }
                }
                self.update_stats();
                return true;
            }
            i = i + 1;
        }
        false
    }

    /// Switch the rule with an identifier on; nothing changes where no
    /// rule has it.
    #[verifier::loop_isolation(false)]
    pub fn enable_rule(&mut self, rule_id: u32) -> (r: bool)
        requires
            old(self).wf(),
        ensures
            final(self).wf(),
            r == exists|i: int|
                0 <= i < old(self).rules@.len() && (#[trigger] old(self).rules@[i]).id == rule_id,
            !r ==> *final(self) == *old(self),
            r ==> exists|i: int|
                {
                    &&& 0 <= i < old(self).rules@.len()
                    &&& (#[trigger] old(self).rules@[i]).id == rule_id
                    &&& final(self).rules@ == old(self).rules@.update(
                        i,
                        (FirewallRule { enabled: true, ..old(self).rules@[i] }),
                    )
                },
            final(self).rule_counter == old(self).rule_counter,
            final(self).enabled == old(self).enabled,
    {
        let ghost rules0 = self.rules@;
        let n = self.rules.len();
        let mut i: usize = 0;
        while i < n
            invariant
                0 <= i <= n == self.rules@.len(),
                *self == *old(self),
                rules0 == self.rules@,
                forall|j: int| 0 <= j < i ==> (#[trigger] rules0[j]).id != rule_id,
            decreases n - i,
        {
            if self.rules[i].id == rule_id {
                let ghost at = i as int;
                let entry = vec_index_mut(&mut self.rules, i);
                entry.enabled = true;
                proof {
                    assert(self.rules@ =~= rules0.update(
                        at,
                        (FirewallRule { enabled: true, ..rules0[at] }),
                    ));
                    assert forall|a: int, b: int|
                        0 <= a <= b < self.rules@.len() implies (#[trigger] self.rules@[a]).priority
                        >= (#[trigger] self.rules@[b]).priority by {
                        assert(self.rules@[a].priority == rules0[a].priority);
                        assert(self.rules@[b].priority == rules0[b].priority);
                    }
                }
                self.update_stats();
                return true;
            }
            i = i + 1;
        }
        false
    }

    /// Switch the rule with an identifier off; nothing changes where no
    /// rule has it.
    #[verifier::loop_isolation(false)]
    pub fn disable_rule(&mut self, rule_id: u32) -> (r: bool)
        requires
            old(self).wf(),
        ensures
            final(self).wf(),
            r == exists|i: int|
                0 <= i < old(self).rules@.len() && (#[trigger] old(self).rules@[i]).id == rule_id,
            !r ==> *final(self) == *old(self),
            r ==> exists|i: int|
                {
                    &&& 0 <= i < old(self).rules@.len()
                    &&& (#[trigger] old(self).rules@[i]).id == rule_id
                    &&& final(self).rules@ == old(self).rules@.update(
                        i,
                        (FirewallRule { enabled: false, ..old(self).rules@[i] }),
                    )
                },
            final(self).rule_counter == old(self).rule_counter,
            final(self).enabled == old(self).enabled,
    {
        let ghost rules0 = self.rules@;
        let n = self.rules.len();
        let mut i: usize = 0;
        while i < n
            invariant
                0 <= i <= n == self.rules@.len(),
                *self == *old(self),
                rules0 == self.rules@,
                forall|j: int| 0 <= j < i ==> (#[trigger] rules0[j]).id != rule_id,
            decreases n - i,
        {
            if self.rules[i].id == rule_id {
                let ghost at = i as int;
                let entry = vec_index_mut(&mut self.rules, i);
                entry.enabled = false;
                proof {
                    assert(self.rules@ =~= rules0.update(
                        at,
                        (FirewallRule { enabled: false, ..rules0[at] }),
                    ));
                    assert forall|a: int, b: int|
                        0 <= a <= b < self.rules@.len() implies (#[trigger] self.rules@[a]).priority
                        >= (#[trigger] self.rules@[b]).priority by {
                        assert(self.rules@[a].priority == rules0[a].priority);
                        assert(self.rules@[b].priority == rules0[b].priority);
                    }
                }
                self.update_stats();
                return true;
            }
            i = i + 1;
        }
        false
    }

    /// The rule with an identifier, if any.
    pub fn get_rule(&self, rule_id: u32) -> (r: Option<&FirewallRule>)
        ensures
            (r matches Some(rule) ==> exists|i: int|
                0 <= i < self.rules@.len() && (#[trigger] self.rules@[i]).id == rule_id
                    && self.rules@[i] == *rule),
            (r is None ==> forall|i: int|
                0 <= i < self.rules@.len() ==> (#[trigger] self.rules@[i]).id != rule_id),
    {
        let n = self.rules.len();
        let mut i: usize = 0;
        while i < n
            invariant
                0 <= i <= n == self.rules@.len(),
                forall|j: int| 0 <= j < i ==> (#[trigger] self.rules@[j]).id != rule_id,
            decreases n - i,
        {
            if self.rules[i].id == rule_id {
                return Some(&self.rules[i]);
            }
            i = i + 1;
        }
        None
    }

    /// The rules in evaluation order.
    pub fn get_rules(&self) -> (r: &Vec<FirewallRule>)
        ensures
            r@ == self.rules@,
    {
        &self.rules
    }

    /// The running statistics.
    pub fn get_stats(&self) -> (r: &FirewallStats)
        ensures
            *r == self.stats,
    {
        &self.stats
    }

    /// The recorded events, oldest first.
    pub fn get_recent_events(&self) -> (r: &Vec<FirewallEvent>)
        ensures
            r@ == self.recent_events@,
    {
        &self.recent_events
    }

    /// Drop every recorded event.
    pub fn clear_events(&mut self)
        requires
            old(self).wf(),
        ensures
            final(self).wf(),
            *final(self) == (FirewallEngine { recent_events: final(self).recent_events, ..*old(self) }),
            final(self).recent_events@.len() == 0,
    {
        self.recent_events.clear();
    }

    /// Zero the packet counters and stamp the reset time; the derived rule
    /// counts stay.
    pub fn reset_stats(&mut self, now: u64)
        requires
            old(self).wf(),
        ensures
            final(self).wf(),
            *final(self) == (FirewallEngine { stats: final(self).stats, ..*old(self) }),
            final(self).stats == (FirewallStats {
                total_packets_processed: 0u64,
                packets_allowed: 0u64,
                packets_blocked: 0u64,
                packets_logged: 0u64,
                rules_matched: 0u64,
                active_rules: old(self).stats.active_rules,
                enabled_rules: old(self).stats.enabled_rules,
                last_reset: now,
            }),
    {
        let active = self.stats.active_rules;
        let enabled = self.stats.enabled_rules;
        self.stats.reset(now);
        self.stats.active_rules = active;
        self.stats.enabled_rules = enabled;
    }

    /// Switch the whole engine on or off.
    pub fn set_enabled(&mut self, enabled: bool)
        ensures
            *final(self) == (FirewallEngine { enabled, ..*old(self) }),
    {
        self.enabled = enabled;
    }

    /// Whether the engine evaluates packets at all.
    pub fn is_enabled(&self) -> (r: bool)
        ensures
            r == self.enabled,
    {
        self.enabled
    }
}

/// Saturating addition of a nonnegative mathematical count to a counter.
pub open spec fn sat_add_u64_int(a: u64, b: int) -> u64
    recommends
        b >= 0,
{
    if a + b > u64::MAX {
        u64::MAX
    } else {
        (a + b) as u64
    }
}

/// Two rule sequences that agree pointwise on the enabled flag have the
/// same enabled count.
proof fn lemma_enabled_count_pointwise(a: Seq<FirewallRule>, b: Seq<FirewallRule>)
    requires
        a.len() == b.len(),
        forall|i: int| 0 <= i < a.len() ==> (#[trigger] a[i]).enabled == (#[trigger] b[i]).enabled,
    ensures
        spec_enabled_count(a) == spec_enabled_count(b),
    decreases a.len(),
{
    if a.len() > 0 {
        assert(a.drop_last().len() == b.drop_last().len());
        assert forall|i: int|
            0 <= i < a.drop_last().len() implies (#[trigger] a.drop_last()[i]).enabled == (
        #[trigger] b.drop_last()[i]).enabled by {
            assert(a.drop_last()[i] == a[i]);
            assert(b.drop_last()[i] == b[i]);
        }
        lemma_enabled_count_pointwise(a.drop_last(), b.drop_last());
        assert(a.last() == a[a.len() - 1]);
        assert(b.last() == b[a.len() - 1]);
    }
}

/// Walks from an index agree on two rule sequences that agree from that
/// index on: earlier entries are never read again.
proof fn lemma_eval_suffix_agree(
    a: Seq<FirewallRule>,
    b: Seq<FirewallRule>,
    f: PacketFields,
    now: u64,
    ps: usize,
    i: int,
)
    requires
        a.len() == b.len(),
        0 <= i <= a.len(),
        forall|j: int| i <= j < a.len() ==> a[j] == b[j],
    ensures
        spec_eval_action(a, f, i) == spec_eval_action(b, f, i),
        spec_eval_events(a, f, now, ps, i) == spec_eval_events(b, f, now, ps, i),
        spec_eval_counts(a, f, i) == spec_eval_counts(b, f, i),
    decreases a.len() - i,
{
    if i < a.len() {
        assert(a[i] == b[i]);
        lemma_eval_suffix_agree(a, b, f, now, ps, i + 1);
    }
}

/// The fields of a packet as the engine evaluates them: ports default to
/// zero, the tag folds to a rule protocol, and the direction is outbound
/// exactly when the source address is local.
pub open spec fn spec_packet_fields(p: PacketMeta) -> PacketFields
    recommends
        p.src_ip is Some,
        p.dst_ip is Some,
{
    PacketFields {
        src_ip: p.src_ip.unwrap(),
        dst_ip: p.dst_ip.unwrap(),
        src_port: if p.src_port is Some {
            p.src_port.unwrap()
        } else {
            0u16
        },
        dst_port: if p.dst_port is Some {
            p.dst_port.unwrap()
        } else {
            0u16
        },
        protocol: match p.tag {
            TransportTag::Tcp => RuleProtocol::TCP,
            TransportTag::Udp => RuleProtocol::UDP,
            TransportTag::Icmp => RuleProtocol::ICMP,
            TransportTag::Other(_) => RuleProtocol::Any,
        },
        direction: if p.src_ip.unwrap().spec_is_local() {
            RuleDirection::Outbound
        } else {
            RuleDirection::Inbound
        },
    }
}

impl FirewallEngine {
    /// Evaluate a packet against the rules. A disabled engine allows
    /// without looking; a packet without both addresses is allowed after
    /// counting (fail-open). Otherwise the rules are walked in order: the
    /// first matching rule whose action is not log decides, every matching
    /// rule on the way has its match noted, raises the matched count and
    /// records an event in the bounded log, log matches also raise the
    /// logged count and let the walk continue, and fall-through allows.
    #[verifier::loop_isolation(false)]
    pub fn process_packet(&mut self, packet: &PacketMeta, now: u64) -> (r: RuleAction)
        requires
            old(self).wf(),
        ensures
            final(self).wf(),
            final(self).rule_counter == old(self).rule_counter,
            final(self).max_events == old(self).max_events,
            final(self).enabled == old(self).enabled,
            !old(self).enabled ==> r is Allow && *final(self) == *old(self),
            (old(self).enabled && !(packet.src_ip is Some && packet.dst_ip is Some)) ==> {
                &&& r is Allow
                &&& final(self).rules == old(self).rules
                &&& final(self).recent_events == old(self).recent_events
                &&& final(self).stats == (FirewallStats {
                    total_packets_processed: sat_add_u64(
                        old(self).stats.total_packets_processed,
                        1,
                    ),
                    ..old(self).stats
                })
            },
            (old(self).enabled && packet.src_ip is Some && packet.dst_ip is Some) ==> ({
                let f = spec_packet_fields(*packet);
                let counts = spec_eval_counts(old(self).rules@, f, 0);
                &&& r == spec_eval_action(old(self).rules@, f, 0)
                &&& final(self).rules@ == spec_eval_rules(old(self).rules@, f, now, 0)
                &&& final(self).recent_events@ == spec_ring_append(
                    old(self).recent_events@,
                    spec_eval_events(old(self).rules@, f, now, packet.length, 0),
                    old(self).max_events as int,
                )
                &&& final(self).stats.total_packets_processed == sat_add_u64(
                    old(self).stats.total_packets_processed,
                    1,
                )
                &&& final(self).stats.packets_allowed == sat_add_u64_int(
                    old(self).stats.packets_allowed,
                    counts.0,
                )
                &&& final(self).stats.packets_blocked == sat_add_u64_int(
                    old(self).stats.packets_blocked,
                    counts.1,
                )
                &&& final(self).stats.packets_logged == sat_add_u64_int(
                    old(self).stats.packets_logged,
                    counts.2,
                )
                &&& final(self).stats.rules_matched == sat_add_u64_int(
                    old(self).stats.rules_matched,
                    counts.3,
                )
                &&& final(self).enabled == old(self).enabled
                &&& final(self).rule_counter == old(self).rule_counter
                &&& final(self).max_events == old(self).max_events
            }),
    {
        if !self.enabled {
            return RuleAction::Allow;
        }
        self.stats.total_packets_processed = self.stats.total_packets_processed.saturating_add(1);
        let (src_ip, dst_ip) = match (packet.src_ip, packet.dst_ip) {
            (Some(s), Some(d)) => (s, d),
            _ => {
                return RuleAction::Allow;
            },
        };
        let src_port = match packet.src_port {
            Some(p) => p,
            None => 0,
        };
        let dst_port = match packet.dst_port {
            Some(p) => p,
            None => 0,
        };
        let protocol = match &packet.tag {
            TransportTag::Tcp => RuleProtocol::TCP,
            TransportTag::Udp => RuleProtocol::UDP,
            TransportTag::Icmp => RuleProtocol::ICMP,
            TransportTag::Other(_) => RuleProtocol::Any,
        };
        let direction = if src_ip.is_local() {
            RuleDirection::Outbound
        } else {
            RuleDirection::Inbound
        };
        let ghost f = spec_packet_fields(*packet);
        proof {
            assert(f == (PacketFields { src_ip, dst_ip, src_port, dst_port, protocol, direction }));
        }
        let ghost rules0 = self.rules@;
        let ghost events0 = self.recent_events@;
        let ghost stats1 = self.stats;
        let ghost cap = self.max_events as int;
        let ghost plen = packet.length;
        let ghost mut emitted: Seq<FirewallEvent> = Seq::empty();
        let n = self.rules.len();
        let mut i: usize = 0;
        while i < n
            invariant
                0 <= i <= n == self.rules@.len(),
                rules0.len() == n,
                spec_eval_action(rules0, f, 0) == spec_eval_action(self.rules@, f, i as int),
                spec_eval_rules(rules0, f, now, 0) == spec_eval_rules(
                    self.rules@,
                    f,
                    now,
                    i as int,
                ),
                spec_eval_events(rules0, f, now, plen, 0) == emitted + spec_eval_events(
                    self.rules@,
                    f,
                    now,
                    plen,
                    i as int,
                ),
                self.recent_events@ == spec_ring_append(events0, emitted, cap),
                self.recent_events@.len() <= self.max_events,
                ({
                    let full = spec_eval_counts(rules0, f, 0);
                    let rest = spec_eval_counts(self.rules@, f, i as int);
                    &&& self.stats.packets_allowed == sat_add_u64_int(
                        stats1.packets_allowed,
                        full.0 - rest.0,
                    )
                    &&& self.stats.packets_blocked == sat_add_u64_int(
                        stats1.packets_blocked,
                        full.1 - rest.1,
                    )
                    &&& self.stats.packets_logged == sat_add_u64_int(
                        stats1.packets_logged,
                        full.2 - rest.2,
                    )
                    &&& self.stats.rules_matched == sat_add_u64_int(
                        stats1.rules_matched,
                        full.3 - rest.3,
                    )
                    &&& full.0 - rest.0 >= 0
                    &&& full.1 - rest.1 >= 0
                    &&& full.2 - rest.2 >= 0
                    &&& full.3 - rest.3 >= 0
                }),
                self.stats.total_packets_processed == stats1.total_packets_processed,
                self.stats.active_rules == stats1.active_rules,
                self.stats.enabled_rules == stats1.enabled_rules,
                self.stats.last_reset == stats1.last_reset,
                self.enabled,
                self.rule_counter == old(self).rule_counter,
                self.max_events == old(self).max_events,
                forall|j: int|
                    0 <= j < n ==> (#[trigger] self.rules@[j]).priority == rules0[j].priority && (
                    #[trigger] self.rules@[j]).enabled == rules0[j].enabled,
            decreases n - i,
        {
            let ghost cur = self.rules@;
            let matched = self.rules[i].matches_packet(
                &src_ip,
                &dst_ip,
                src_port,
                dst_port,
                &protocol,
                &direction,
            );
            if matched {
                let ghost pre = self.rules@;
                {
                    let entry = vec_index_mut(&mut self.rules, i);
                    entry.record_match(now);
                }
                proof {
                    assert(self.rules@ == pre.update(
                        i as int,
                        (FirewallRule {
                            match_count: sat_add_u64(pre[i as int].match_count, 1),
                            last_matched: Some(now),
                            ..pre[i as int]
                        }),
                    ));
                }
                self.stats.rules_matched = self.stats.rules_matched.saturating_add(1);
                let rule_ref = &self.rules[i];
                let event = FirewallEvent {
                    timestamp: now,
                    rule_id: rule_ref.id,
                    rule_name: rule_ref.name.clone(),
                    action: rule_ref.action,
                    src_ip,
                    dst_ip,
                    src_port,
                    dst_port,
                    protocol,
                    direction,
                    packet_size: packet.length,
                };
                let action = rule_ref.action;
                proof {
                    assert(event == spec_event_of(cur[i as int], f, now, plen));
                }
                let ghost ring_before = self.recent_events@;
                self.recent_events.push(event);
                if self.recent_events.len() > self.max_events {
                    self.recent_events.remove(0);
                }
                proof {
                    let em2 = emitted.push(spec_event_of(cur[i as int], f, now, plen));
                    assert(em2.drop_last() =~= emitted);
                    assert(em2 =~= emitted + seq![spec_event_of(cur[i as int], f, now, plen)]);
                    assert(spec_ring_append(events0, em2, cap) == self.recent_events@) by {
                        assert(spec_ring_append(events0, em2.drop_last(), cap) == ring_before);
                        if ring_before.push(em2.last()).len() > cap {
                            assert(self.recent_events@ =~= ring_before.push(
                                em2.last(),
                            ).drop_first());
                        } else {
                            assert(self.recent_events@ =~= ring_before.push(em2.last()));
                        }
                    }
                    emitted = em2;
                }
                match action {
                    RuleAction::Allow => {
                        self.stats.packets_allowed = self.stats.packets_allowed.saturating_add(1);
                        proof {
                            lemma_enabled_count_pointwise(self.rules@, rules0);
                        }
                        return RuleAction::Allow;
                    },
                    RuleAction::Block => {
                        self.stats.packets_blocked = self.stats.packets_blocked.saturating_add(1);
                        proof {
                            lemma_enabled_count_pointwise(self.rules@, rules0);
                        }
                        return RuleAction::Block;
                    },
                    RuleAction::LogAndBlock => {
                        self.stats.packets_logged = self.stats.packets_logged.saturating_add(1);
                        self.stats.packets_blocked = self.stats.packets_blocked.saturating_add(1);
                        proof {
                            lemma_enabled_count_pointwise(self.rules@, rules0);
                        }
                        return RuleAction::LogAndBlock;
                    },
                    RuleAction::Log => {
                        self.stats.packets_logged = self.stats.packets_logged.saturating_add(1);
                        proof {
                            assert forall|j: int| i + 1 <= j < cur.len() implies cur[j]
                                == self.rules@[j] by {}
                            lemma_eval_suffix_agree(cur, self.rules@, f, now, plen, i + 1);
                        }
                    },
                }
            }
            i = i + 1;
        }
        self.stats.packets_allowed = self.stats.packets_allowed.saturating_add(1);
        proof {
            lemma_enabled_count_pointwise(self.rules@, rules0);
        }
        RuleAction::Allow
    }
}

impl FirewallEngine {
    /// Install the ready-made default rules, in their priority order.
    pub fn load_default_rules(&mut self)
        requires
            old(self).wf(),
            old(self).rule_counter + 5 <= 0xFFFFFFFF,
        ensures
            final(self).wf(),
            final(self).rules@.len() == old(self).rules@.len() + 5,
            final(self).rule_counter == old(self).rule_counter + 5,
            final(self).enabled == old(self).enabled,
            final(self).recent_events == old(self).recent_events,
    {
        self.add_rule(crate::rules::RuleTemplates::allow_localhost());
        self.add_rule(crate::rules::RuleTemplates::allow_ssh());
        self.add_rule(crate::rules::RuleTemplates::allow_http_https());
        self.add_rule(crate::rules::RuleTemplates::block_suspicious_ports());
        self.add_rule(crate::rules::RuleTemplates::log_all_connections());
    }

    /// Install a batch of rules through the ordinary insertion path, so
    /// that each receives a fresh identifier and its priority slot; the
    /// number installed is returned.
    #[verifier::loop_isolation(false)]
    pub fn import_rules(&mut self, rules: Vec<FirewallRule>) -> (r: usize)
        requires
            old(self).wf(),
            old(self).rule_counter + rules@.len() <= 0xFFFFFFFF,
        ensures
            final(self).wf(),
            r == rules@.len(),
            final(self).rules@.len() == old(self).rules@.len() + rules@.len(),
            final(self).rule_counter == old(self).rule_counter + rules@.len(),
            final(self).enabled == old(self).enabled,
            final(self).recent_events == old(self).recent_events,
    {
        let ghost total = rules@.len();
        let n = rules.len();
        let mut rules = rules;
        let mut count: usize = 0;
        while count < n
            invariant
                0 <= count <= n == total,
                rules@.len() == n - count,
                self.wf(),
                self.rules@.len() == old(self).rules@.len() + count,
                self.rule_counter == old(self).rule_counter + count,
                self.enabled == old(self).enabled,
                self.recent_events == old(self).recent_events,
            decreases n - count,
        {
            let rule = rules.remove(0);
            self.add_rule(rule);
            count = count + 1;
        }
        count
    }
}

/// The first matching rule whose action is not log decides the packet:
/// where every earlier match is a log rule, the walk returns that rule's
/// action.
pub proof fn lemma_first_match_decides(rules: Seq<FirewallRule>, f: PacketFields, i: int)
    requires
        0 <= i < rules.len(),
        spec_rule_matches(rules[i], f),
        !(rules[i].action is Log),
        forall|j: int|
            0 <= j < i && spec_rule_matches(#[trigger] rules[j], f) ==> rules[j].action is Log,
    ensures
        spec_eval_action(rules, f, 0) == rules[i].action,
{
    lemma_first_match_decides_from(rules, f, 0, i);
}

/// The walk from any index at or before the deciding rule returns its
/// action.
proof fn lemma_first_match_decides_from(rules: Seq<FirewallRule>, f: PacketFields, k: int, i: int)
    requires
        0 <= k <= i < rules.len(),
        spec_rule_matches(rules[i], f),
        !(rules[i].action is Log),
        forall|j: int|
            k <= j < i && spec_rule_matches(#[trigger] rules[j], f) ==> rules[j].action is Log,
    ensures
        spec_eval_action(rules, f, k) == rules[i].action,
    decreases i - k,
{
    if k < i {
        lemma_first_match_decides_from(rules, f, k + 1, i);
    }
}

/// The walk only adds to match counts: every rule's count after a packet
/// is at least its count before, and the rule set keeps its length.
pub proof fn lemma_eval_rules_monotone(rules: Seq<FirewallRule>, f: PacketFields, now: u64, i: int)
    requires
        0 <= i <= rules.len(),
    ensures
        spec_eval_rules(rules, f, now, i).len() == rules.len(),
        forall|j: int|
            0 <= j < rules.len() ==> (#[trigger] spec_eval_rules(rules, f, now, i)[j]).match_count
                >= rules[j].match_count,
    decreases rules.len() - i,
{
    if i < rules.len() {
        if spec_rule_matches(rules[i], f) {
            let stamped = rules.update(
                i,
                FirewallRule {
                    match_count: sat_add_u64(rules[i].match_count, 1),
                    last_matched: Some(now),
                    ..rules[i]
                },
            );
            if rules[i].action is Log {
                lemma_eval_rules_monotone(stamped, f, now, i + 1);
                assert forall|j: int|
                    0 <= j < rules.len() implies (#[trigger] spec_eval_rules(
                    rules,
                    f,
                    now,
                    i,
                )[j]).match_count >= rules[j].match_count by {
                    assert(spec_eval_rules(rules, f, now, i)[j].match_count
                        >= stamped[j].match_count);
                }
            }
        } else {
            lemma_eval_rules_monotone(rules, f, now, i + 1);
        }
    }
}

/// The one-line summary of an event: action, protocol, the two
/// endpoints, and the rule's name.
pub open spec fn spec_event_summary(e: FirewallEvent) -> Seq<char> {
    crate::rules::spec_action_name(e.action) + " "@ + crate::rules::spec_rule_protocol_name(
        e.protocol,
    ) + " "@ + crate::net::spec_endpoint_str(Endpoint { ip: e.src_ip, port: e.src_port }) + " -> "@
        + crate::net::spec_endpoint_str(Endpoint { ip: e.dst_ip, port: e.dst_port }) + " ("@
        + e.rule_name@ + ")"@
}

impl FirewallEvent {
    /// The seconds since the event was recorded; zero where the clock
    /// stands before it.
    pub fn get_age(&self, now: u64) -> (r: u64)
        ensures
            r == if now >= self.timestamp {
                now - self.timestamp
            } else {
                0int
            },
    {
        now.saturating_sub(self.timestamp)
    }

    /// One line naming the action, the protocol, both endpoints and the
    /// rule.
    pub fn format_summary(&self) -> (r: String)
        ensures
            r@ == spec_event_summary(*self),
    {
        let src = Endpoint { ip: self.src_ip, port: self.src_port };
        let dst = Endpoint { ip: self.dst_ip, port: self.dst_port };
        crate::rules::action_name(&self.action).to_owned().concat(" ").concat(
            crate::rules::rule_protocol_name(&self.protocol),
        ).concat(" ").concat(crate::net::endpoint_string(&src).as_str()).concat(" -> ").concat(
            crate::net::endpoint_string(&dst).as_str(),
        ).concat(" (").concat(self.rule_name.as_str()).concat(")")
    }
}

} // verus!
