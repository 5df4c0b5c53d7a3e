//! Host-side network observability and policy library.
//!
//! The crate models packets, socket-table snapshots and interface counters as
//! plain values, and builds on them a protocol classifier, a connection
//! tracker, a flow inspector, statistics and traffic analyzers, and an
//! observational firewall engine, all with verified contracts.

pub mod analyzer;
pub mod config;
pub mod connections;
pub mod engine;
pub mod errors;
pub mod features;
pub mod flows;
pub mod net;
pub mod packet;
pub mod pipeline;
pub mod procfs;
pub mod protocols;
pub mod rules;
pub mod stats;
pub mod text;
pub mod view;

use vstd::prelude::*;

verus! {

/// Bytes are accounted with saturating addition so that counters are
/// monotone within an epoch even at the numeric limit.
pub open spec fn sat_add_u64(a: u64, b: u64) -> u64 {
    if a + b > u64::MAX {
        u64::MAX
    } else {
        (a + b) as u64
    }
}

/// A bounded ring after appending items one by one: each append that
/// overflows the cap evicts the oldest entry.
pub open spec fn spec_ring_append<T>(ring: Seq<T>, items: Seq<T>, cap: int) -> Seq<T>
    decreases items.len(),
{
    if items.len() == 0 {
        ring
    } else {
        let grown = spec_ring_append(ring, items.drop_last(), cap).push(items.last());
        if grown.len() > cap {
            grown.drop_first()
        } else {
            grown
        }
    }
}

/// Inserting an element anywhere in a sequence inserts it into the
/// sequence's multiset.
pub proof fn lemma_insert_to_multiset<A>(v: Seq<A>, pos: int, x: A)
    requires
        0 <= pos <= v.len(),
    ensures
        v.insert(pos, x).to_multiset() == v.to_multiset().insert(x),
{
    broadcast use vstd::seq_lib::group_to_multiset_ensures;

    let w = v.insert(pos, x);
    v.insert_ensures(pos, x);
    assert(w.remove(pos) =~= v);
    assert(w.remove(pos).to_multiset() =~= w.to_multiset().remove(w[pos]));
    assert(w.to_multiset().contains(x)) by {
        assert(w[pos] == x);
        assert(w.contains(x));
    }
    assert(w.to_multiset() =~= w.to_multiset().remove(x).insert(x));
    assert(w.to_multiset() =~= v.to_multiset().insert(x));
}

} // verus!
