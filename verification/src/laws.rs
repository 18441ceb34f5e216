//! Laws of the registry's mutation rules.
//!
//! Each theorem here is stated over the mathematical transitions
//! (`upserted`, `merged`, `marked_offline`) that the executable registry
//! operations are proved to implement, so it holds of every run of the
//! executable code.

use vstd::prelude::*;

use crate::node::NodeView;
use crate::registry::{
    find_addr_from, find_pid_from, lemma_find_addr_from, lemma_find_addr_prefix,
    lemma_find_pid_from, lemma_find_pid_prefix, ClientView,
};
use crate::stats::ThalamusNodeStats;

verus! {

/// Finding by identity only looks at identities: two tables whose entries
/// carry the same identities agree on where any identity is found.
proof fn lemma_find_pid_same(a: Seq<NodeView>, b: Seq<NodeView>, pid: Seq<char>, i: int)
    requires
        a.len() == b.len(),
        forall|k: int| 0 <= k < a.len() ==> a[k].pid == b[k].pid,
        0 <= i <= a.len(),
    ensures
        find_pid_from(a, pid, i) == find_pid_from(b, pid, i),
    decreases a.len() - i,
{
    if i < a.len() && a[i].pid != pid {
        lemma_find_pid_same(a, b, pid, i + 1);
    }
}

/// Law (uniqueness, at most one): in a well-formed registry no identity
/// appears twice; any two entries carrying the same `pid` are one entry.
pub proof fn lemma_wf_at_most_one(c: ClientView, pid: Seq<char>)
    requires
        c.wf(),
    ensures
        forall|i: int, j: int|
            0 <= i < c.nodes.len() && 0 <= j < c.nodes.len() && c.nodes[i].pid == pid
                && c.nodes[j].pid == pid ==> i == j,
{
}

/// Law (uniqueness, preservation): applying a version reply to a
/// well-formed registry keeps it well-formed, and afterwards the reply's
/// identity has exactly one entry.  With `lemma_merged_keeps_wf` and
/// `lemma_marked_offline_keeps_wf` this closes every sequence of registry
/// operations under well-formedness, so a registry that starts empty always
/// has exactly one entry per reported identity.
pub proof fn lemma_upserted_keeps_wf(
    c: ClientView,
    pid: Seq<char>,
    version: Seq<char>,
    address: Seq<char>,
    port: u16,
    now: i64,
    stats: ThalamusNodeStats,
)
    requires
        c.wf(),
    ensures
        c.upserted(pid, version, address, port, now, stats).wf(),
        c.upserted(pid, version, address, port, now, stats).has_pid(pid),
{
    let c1 = c.upserted(pid, version, address, port, now, stats);
    lemma_find_pid_from(c.nodes, pid, 0);
    let i = find_pid_from(c.nodes, pid, 0);
    if i >= 0 {
        assert(c1.nodes[i].pid == pid);
    } else {
        assert(c1.nodes[c.nodes.len() as int].pid == pid);
    }
}

/// Law (uniqueness, preservation): merging a gossiped peer record keeps a
/// well-formed registry well-formed, and afterwards the peer's identity has
/// exactly one entry.
pub proof fn lemma_merged_keeps_wf(c: ClientView, peer: NodeView, now: i64)
    requires
        c.wf(),
    ensures
        c.merged(peer, now).wf(),
        c.merged(peer, now).has_pid(peer.pid),
{
    let c1 = c.merged(peer, now);
    lemma_find_pid_from(c.nodes, peer.pid, 0);
    let i = find_pid_from(c.nodes, peer.pid, 0);
    if i >= 0 {
        assert(c1.nodes[i].pid == peer.pid);
    } else {
        assert(c1.nodes[c.nodes.len() as int].pid == peer.pid);
    }
}

/// Law (uniqueness, preservation): marking an address offline changes no
/// identity, so it keeps a well-formed registry well-formed.
pub proof fn lemma_marked_offline_keeps_wf(c: ClientView, address: Seq<char>)
    requires
        c.wf(),
    ensures
        c.marked_offline(address).wf(),
        c.marked_offline(address).nodes.len() == c.nodes.len(),
{
    lemma_find_addr_from(c.nodes, address, 0);
}

/// One registry mutation, as reported by any discovery strategy.
pub ghost enum RegistryOp {
    /// A successful liveness probe's reply, observed at an address.
    VersionReplyAt {
        pid: Seq<char>,
        version: Seq<char>,
        address: Seq<char>,
        port: u16,
        now: i64,
        stats: ThalamusNodeStats,
    },
    /// A peer record obtained by transitive gossip.
    GossipedPeer { peer: NodeView, now: i64 },
    /// A failed probe at an address.
    FailedProbe { address: Seq<char> },
}

/// The registry after one reported mutation.
pub open spec fn apply_op(c: ClientView, op: RegistryOp) -> ClientView {
    match op {
        RegistryOp::VersionReplyAt { pid, version, address, port, now, stats } => c.upserted(
            pid,
            version,
            address,
            port,
            now,
            stats,
        ),
        RegistryOp::GossipedPeer { peer, now } => c.merged(peer, now),
        RegistryOp::FailedProbe { address } => c.marked_offline(address),
    }
}

/// The registry after a whole sequence of reported mutations, first first.
pub open spec fn apply_ops(c: ClientView, ops: Seq<RegistryOp>) -> ClientView
    decreases ops.len(),
{
    if ops.len() == 0 {
        c
    } else {
        apply_ops(apply_op(c, ops[0]), ops.skip(1))
    }
}

/// Every single reported mutation keeps identities unique.
pub proof fn lemma_op_keeps_wf(c: ClientView, op: RegistryOp)
    requires
        c.wf(),
    ensures
        apply_op(c, op).wf(),
{
    match op {
        RegistryOp::VersionReplyAt { pid, version, address, port, now, stats } => {
            lemma_upserted_keeps_wf(c, pid, version, address, port, now, stats);
        },
        RegistryOp::GossipedPeer { peer, now } => {
            lemma_merged_keeps_wf(c, peer, now);
        },
        RegistryOp::FailedProbe { address } => {
            lemma_marked_offline_keeps_wf(c, address);
        },
    }
}

/// Law (uniqueness): after any sequence of version replies, gossiped peers
/// and failed probes applied to a registry with unique identities — in
/// particular to the empty one — identities are still unique: any two
/// entries carrying the same `pid` are one entry.
pub proof fn lemma_registry_uniqueness(c: ClientView, ops: Seq<RegistryOp>, pid: Seq<char>)
    requires
        c.wf(),
    ensures
        apply_ops(c, ops).wf(),
        forall|i: int, j: int|
            #![trigger apply_ops(c, ops).nodes[i], apply_ops(c, ops).nodes[j]]
            ({
                let r = apply_ops(c, ops);
                0 <= i < r.nodes.len() && 0 <= j < r.nodes.len() && r.nodes[i].pid == pid
                    && r.nodes[j].pid == pid ==> i == j
            }),
    decreases ops.len(),
{
    if ops.len() == 0 {
        lemma_wf_at_most_one(c, pid);
    } else {
        lemma_op_keeps_wf(c, ops[0]);
        lemma_registry_uniqueness(apply_op(c, ops[0]), ops.skip(1), pid);
    }
}

/// Law (idempotence): applying the same unchanged version reply twice
/// leaves the identity, address, version, port, jobs and benchmark scores
/// of its entry unchanged, and only refreshes `last_ping` and `is_online`;
/// every other entry is untouched.
pub proof fn lemma_upsert_idempotent(
    c: ClientView,
    pid: Seq<char>,
    version: Seq<char>,
    address: Seq<char>,
    port: u16,
    stats: ThalamusNodeStats,
    t1: i64,
    t2: i64,
)
    ensures
        ({
            let c1 = c.upserted(pid, version, address, port, t1, stats);
            let c2 = c1.upserted(pid, version, address, port, t2, stats);
            let i = find_pid_from(c1.nodes, pid, 0);
            &&& 0 <= i < c1.nodes.len()
            &&& c2.nodes.len() == c1.nodes.len()
            &&& (forall|k: int|
                0 <= k < c1.nodes.len() && k != i ==> c2.nodes[k] == c1.nodes[k])
            &&& c2.nodes[i].pid == c1.nodes[i].pid
            &&& c2.nodes[i].ip_address == c1.nodes[i].ip_address
            &&& c2.nodes[i].version == c1.nodes[i].version
            &&& c2.nodes[i].port == c1.nodes[i].port
            &&& c2.nodes[i].jobs == c1.nodes[i].jobs
            &&& c2.nodes[i].stats == c1.nodes[i].stats
            &&& c2.nodes[i].last_ping == t2
            &&& c2.nodes[i].is_online
        }),
{
    let c1 = c.upserted(pid, version, address, port, t1, stats);
    lemma_find_pid_from(c.nodes, pid, 0);
    let i0 = find_pid_from(c.nodes, pid, 0);
    if i0 >= 0 {
        lemma_find_pid_same(c.nodes, c1.nodes, pid, 0);
    } else {
        assert(forall|k: int| 0 <= k < c.nodes.len() ==> c1.nodes[k].pid == c.nodes[k].pid);
        lemma_find_pid_prefix(c1.nodes, pid, c.nodes.len() as int);
        assert(c1.nodes[c.nodes.len() as int].pid == pid);
    }
}

/// Law (offline transition): a node first registered through a successful
/// probe at some address and then failing a probe at that same address goes
/// `online: true` to `online: false` without leaving the table.  The law
/// speaks of a registry that does not already carry the probed identity or
/// address; an entry already holding the same address would be the one
/// marked offline instead, the accepted weakness of address-keyed demotion.
pub proof fn lemma_offline_transition(
    c: ClientView,
    pid: Seq<char>,
    version: Seq<char>,
    address: Seq<char>,
    port: u16,
    now: i64,
    stats: ThalamusNodeStats,
)
    requires
        !c.has_pid(pid),
        !c.has_addr(address),
    ensures
        ({
            let c1 = c.upserted(pid, version, address, port, now, stats);
            let c2 = c1.marked_offline(address);
            let i = c.nodes.len() as int;
            &&& c1.nodes.len() == c.nodes.len() + 1
            &&& c1.nodes[i].pid == pid
            &&& c1.nodes[i].is_online
            &&& c2.nodes.len() == c1.nodes.len()
            &&& c2.nodes[i].pid == pid
            &&& c2.nodes[i].ip_address == address
            &&& !c2.nodes[i].is_online
            &&& (forall|k: int| 0 <= k < i ==> c2.nodes[k] == c1.nodes[k])
        }),
{
    lemma_find_pid_from(c.nodes, pid, 0);
    if find_pid_from(c.nodes, pid, 0) >= 0 {
        assert(c.has_pid(pid));
    }
    let c1 = c.upserted(pid, version, address, port, now, stats);
    let i = c.nodes.len() as int;
    assert(c1.nodes[i].ip_address == address);
    assert(forall|k: int| 0 <= k < i ==> c1.nodes[k] == c.nodes[k]);
    assert forall|k: int| 0 <= k < i implies c1.nodes[k].ip_address != address by {
        if c1.nodes[k].ip_address == address {
            assert(c.has_addr(address));
        }
    }
    lemma_find_addr_prefix(c1.nodes, address, i);
    assert(find_addr_from(c1.nodes, address, i) == i);
}

/// Law (dedup by identity, not address): two scan probes that answer with
/// the same identity from two distinct addresses produce one table entry,
/// which keeps the first observed address and benchmark.
pub proof fn lemma_scan_dedup(
    c: ClientView,
    pid: Seq<char>,
    version1: Seq<char>,
    version2: Seq<char>,
    addr1: Seq<char>,
    addr2: Seq<char>,
    port: u16,
    stats1: ThalamusNodeStats,
    stats2: ThalamusNodeStats,
    t1: i64,
    t2: i64,
)
    requires
        !c.has_pid(pid),
    ensures
        ({
            let c1 = c.upserted(pid, version1, addr1, port, t1, stats1);
            let c2 = c1.upserted(pid, version2, addr2, port, t2, stats2);
            let i = c.nodes.len() as int;
            &&& c1.nodes.len() == c.nodes.len() + 1
            &&& c2.nodes.len() == c1.nodes.len()
            &&& c2.nodes[i].pid == pid
            &&& c2.nodes[i].ip_address == addr1
            &&& c2.nodes[i].stats == stats1
        }),
{
    lemma_find_pid_from(c.nodes, pid, 0);
    if find_pid_from(c.nodes, pid, 0) >= 0 {
        assert(c.has_pid(pid));
    }
    let c1 = c.upserted(pid, version1, addr1, port, t1, stats1);
    let i = c.nodes.len() as int;
    assert(forall|k: int| 0 <= k < i ==> c1.nodes[k] == c.nodes[k]);
    lemma_find_pid_prefix(c1.nodes, pid, i);
    assert(c1.nodes[i].pid == pid);
}

} // verus!
