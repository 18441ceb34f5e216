//! The canonical table of known nodes and its mutation rules.
//!
//! Every discovery strategy reports into this table through three
//! operations: `upsert_by_version_reply` (identity-keyed insert-or-touch),
//! `merge_discovered_peer` (identity-keyed merge of gossiped records) and
//! `mark_offline_by_address` (address-keyed liveness demotion).  Identity
//! (`pid`) is the only insertion key; the address is a fallback key used
//! solely for offline marking.

use vstd::prelude::*;

use crate::node::{JobView, NodeView, ThalamusNode, VersionReply};
use crate::stats::ThalamusNodeStats;

verus! {

/// The registry of all nodes this client has ever confirmed.
#[derive(Debug)]
pub struct ThalamusClient {
    pub nodes: Vec<ThalamusNode>,
}

/// Mathematical value of the registry: the sequence of node values.
#[verifier::ext_equal]
pub ghost struct ClientView {
    pub nodes: Seq<NodeView>,
}

impl View for ThalamusClient {
    type V = ClientView;

    open spec fn view(&self) -> ClientView {
        ClientView { nodes: self.nodes@.map_values(|n: ThalamusNode| n@) }
    }
}

/// Index of the first node at or after `i` whose identity is `pid`, or -1.
pub open spec fn find_pid_from(nodes: Seq<NodeView>, pid: Seq<char>, i: int) -> int
    decreases nodes.len() - i,
{
    if i < 0 || i >= nodes.len() {
        -1
    } else if nodes[i].pid == pid {
        i
    } else {
        find_pid_from(nodes, pid, i + 1)
    }
}

/// Index of the first node at or after `i` whose address is `address`, or -1.
pub open spec fn find_addr_from(nodes: Seq<NodeView>, address: Seq<char>, i: int) -> int
    decreases nodes.len() - i,
{
    if i < 0 || i >= nodes.len() {
        -1
    } else if nodes[i].ip_address == address {
        i
    } else {
        find_addr_from(nodes, address, i + 1)
    }
}

/// What `find_pid_from` finds is a match, and nothing before it matches.
pub proof fn lemma_find_pid_from(nodes: Seq<NodeView>, pid: Seq<char>, i: int)
    requires
        0 <= i <= nodes.len(),
    ensures
        ({
            let r = find_pid_from(nodes, pid, i);
            &&& (r == -1 ==> forall|k: int| i <= k < nodes.len() ==> nodes[k].pid != pid)
            &&& (r != -1 ==> i <= r < nodes.len() && nodes[r].pid == pid)
        }),
    decreases nodes.len() - i,
{
    if i < nodes.len() && nodes[i].pid != pid {
        lemma_find_pid_from(nodes, pid, i + 1);
    }
}

/// Skipping a prefix with no match does not change what is found.
pub proof fn lemma_find_pid_prefix(nodes: Seq<NodeView>, pid: Seq<char>, j: int)
    requires
        0 <= j <= nodes.len(),
        forall|k: int| 0 <= k < j ==> nodes[k].pid != pid,
    ensures
        find_pid_from(nodes, pid, 0) == find_pid_from(nodes, pid, j),
    decreases j,
{
    if j > 0 {
        lemma_find_pid_prefix(nodes, pid, j - 1);
    }
}

/// As `lemma_find_pid_from`, for the address key.
pub proof fn lemma_find_addr_from(nodes: Seq<NodeView>, address: Seq<char>, i: int)
    requires
        0 <= i <= nodes.len(),
    ensures
        ({
            let r = find_addr_from(nodes, address, i);
            &&& (r == -1 ==> forall|k: int| i <= k < nodes.len() ==> nodes[k].ip_address
                != address)
            &&& (r != -1 ==> i <= r < nodes.len() && nodes[r].ip_address == address)
        }),
    decreases nodes.len() - i,
{
    if i < nodes.len() && nodes[i].ip_address != address {
        lemma_find_addr_from(nodes, address, i + 1);
    }
}

/// As `lemma_find_pid_prefix`, for the address key.
pub proof fn lemma_find_addr_prefix(nodes: Seq<NodeView>, address: Seq<char>, j: int)
    requires
        0 <= j <= nodes.len(),
        forall|k: int| 0 <= k < j ==> nodes[k].ip_address != address,
    ensures
        find_addr_from(nodes, address, 0) == find_addr_from(nodes, address, j),
    decreases j,
{
    if j > 0 {
        lemma_find_addr_prefix(nodes, address, j - 1);
    }
}

impl ClientView {
    /// The registry with no nodes.
    pub open spec fn empty() -> ClientView {
        ClientView { nodes: Seq::<NodeView>::empty() }
    }

    /// Identities are unique: no two entries share a `pid`.
    pub open spec fn wf(self) -> bool {
        forall|i: int, j: int|
            0 <= i < j < self.nodes.len() ==> self.nodes[i].pid != self.nodes[j].pid
    }

    /// Some entry carries identity `pid`.
    pub open spec fn has_pid(self, pid: Seq<char>) -> bool {
        exists|i: int| 0 <= i < self.nodes.len() && self.nodes[i].pid == pid
    }

    /// Some entry carries address `address`.
    pub open spec fn has_addr(self, address: Seq<char>) -> bool {
        exists|i: int| 0 <= i < self.nodes.len() && self.nodes[i].ip_address == address
    }

    /// The node a fresh successful probe gives rise to.
    pub open spec fn probed_node(
        pid: Seq<char>,
        version: Seq<char>,
        address: Seq<char>,
        port: u16,
        now: i64,
        stats: ThalamusNodeStats,
    ) -> NodeView {
        NodeView {
            pid: pid,
            ip_address: address,
            version: version,
            port: port,
            jobs: Seq::<JobView>::empty(),
            last_ping: now,
            stats: stats,
            is_online: true,
        }
    }

    /// Effect of applying a successful version reply: the first node with
    /// the reply's identity is touched (`last_ping`, `online`) and nothing
    /// else of it changes; an unknown identity appends a fresh node.
    pub open spec fn upserted(
        self,
        pid: Seq<char>,
        version: Seq<char>,
        address: Seq<char>,
        port: u16,
        now: i64,
        stats: ThalamusNodeStats,
    ) -> ClientView {
        let i = find_pid_from(self.nodes, pid, 0);
        if i >= 0 {
            ClientView {
                nodes: self.nodes.update(
                    i,
                    NodeView { last_ping: now, is_online: true, ..self.nodes[i] },
                ),
            }
        } else {
            ClientView {
                nodes: self.nodes.push(
                    ClientView::probed_node(pid, version, address, port, now, stats),
                ),
            }
        }
    }

    /// Effect of merging one gossiped peer record: a known identity only has
    /// its `last_ping` refreshed; an unknown one is appended verbatim, its
    /// reported scores trusted.
    pub open spec fn merged(self, peer: NodeView, now: i64) -> ClientView {
        let i = find_pid_from(self.nodes, peer.pid, 0);
        if i >= 0 {
            ClientView { nodes: self.nodes.update(i, NodeView { last_ping: now, ..self.nodes[i] }) }
        } else {
            ClientView { nodes: self.nodes.push(peer) }
        }
    }

    /// Effect of a failed probe at `address`: the first node carrying that
    /// address goes offline; nothing is removed, and an unknown address
    /// changes nothing.
    pub open spec fn marked_offline(self, address: Seq<char>) -> ClientView {
        let i = find_addr_from(self.nodes, address, 0);
        if i >= 0 {
            ClientView {
                nodes: self.nodes.update(i, NodeView { is_online: false, ..self.nodes[i] }),
            }
        } else {
            self
        }
    }
}

impl ThalamusClient {
    /// A registry that knows no nodes yet.
    pub fn new() -> (r: ThalamusClient)
        ensures
            r@ == ClientView::empty(),
            r@.wf(),
    {
        let nodes: Vec<ThalamusNode> = Vec::new();
        let r = ThalamusClient { nodes };
        proof {
            assert(r@.nodes =~= Seq::<NodeView>::empty());
            assert(r@ =~= ClientView::empty());
        }
        r
    }

    /// Index of the first entry with identity `pid`, if any.
    fn position_by_pid(&self, pid: &String) -> (r: Option<usize>)
        ensures
            ({
                let f = find_pid_from(self@.nodes, pid@, 0);
                match r {
                    Some(j) => f == j && j < self.nodes@.len(),
                    None => f == -1,
                }
            }),
    {
        let n = self.nodes.len();
        let mut j: usize = 0;
        while j < n
            invariant
                n == self.nodes@.len(),
                j <= n,
                forall|k: int| 0 <= k < j ==> self@.nodes[k].pid != pid@,
            decreases n - j,
        {
            if self.nodes[j].pid == *pid {
                proof {
                    assert(self@.nodes[j as int].pid == pid@);
                    lemma_find_pid_prefix(self@.nodes, pid@, j as int);
                }
                return Some(j);
            }
            j = j + 1;
        }
        proof {
            lemma_find_pid_prefix(self@.nodes, pid@, n as int);
        }
        None
    }

    /// Index of the first entry with address `address`, if any.
    fn position_by_addr(&self, address: &String) -> (r: Option<usize>)
        ensures
            ({
                let f = find_addr_from(self@.nodes, address@, 0);
                match r {
                    Some(j) => f == j && j < self.nodes@.len(),
                    None => f == -1,
                }
            }),
    {
        let n = self.nodes.len();
        let mut j: usize = 0;
        while j < n
            invariant
                n == self.nodes@.len(),
                j <= n,
                forall|k: int| 0 <= k < j ==> self@.nodes[k].ip_address != address@,
            decreases n - j,
        {
            if self.nodes[j].ip_address == *address {
                proof {
                    assert(self@.nodes[j as int].ip_address == address@);
                    lemma_find_addr_prefix(self@.nodes, address@, j as int);
                }
                return Some(j);
            }
            j = j + 1;
        }
        proof {
            lemma_find_addr_prefix(self@.nodes, address@, n as int);
        }
        None
    }

    /// True when some entry already carries identity `pid`.
    ///
    /// Discovery drivers consult this before running the construction-time
    /// benchmark, so that only genuinely new identities are benchmarked.
    pub fn contains_pid(&self, pid: &String) -> (r: bool)
        ensures
            r == self@.has_pid(pid@),
    {
        let r = self.position_by_pid(pid);
        proof {
            lemma_find_pid_from(self@.nodes, pid@, 0);
            if self@.has_pid(pid@) {
                let w = choose|i: int|
                    0 <= i < self@.nodes.len() && self@.nodes[i].pid == pid@;
                if find_pid_from(self@.nodes, pid@, 0) == -1 {
                    assert(self@.nodes[w].pid != pid@);
                }
            }
        }
        r.is_some()
    }

    /// Applies a successful liveness probe's reply, observed at `address`.
    ///
    /// When the reply's identity is already known, only its liveness fields
    /// are touched; otherwise a fresh node is appended, listening on
    /// `default_port`, carrying `new_stats` (the caller benchmarks a new
    /// identity before inserting it; for a known identity `new_stats` is
    /// ignored).
    pub fn upsert_by_version_reply(
        &mut self,
        reply: &VersionReply,
        address: String,
        default_port: u16,
        now: i64,
        new_stats: ThalamusNodeStats,
    )
        ensures
            final(self)@ == old(self)@.upserted(
                reply.pid@,
                reply.version@,
                address@,
                default_port,
                now,
                new_stats,
            ),
    {
        let found = self.position_by_pid(&reply.pid);
        match found {
            Some(j) => {
                self.nodes[j].last_ping = now;
                self.nodes[j].is_online = true;
                proof {
                    assert(self@.nodes =~= old(self)@.nodes.update(
                        j as int,
                        NodeView { last_ping: now, is_online: true, ..old(self)@.nodes[j as int] },
                    ));
                    assert(self@ =~= old(self)@.upserted(
                        reply.pid@,
                        reply.version@,
                        address@,
                        default_port,
                        now,
                        new_stats,
                    ));
                }
            },
            None => {
                let node = ThalamusNode::new(
                    reply.pid.clone(),
                    reply.version.clone(),
                    address,
                    default_port,
                    now,
                    new_stats,
                );
                self.nodes.push(node);
                proof {
                    assert(self@.nodes =~= old(self)@.nodes.push(
                        ClientView::probed_node(
                            reply.pid@,
                            reply.version@,
                            address@,
                            default_port,
                            now,
                            new_stats,
                        ),
                    ));
                    assert(self@ =~= old(self)@.upserted(
                        reply.pid@,
                        reply.version@,
                        address@,
                        default_port,
                        now,
                        new_stats,
                    ));
                }
            },
        }
    }

    /// Merges one peer record obtained by transitive gossip.
    pub fn merge_discovered_peer(&mut self, peer: ThalamusNode, now: i64)
        ensures
            final(self)@ == old(self)@.merged(peer@, now),
    {
        let found = self.position_by_pid(&peer.pid);
        match found {
            Some(j) => {
                self.nodes[j].last_ping = now;
                proof {
                    assert(self@.nodes =~= old(self)@.nodes.update(
                        j as int,
                        NodeView { last_ping: now, ..old(self)@.nodes[j as int] },
                    ));
                    assert(self@ =~= old(self)@.merged(peer@, now));
                }
            },
            None => {
                let ghost pv = peer@;
                self.nodes.push(peer);
                proof {
                    assert(self@.nodes =~= old(self)@.nodes.push(pv));
                    assert(self@ =~= old(self)@.merged(pv, now));
                }
            },
        }
    }

    /// Marks the first node carrying `address` offline after a failed probe.
    /// The node stays in the table; an unknown address is a no-op.
    pub fn mark_offline_by_address(&mut self, address: &String)
        ensures
            final(self)@ == old(self)@.marked_offline(address@),
    {
        let found = self.position_by_addr(address);
        match found {
            Some(j) => {
                self.nodes[j].is_online = false;
                proof {
                    assert(self@.nodes =~= old(self)@.nodes.update(
                        j as int,
                        NodeView { is_online: false, ..old(self)@.nodes[j as int] },
                    ));
                    assert(self@ =~= old(self)@.marked_offline(address@));
                }
            },
            None => {
                proof {
                    assert(self@ =~= old(self)@.marked_offline(address@));
                }
            },
        }
    }

    /// A point-in-time clone of every entry, safe to iterate without holding
    /// the registry itself.
    pub fn snapshot(&self) -> (r: Vec<ThalamusNode>)
        ensures
            r@.map_values(|n: ThalamusNode| n@) == self@.nodes,
    {
        let mut out: Vec<ThalamusNode> = Vec::new();
        let mut i: usize = 0;
        while i < self.nodes.len()
            invariant
                i <= self.nodes@.len(),
                out@.len() == i,
                forall|k: int| 0 <= k < i ==> out@[k]@ == self@.nodes[k],
            decreases self.nodes@.len() - i,
        {
            out.push(self.nodes[i].clone());
            i = i + 1;
        }
        proof {
            assert(out@.map_values(|n: ThalamusNode| n@) =~= self@.nodes);
        }
        out
    }
}

} // verus!
