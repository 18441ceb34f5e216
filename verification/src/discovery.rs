//! The three discovery strategies' decision logic.
//!
//! The strategies' network work (probing, multicast, peer-list fetches) is
//! done by a driver; everything the driver decides with — which interfaces
//! to scan or advertise, which candidate addresses may be probed, which /24
//! host list to walk, and how each outcome changes the registry — is
//! defined and verified here.

use vstd::prelude::*;

use crate::node::{NodeView, ThalamusNode, VersionReply};
use crate::registry::{ClientView, ThalamusClient};
use crate::stats::ThalamusNodeStats;
use crate::text::{
    chars_to_string, contains_char, contains_sub, dec_digits, dot_boundary, last_dot,
    lemma_last_dot_bounds, starts_with, str_contains, str_contains_char, str_starts_with,
    str_to_chars, write_chars, write_u64,
};

verus! {

/// The fixed service port every node listens on when none is advertised.
pub const DEFAULT_PORT: u16 = 8050;

/// How long a caller waits for one bounded-time language-model probe.
pub const LLAMA_TEST_TIMEOUT_MS: u64 = 60000;

/// Time-to-live of every advertised multicast record.
pub const MDNS_RECORD_TTL: u32 = 10;

/// The advertised multicast service name.
pub fn mdns_service_name() -> (r: &'static str)
    ensures
        r@ == "_thalamus._tcp.local"@,
{
    "_thalamus._tcp.local"
}

/// An address of this form is IPv6 and is never scanned or advertised.
pub open spec fn is_ipv6_text(s: Seq<char>) -> bool {
    contains_char(s, ':')
}

/// A dotted-quad loopback address.
pub open spec fn is_loopback_text(s: Seq<char>) -> bool {
    starts_with(s, "127."@)
}

/// The deliberate heuristic that keeps default-gateway-looking addresses
/// (`*.0.1`) off the multicast side, both when advertising and when
/// browsing.
pub open spec fn blocked_address(s: Seq<char>) -> bool {
    contains_sub(s, ".0.1"@)
}

/// An interface the subnet scan walks: IPv4 and not loopback.
pub open spec fn scan_eligible(s: Seq<char>) -> bool {
    !is_ipv6_text(s) && !is_loopback_text(s)
}

/// An interface the multicast responder advertises: scannable and not
/// matching the gateway heuristic.
pub open spec fn advertise_eligible(s: Seq<char>) -> bool {
    scan_eligible(s) && !blocked_address(s)
}

/// A discovered address the multicast browser may probe.
pub open spec fn probe_candidate_ok(s: Seq<char>) -> bool {
    !blocked_address(s)
}

/// Law (filter correctness): an address containing `.0.1` is never
/// advertised by the responder and never allowed as a browse-probe
/// candidate.
pub proof fn lemma_blocked_address_never_used(s: Seq<char>)
    ensures
        blocked_address(s) ==> !advertise_eligible(s),
        blocked_address(s) ==> !probe_candidate_ok(s),
{
}

/// Whether the subnet scan walks this interface address.
pub fn eligible_scan_interface(addr: &str) -> (r: bool)
    ensures
        r == scan_eligible(addr@),
{
    !str_contains_char(addr, ':') && !str_starts_with(addr, "127.")
}

/// Whether the multicast responder advertises this interface address.
pub fn eligible_advertise_interface(addr: &str) -> (r: bool)
    ensures
        r == advertise_eligible(addr@),
{
    eligible_scan_interface(addr) && !str_contains(addr, ".0.1")
}

/// Whether the multicast browser may probe this discovered address.
pub fn candidate_allowed(addr: &str) -> (r: bool)
    ensures
        r == probe_candidate_ok(addr@),
{
    !str_contains(addr, ".0.1")
}

/// The addresses the responder advertises: exactly the eligible ones, in
/// their original order.
pub fn advertise_interfaces(interfaces: &Vec<String>) -> (r: Vec<String>)
    ensures
        r@.map_values(|s: String| s@) == interfaces@.map_values(|s: String| s@).filter(
            |s: Seq<char>| advertise_eligible(s),
        ),
{
    let ghost views = interfaces@.map_values(|s: String| s@);
    let ghost pred = |s: Seq<char>| advertise_eligible(s);
    let mut out: Vec<String> = Vec::new();
    let mut i: usize = 0;
    proof {
        reveal_with_fuel(Seq::filter, 2);
        assert(views.take(0) =~= Seq::<Seq<char>>::empty());
        assert(out@.map_values(|s: String| s@) =~= views.take(0).filter(pred));
    }
    while i < interfaces.len()
        invariant
            i <= interfaces@.len(),
            views == interfaces@.map_values(|s: String| s@),
            pred == (|s: Seq<char>| advertise_eligible(s)),
            out@.map_values(|s: String| s@) == views.take(i as int).filter(pred),
        decreases interfaces@.len() - i,
    {
        let ghost prev = out@.map_values(|s: String| s@);
        if eligible_advertise_interface(interfaces[i].as_str()) {
            out.push(interfaces[i].clone());
        }
        proof {
            reveal_with_fuel(Seq::filter, 2);
            let single = seq![views[i as int]];
            assert(views.take(i + 1) =~= views.take(i as int) + single);
            Seq::filter_distributes_over_add(views.take(i as int), single, pred);
            assert(single.drop_last() =~= Seq::<Seq<char>>::empty());
            assert(single.last() == views[i as int]);
            if pred(views[i as int]) {
                assert(single.filter(pred) =~= seq![views[i as int]]);
                assert(out@.map_values(|s: String| s@) =~= prev + seq![views[i as int]]);
            } else {
                assert(single.filter(pred) =~= Seq::<Seq<char>>::empty());
                assert(out@.map_values(|s: String| s@) =~= prev);
                assert(prev =~= prev + single.filter(pred));
            }
            assert(out@.map_values(|s: String| s@) =~= views.take(i + 1).filter(pred));
        }
        i = i + 1;
    }
    proof {
        assert(views.take(interfaces@.len() as int) =~= views);
    }
    out
}

/// The /24 prefix of a dotted-quad address: everything up to and including
/// the last dot.
pub open spec fn subnet_prefix(s: Seq<char>) -> Seq<char> {
    s.take(last_dot(s) + 1)
}

/// The candidate address of host `k` in the interface's /24 subnet.
pub open spec fn host_addr(s: Seq<char>, k: int) -> Seq<char> {
    subnet_prefix(s) + dec_digits(k as nat)
}

/// All 254 host addresses of the /24 subnet of the given interface address,
/// in ascending order: `a.b.c.1` through `a.b.c.254`.
pub fn subnet_hosts(addr: &str) -> (r: Vec<String>)
    ensures
        r@.len() == 254,
        forall|k: int| 0 <= k < 254 ==> r@[k]@ == host_addr(addr@, k + 1),
{
    proof {
        lemma_last_dot_bounds(addr@);
    }
    let j = dot_boundary(addr);
    let all = str_to_chars(addr);
    let mut prefix = all;
    prefix.truncate(j);
    proof {
        assert(prefix@ =~= subnet_prefix(addr@));
    }
    let mut out: Vec<String> = Vec::new();
    let mut k: u64 = 1;
    while k <= 254
        invariant
            1 <= k <= 255,
            prefix@ == subnet_prefix(addr@),
            out@.len() == k - 1,
            forall|m: int| 0 <= m < k - 1 ==> out@[m]@ == host_addr(addr@, m + 1),
        decreases 255 - k,
    {
        let mut buf: Vec<char> = Vec::new();
        write_chars(&mut buf, &prefix);
        write_u64(&mut buf, k);
        proof {
            assert(Seq::<char>::empty() + prefix@ =~= prefix@);
            assert(buf@ =~= host_addr(addr@, k as int));
        }
        out.push(chars_to_string(&buf));
        k = k + 1;
    }
    out
}

/// Result of merging a whole gossiped peer list, first entry first.
pub open spec fn merge_all(c: ClientView, peers: Seq<NodeView>, now: i64) -> ClientView
    decreases peers.len(),
{
    if peers.len() == 0 {
        c
    } else {
        merge_all(c.merged(peers[0], now), peers.skip(1), now)
    }
}

/// Merging one more peer at the end merges it into the accumulated result.
proof fn lemma_merge_all_push(c: ClientView, peers: Seq<NodeView>, x: NodeView, now: i64)
    ensures
        merge_all(c, peers.push(x), now) == merge_all(c, peers, now).merged(x, now),
    decreases peers.len(),
{
    reveal_with_fuel(merge_all, 3);
    if peers.len() == 0 {
        assert(peers.push(x)[0] == x);
        assert(peers.push(x).skip(1) =~= Seq::<NodeView>::empty());
    } else {
        assert(peers.push(x)[0] == peers[0]);
        assert(peers.push(x).skip(1) =~= peers.skip(1).push(x));
        lemma_merge_all_push(c.merged(peers[0], now), peers.skip(1), x, now);
    }
}

impl ThalamusClient {
    /// Applies one multicast browse outcome for the candidate `address`:
    /// a successful probe reply is upserted under the probed identity, a
    /// failed probe marks the candidate's address offline.
    ///
    /// For a reply with a new identity the caller benchmarks it first and
    /// passes the result as `new_stats`; for a known identity `new_stats`
    /// is ignored.
    pub fn apply_browse_result(
        &mut self,
        address: String,
        outcome: Option<&VersionReply>,
        now: i64,
        new_stats: ThalamusNodeStats,
    )
        ensures
            match outcome {
                Some(v) => final(self)@ == old(self)@.upserted(
                    v.pid@,
                    v.version@,
                    address@,
                    DEFAULT_PORT,
                    now,
                    new_stats,
                ),
                None => final(self)@ == old(self)@.marked_offline(address@),
            },
    {
        match outcome {
            Some(v) => self.upsert_by_version_reply(v, address, DEFAULT_PORT, now, new_stats),
            None => self.mark_offline_by_address(&address),
        }
    }

    /// Merges one queried node's whole reported peer list, in order.  The
    /// queried node's own liveness is deliberately left untouched; gossip
    /// only has effects on the discovered third parties.
    pub fn apply_gossip_reply(&mut self, peers: Vec<ThalamusNode>, now: i64)
        ensures
            final(self)@ == merge_all(
                old(self)@,
                peers@.map_values(|n: ThalamusNode| n@),
                now,
            ),
    {
        let ghost views = peers@.map_values(|n: ThalamusNode| n@);
        let mut i: usize = 0;
        proof {
            assert(views.take(0) =~= Seq::<NodeView>::empty());
        }
        while i < peers.len()
            invariant
                i <= peers@.len(),
                views == peers@.map_values(|n: ThalamusNode| n@),
                self@ == merge_all(old(self)@, views.take(i as int), now),
            decreases peers@.len() - i,
        {
            let peer = peers[i].clone();
            proof {
                assert(peer@ == views[i as int]);
            }
            self.merge_discovered_peer(peer, now);
            proof {
                assert(views.take(i + 1) =~= views.take(i as int).push(views[i as int]));
                lemma_merge_all_push(old(self)@, views.take(i as int), views[i as int], now);
            }
            i = i + 1;
        }
        proof {
            assert(views.take(peers@.len() as int) =~= views);
        }
    }
}

} // verus!
