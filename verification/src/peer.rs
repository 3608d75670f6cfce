//! Peer management: creating a peer, adding local trust scores, and advancing
//! the peer's global trust score by one aggregation round.
//!
//! Scores and weights are fixed-point numbers with [`crate::SCALE`] as the
//! unit, so a value of `SCALE` stands for the real number one.

use vstd::prelude::*;
use crate::SCALE;

verus! {

/// Mathematical view of a [`Peer`]: its index, its directed local-trust
/// edges in insertion order, its current global score, its fixed pre-trust
/// score and its convergence latch.
pub ghost struct PeerView {
    pub index: u64,
    pub edges: Seq<(u64, u64)>,
    pub score: u64,
    pub pre: u64,
    pub converged: bool,
}

/// The weight that a peer with edge list `edges` declares toward the peer
/// with index `to`: the first matching edge, or zero when no edge toward
/// `to` was ever declared (a total, default-zero lookup).
pub open spec fn edge_weight(edges: Seq<(u64, u64)>, to: u64) -> u64
    decreases edges.len(),
{
    if edges.len() == 0 {
        0u64
    } else if edges[0].0 == to {
        edges[0].1
    } else {
        edge_weight(edges.drop_first(), to)
    }
}

impl PeerView {
    /// Well-formedness: the pre-trust score and every declared weight lie in
    /// `[0, SCALE]`, i.e. stand for real numbers in `[0, 1]`.
    pub open spec fn wf(self) -> bool {
        &&& self.pre <= SCALE
        &&& forall|k: int| 0 <= k < self.edges.len() ==> (#[trigger] self.edges[k]).1 <= SCALE
    }
}

/// A peer of the trust network.
pub struct Peer {
    /// The unique identifier of the peer.
    index: u64,
    /// Local trust scores of the peer towards other peers, keyed by index.
    local_trust_scores: Vec<(u64, u64)>,
    /// Global trust score of the peer.
    global_trust_score: u64,
    /// Pre-trust score of the peer.
    pre_trust_score: u64,
    /// Did the peer converge?
    is_converged: bool,
}

impl View for Peer {
    type V = PeerView;

    closed spec fn view(&self) -> PeerView {
        PeerView {
            index: self.index,
            edges: self.local_trust_scores@,
            score: self.global_trust_score,
            pre: self.pre_trust_score,
            converged: self.is_converged,
        }
    }
}

/// The views of a sequence of peers.
pub open spec fn views(s: Seq<Peer>) -> Seq<PeerView> {
    s.map_values(|p: Peer| p@)
}

/// One neighbour's contribution to the update sum of the peer with index
/// `i`: the neighbour's declared weight toward `i` times the neighbour's own
/// global score, and zero for the peer itself (zero self-influence).
pub open spec fn opinion(q: PeerView, i: u64) -> int {
    if q.index == i {
        0
    } else {
        edge_weight(q.edges, i) * q.score
    }
}

/// The weighted opinion mass toward the peer with index `i` over the first
/// `k` peers of the snapshot `snap`, in `SCALE * SCALE` fixed-point units.
pub open spec fn raw_sum(snap: Seq<PeerView>, i: u64, k: int) -> int
    decreases k,
{
    if k <= 0 {
        0
    } else {
        raw_sum(snap, i, k - 1) + opinion(snap[k - 1], i)
    }
}

/// The declared trust mass toward the peer with index `i` over the first `k`
/// peers of `snap`: the sum of the weights alone, ignoring scores.
pub open spec fn in_mass(snap: Seq<PeerView>, i: u64, k: int) -> int
    decreases k,
{
    if k <= 0 {
        0
    } else {
        in_mass(snap, i, k - 1) + (if snap[k - 1].index == i {
            0
        } else {
            edge_weight(snap[k - 1].edges, i) as int
        })
    }
}

/// The score that one update step assigns to peer `p` against the snapshot
/// `snap`: `(1 - a) * raw + a * pre` in fixed point, where `raw` is the
/// weighted opinion mass toward `p` and `a` is the pre-trust blend weight.
/// Divisions are floor divisions of the fixed-point encoding.
pub open spec fn next_score(p: PeerView, snap: Seq<PeerView>, pre_trust_weight: u64) -> int {
    ((SCALE - pre_trust_weight) * (raw_sum(snap, p.index, snap.len() as int) / (SCALE as int))
        + pre_trust_weight * p.pre) / (SCALE as int)
}

/// Absolute difference of two integers.
pub open spec fn abs_diff(a: int, b: int) -> int {
    if a >= b {
        a - b
    } else {
        b - a
    }
}

/// No peer of `snap` declares any local-trust edge.
pub open spec fn no_edges(snap: Seq<PeerView>) -> bool {
    forall|j: int| 0 <= j < snap.len() ==> (#[trigger] snap[j]).edges.len() == 0
}

/// Zero self-influence: the opinion mass toward the peer with index `i`
/// never reads the local-trust map of a peer whose own index is `i`, so
/// replacing such a peer by any other record with the same index — in
/// particular one with a different declared opinion of itself — leaves the
/// update sum unchanged.
pub proof fn lemma_zero_self_influence(snap: Seq<PeerView>, j: int, q: PeerView, i: u64)
    requires
        0 <= j < snap.len(),
        snap[j].index == i,
        q.index == i,
    ensures
        raw_sum(snap.update(j, q), i, snap.len() as int) == raw_sum(snap, i, snap.len() as int),
{
    lemma_self_update_prefix(snap, j, q, i, snap.len() as int);
}

proof fn lemma_self_update_prefix(snap: Seq<PeerView>, j: int, q: PeerView, i: u64, k: int)
    requires
        0 <= j < snap.len(),
        snap[j].index == i,
        q.index == i,
        0 <= k <= snap.len(),
    ensures
        raw_sum(snap.update(j, q), i, k) == raw_sum(snap, i, k),
    decreases k,
{
    if k > 0 {
        lemma_self_update_prefix(snap, j, q, i, k - 1);
        if k - 1 == j {
            assert(opinion(snap.update(j, q)[k - 1], i) == 0);
            assert(opinion(snap[k - 1], i) == 0);
        } else {
            assert(snap.update(j, q)[k - 1] == snap[k - 1]);
        }
    }
}

/// Isolated network: when no peer declares any neighbour, the opinion mass
/// toward every index is zero, and one update step takes every peer's score
/// to exactly `pre_trust_weight * pre / SCALE` — so every score reaches its
/// final value in one round, and a peer already at that value moves by zero
/// and latches convergence on the next step.
pub proof fn lemma_isolated_network(p: PeerView, snap: Seq<PeerView>, pre_trust_weight: u64)
    requires
        no_edges(snap),
    ensures
        raw_sum(snap, p.index, snap.len() as int) == 0,
        next_score(p, snap, pre_trust_weight) == (pre_trust_weight * p.pre) as int / (SCALE as int),
        p.score == (pre_trust_weight * p.pre) as int / (SCALE as int) ==> abs_diff(
            next_score(p, snap, pre_trust_weight),
            p.score as int,
        ) == 0,
{
    lemma_raw_sum_no_edges(snap, p.index, snap.len() as int);
    assert((0int) / (SCALE as int) == 0) by (nonlinear_arith);
    assert((SCALE - pre_trust_weight) * 0 == 0) by (nonlinear_arith);
}

proof fn lemma_raw_sum_no_edges(snap: Seq<PeerView>, i: u64, k: int)
    requires
        no_edges(snap),
        k <= snap.len(),
    ensures
        raw_sum(snap, i, k) == 0,
    decreases k,
{
    if k > 0 {
        lemma_raw_sum_no_edges(snap, i, k - 1);
        assert(snap[k - 1].edges.len() == 0);
        assert(edge_weight(snap[k - 1].edges, i) == 0);
        assert(opinion(snap[k - 1], i) == 0);
    }
}

/// Every opinion is nonnegative, so `raw_sum` grows with its prefix length.
pub proof fn lemma_raw_sum_monotone(snap: Seq<PeerView>, i: u64, k1: int, k2: int)
    requires
        0 <= k1 <= k2,
    ensures
        0 <= raw_sum(snap, i, k1) <= raw_sum(snap, i, k2),
    decreases k2,
{
    if k2 > 0 {
        if k1 == k2 {
            lemma_raw_sum_monotone(snap, i, 0, k2 - 1);
        } else {
            lemma_raw_sum_monotone(snap, i, k1, k2 - 1);
        }
    }
}

impl Peer {
    /// Create a new peer with no declared edges and an unset convergence
    /// latch.
    pub fn new(index: u64, global_trust_score: u64, pre_trust_score: u64) -> (r: Self)
        ensures
            r@.index == index,
            r@.edges == Seq::<(u64, u64)>::empty(),
            r@.score == global_trust_score,
            r@.pre == pre_trust_score,
            !r@.converged,
    {
        Self {
            index,
            local_trust_scores: Vec::new(),
            global_trust_score,
            pre_trust_score,
            is_converged: false,
        }
    }

    /// Record, or overwrite, the local trust score toward the peer with
    /// index `peer_index`. Weights stand for real numbers in `[0, 1]`;
    /// keeping the outgoing weights row-stochastic is the caller's
    /// responsibility.
    pub fn add_neighbor(&mut self, peer_index: u64, local_trust_value: u64)
        requires
            local_trust_value <= SCALE,
        ensures
            final(self)@.index == old(self)@.index,
            final(self)@.score == old(self)@.score,
            final(self)@.pre == old(self)@.pre,
            final(self)@.converged == old(self)@.converged,
            forall|to: u64|
                edge_weight(final(self)@.edges, to) == (if to == peer_index {
                    local_trust_value
                } else {
                    edge_weight(old(self)@.edges, to)
                }),
            old(self)@.wf() ==> final(self)@.wf(),
    {
        let ghost orig = *old(self);
        let n = self.local_trust_scores.len();
        let mut k: usize = 0;
        while k < n
            invariant
                *self == *old(self),
                orig == *old(self),
                n == orig.local_trust_scores@.len(),
                local_trust_value <= SCALE,
                0 <= k <= n,
                forall|m: int|
                    0 <= m < k ==> (#[trigger] orig.local_trust_scores@[m]).0 != peer_index,
            decreases n - k,
        {
            if self.local_trust_scores[k].0 == peer_index {
                set_edge(&mut self.local_trust_scores, k, (peer_index, local_trust_value));
                proof {
                    assert(self@.edges == orig.local_trust_scores@.update(
                        k as int,
                        (peer_index, local_trust_value),
                    ));
                    assert(old(self)@.wf() ==> self@.wf()) by {
                        if old(self)@.wf() {
                            assert forall|m: int| 0 <= m < self@.edges.len() implies (
                            #[trigger] self@.edges[m]).1 <= SCALE by {
                                if m == k as int {
                                    assert(self@.edges[m].1 == local_trust_value);
                                } else {
                                    assert(self@.edges[m] == old(self)@.edges[m]);
                                    assert(old(self)@.edges[m].1 <= SCALE);
                                }
                            }
                        }
                    }
                    assert forall|to: u64|
                        edge_weight(self@.edges, to) == (if to == peer_index {
                            local_trust_value
                        } else {
                            edge_weight(orig@.edges, to)
                        }) by {
                        lemma_edge_weight_update(
                            orig.local_trust_scores@,
                            k as int,
                            peer_index,
                            local_trust_value,
                            to,
                        );
                    }
                }
                return ;
            }
            k += 1;
        }
        self.local_trust_scores.push((peer_index, local_trust_value));
        proof {
            assert(old(self)@.wf() ==> self@.wf()) by {
                if old(self)@.wf() {
                    assert forall|m: int| 0 <= m < self@.edges.len() implies (
                    #[trigger] self@.edges[m]).1 <= SCALE by {
                        if m < old(self)@.edges.len() {
                            assert(self@.edges[m] == old(self)@.edges[m]);
                            assert(old(self)@.edges[m].1 <= SCALE);
                        } else {
                            assert(self@.edges[m].1 == local_trust_value);
                        }
                    }
                }
            }
            assert forall|to: u64|
                edge_weight(self@.edges, to) == (if to == peer_index {
                    local_trust_value
                } else {
                    edge_weight(orig@.edges, to)
                }) by {
                lemma_edge_weight_push(
                    orig.local_trust_scores@,
                    peer_index,
                    local_trust_value,
                    to,
                );
            }
        }
    }

    /// Advance the global trust score by one round against the immutable
    /// snapshot `neighbors` of the previous round. A no-op once the peer has
    /// converged; otherwise the new score is the fixed-point blend of the
    /// neighbours' weighted opinions with the pre-trust score, and the
    /// convergence latch is set exactly when the score moved by at most
    /// `delta`.
    pub fn heartbeat(&mut self, neighbors: &[Peer], delta: u64, pre_trust_weight: u64)
        requires
            old(self)@.wf(),
            pre_trust_weight <= SCALE,
            raw_sum(views(neighbors@), old(self)@.index, neighbors@.len() as int) <= (SCALE
                * SCALE) as int,
        ensures
            final(self)@.index == old(self)@.index,
            final(self)@.edges == old(self)@.edges,
            final(self)@.pre == old(self)@.pre,
            old(self)@.converged ==> final(self)@ == old(self)@,
            !old(self)@.converged ==> final(self)@.score == next_score(
                old(self)@,
                views(neighbors@),
                pre_trust_weight,
            ),
            !old(self)@.converged ==> final(self)@.converged == (abs_diff(
                next_score(old(self)@, views(neighbors@), pre_trust_weight),
                old(self)@.score as int,
            ) <= delta as int),
            !old(self)@.converged ==> final(self)@.score <= SCALE,
    {
        if self.is_converged {
            return ;
        }
        let ghost snap = views(neighbors@);
        let i = self.index;
        let n = neighbors.len();
        let mut acc: u128 = 0;
        let mut j: usize = 0;
        while j < n
            invariant
                *self == *old(self),
                n == neighbors@.len(),
                snap == views(neighbors@),
                i == old(self)@.index,
                old(self)@.wf(),
                0 <= j <= n,
                acc == raw_sum(snap, i, j as int),
                raw_sum(snap, i, n as int) <= (SCALE * SCALE) as int,
            decreases n - j,
        {
            proof {
                lemma_raw_sum_monotone(snap, i, j + 1, n as int);
                assert(snap[j as int] == neighbors@[j as int]@);
            }
            let q = &neighbors[j];
            if q.index != i {
                let w = q.get_local_trust_score(&i);
                acc = acc + (w as u128) * (q.global_trust_score as u128);
            }
            j += 1;
        }
        let raw: u128 = acc / (SCALE as u128);
        proof {
            assert(raw as int == acc as int / (SCALE as int));
            assert(acc as int / (SCALE as int) <= (SCALE * SCALE) as int / (SCALE as int)) by {
                vstd::arithmetic::div_mod::lemma_div_is_ordered(
                    acc as int,
                    (SCALE * SCALE) as int,
                    SCALE as int,
                );
            }
            assert((SCALE * SCALE) as int / (SCALE as int) == SCALE as int) by (nonlinear_arith);
            assert(raw as int <= SCALE as int);
            assert(((SCALE - pre_trust_weight) as int) * (raw as int) + (pre_trust_weight as int)
                * (self.pre_trust_score as int) <= (SCALE as int) * (SCALE as int))
                by (nonlinear_arith)
                requires
                    0 <= raw as int <= SCALE as int,
                    0 <= (pre_trust_weight as int) <= SCALE as int,
                    0 <= (self.pre_trust_score as int) <= SCALE as int,
            ;
        }
        let blended: u128 = ((SCALE - pre_trust_weight) as u128) * raw + (pre_trust_weight as u128)
            * (self.pre_trust_score as u128);
        let next128: u128 = blended / (SCALE as u128);
        proof {
            assert(blended as int <= (SCALE as int) * (SCALE as int));
            assert(blended as int / (SCALE as int) <= ((SCALE as int) * (SCALE as int)) / (
            SCALE as int)) by {
                vstd::arithmetic::div_mod::lemma_div_is_ordered(
                    blended as int,
                    (SCALE as int) * (SCALE as int),
                    SCALE as int,
                );
            }
            assert(((SCALE as int) * (SCALE as int)) / (SCALE as int) == SCALE as int)
                by (nonlinear_arith);
            assert(next128 <= SCALE);
        }
        let next: u64 = next128 as u64;
        let diff: u64 = if next >= self.global_trust_score {
            next - self.global_trust_score
        } else {
            self.global_trust_score - next
        };
        if diff <= delta {
            self.is_converged = true;
        }
        self.global_trust_score = next;
    }

    /// Check if the peer has converged.
    pub fn is_converged(&self) -> (r: bool)
        ensures
            r == self@.converged,
    {
        self.is_converged
    }

    /// Get the global trust score.
    pub fn get_global_trust_score(&self) -> (r: u64)
        ensures
            r == self@.score,
    {
        self.global_trust_score
    }

    /// Get the pre-trust score.
    pub fn get_pre_trust_score(&self) -> (r: u64)
        ensures
            r == self@.pre,
    {
        self.pre_trust_score
    }

    /// Get the index of the peer.
    pub fn get_index(&self) -> (r: u64)
        ensures
            r == self@.index,
    {
        self.index
    }

    /// Get the local trust score of the peer toward the peer with index
    /// `*i`: a total lookup that returns zero when no edge toward `*i` was
    /// declared, so that an absent opinion contributes nothing to an update.
    pub fn get_local_trust_score(&self, i: &u64) -> (r: u64)
        ensures
            r == edge_weight(self@.edges, *i),
    {
        let n = self.local_trust_scores.len();
        let mut k: usize = 0;
        while k < n
            invariant
                n == self.local_trust_scores@.len(),
                0 <= k <= n,
                forall|m: int| 0 <= m < k ==> (#[trigger] self.local_trust_scores@[m]).0 != *i,
            decreases n - k,
        {
            if self.local_trust_scores[k].0 == *i {
                proof {
                    lemma_edge_weight_first_match(self@.edges, *i, k as int);
                }
                return self.local_trust_scores[k].1;
            }
            k += 1;
        }
        proof {
            lemma_edge_weight_first_match(self@.edges, *i, n as int);
        }
        0
    }
}

impl Clone for Peer {
    /// Cloning yields a peer with the same view; used to take the immutable
    /// round snapshot.
    fn clone(&self) -> (r: Self)
        ensures
            r@ == self@,
    {
        let mut edges: Vec<(u64, u64)> = Vec::new();
        let n = self.local_trust_scores.len();
        let mut k: usize = 0;
        while k < n
            invariant
                n == self.local_trust_scores@.len(),
                0 <= k <= n,
                edges@ == self.local_trust_scores@.subrange(0, k as int),
            decreases n - k,
        {
            edges.push(self.local_trust_scores[k]);
            proof {
                assert(edges@ =~= self.local_trust_scores@.subrange(0, k + 1));
            }
            k += 1;
        }
        proof {
            assert(edges@ =~= self.local_trust_scores@);
        }
        Self {
            index: self.index,
            local_trust_scores: edges,
            global_trust_score: self.global_trust_score,
            pre_trust_score: self.pre_trust_score,
            is_converged: self.is_converged,
        }
    }
}

/// Overwrite the entry of `v` at position `k`.
fn set_edge(v: &mut Vec<(u64, u64)>, k: usize, val: (u64, u64))
    requires
        k < old(v)@.len(),
    ensures
        final(v)@ == old(v)@.update(k as int, val),
{
    let elem = &mut v[k];
    *elem = val;
}

/// If no edge among the first `k` entries of `edges` points to `to`, the
/// lookup is decided by the entries from `k` on.
proof fn lemma_edge_weight_first_match(edges: Seq<(u64, u64)>, to: u64, k: int)
    requires
        0 <= k <= edges.len(),
        forall|m: int| 0 <= m < k ==> (#[trigger] edges[m]).0 != to,
    ensures
        edge_weight(edges, to) == edge_weight(edges.skip(k), to),
        k == edges.len() ==> edge_weight(edges, to) == 0,
        k < edges.len() && edges[k].0 == to ==> edge_weight(edges, to) == edges[k].1,
    decreases k,
{
    if k == 0 {
        assert(edges.skip(0) =~= edges);
    } else {
        lemma_edge_weight_first_match(edges.drop_first(), to, k - 1);
        assert(edges.drop_first().skip(k - 1) =~= edges.skip(k));
        assert(forall|m: int|
            0 <= m < k - 1 ==> (#[trigger] edges.drop_first()[m]).0 == edges[m + 1].0);
    }
    if k < edges.len() && edges[k].0 == to {
        assert(edges.skip(k)[0] == edges[k]);
    }
    if k == edges.len() {
        assert(edges.skip(k).len() == 0);
    }
}

/// Overwriting the first matching edge at position `k` changes the lookup
/// for its key alone.
proof fn lemma_edge_weight_update(edges: Seq<(u64, u64)>, k: int, key: u64, w: u64, to: u64)
    requires
        0 <= k < edges.len(),
        edges[k].0 == key,
        forall|m: int| 0 <= m < k ==> (#[trigger] edges[m]).0 != key,
    ensures
        edge_weight(edges.update(k, (key, w)), to) == (if to == key {
            w
        } else {
            edge_weight(edges, to)
        }),
    decreases k,
{
    let upd = edges.update(k, (key, w));
    assert(upd.len() == edges.len());
    if k == 0 {
        assert(upd[0] == (key, w));
        if to != key {
            assert(upd.drop_first() =~= edges.drop_first());
        }
    } else {
        assert(upd[0] == edges[0]);
        assert(upd.drop_first() =~= edges.drop_first().update(k - 1, (key, w)));
        assert(forall|m: int|
            0 <= m < edges.len() - 1 ==> (#[trigger] edges.drop_first()[m]) == edges[m + 1]);
        if edges[0].0 == to {
            assert(to != key);
        } else {
            lemma_edge_weight_update(edges.drop_first(), k - 1, key, w, to);
        }
    }
}

/// Appending an edge with a fresh key changes the lookup for its key alone.
proof fn lemma_edge_weight_push(edges: Seq<(u64, u64)>, key: u64, w: u64, to: u64)
    requires
        forall|m: int| 0 <= m < edges.len() ==> (#[trigger] edges[m]).0 != key,
    ensures
        edge_weight(edges.push((key, w)), to) == (if to == key {
            w
        } else {
            edge_weight(edges, to)
        }),
    decreases edges.len(),
{
    let ext = edges.push((key, w));
    assert(ext.len() == edges.len() + 1);
    if edges.len() == 0 {
        assert(ext[0] == (key, w));
        if to != key {
            assert(ext.drop_first() =~= Seq::<(u64, u64)>::empty());
            assert(edge_weight(Seq::<(u64, u64)>::empty(), to) == 0);
        }
    } else {
        assert(ext[0] == edges[0]);
        assert(ext.drop_first() =~= edges.drop_first().push((key, w)));
        assert(forall|m: int|
            0 <= m < edges.len() - 1 ==> (#[trigger] edges.drop_first()[m]) == edges[m + 1]);
        if edges[0].0 == to {
            assert(to != key);
        } else {
            lemma_edge_weight_push(edges.drop_first(), key, w, to);
        }
    }
}

} // verus!

