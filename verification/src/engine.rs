//! The reputation engine: drives synchronized aggregation rounds across all
//! peers against a frozen snapshot of the previous round, until every peer
//! has converged or a round budget runs out (running out of budget is an
//! outcome the caller can observe, not an error).

use vstd::prelude::*;
use crate::SCALE;
use crate::peer::{
    Peer, PeerView, abs_diff, edge_weight, in_mass, next_score, opinion, raw_sum, views,
};

verus! {

/// The peer record that one update step produces from `p` against the
/// snapshot `snap`: unchanged when already converged, otherwise the blended
/// score with the convergence latch set exactly when the score moved by at
/// most `delta`.
pub open spec fn step_peer(p: PeerView, snap: Seq<PeerView>, delta: u64, pre_trust_weight: u64) -> PeerView {
    if p.converged {
        p
    } else {
        PeerView {
            index: p.index,
            edges: p.edges,
            pre: p.pre,
            score: next_score(p, snap, pre_trust_weight) as u64,
            converged: abs_diff(next_score(p, snap, pre_trust_weight), p.score as int)
                <= delta as int,
        }
    }
}

/// One synchronized round: every peer is stepped against the same snapshot,
/// so the order of updates within a round cannot affect the result.
pub open spec fn step_round(snap: Seq<PeerView>, delta: u64, pre_trust_weight: u64) -> Seq<
    PeerView,
> {
    Seq::new(snap.len(), |j: int| step_peer(snap[j], snap, delta, pre_trust_weight))
}

/// The state of the network after `rounds` synchronized rounds from `snap`.
pub open spec fn run_view(snap: Seq<PeerView>, delta: u64, pre_trust_weight: u64, rounds: nat) -> Seq<PeerView>
    decreases rounds,
{
    if rounds == 0 {
        snap
    } else {
        step_round(run_view(snap, delta, pre_trust_weight, (rounds - 1) as nat), delta, pre_trust_weight)
    }
}

/// Every peer of the snapshot has converged.
pub open spec fn all_converged(snap: Seq<PeerView>) -> bool {
    forall|j: int| 0 <= j < snap.len() ==> (#[trigger] snap[j]).converged
}

/// The condition under which the engine runs: every peer is well formed,
/// every score lies in `[0, SCALE]`, and the trust declared toward any one
/// participant totals at most `SCALE` — so every blended score again lies in
/// `[0, SCALE]` and the fixed-point arithmetic cannot overflow.
pub open spec fn engine_wf(snap: Seq<PeerView>) -> bool {
    &&& forall|j: int| 0 <= j < snap.len() ==> (#[trigger] snap[j]).wf()
    &&& forall|j: int| 0 <= j < snap.len() ==> (#[trigger] snap[j]).score <= SCALE
    &&& forall|j: int|
        0 <= j < snap.len() ==> in_mass(snap, (#[trigger] snap[j]).index, snap.len() as int)
            <= SCALE as int
}

/// The opinion mass toward `i` is bounded by `SCALE` times the declared
/// trust mass toward `i`, once every score lies in `[0, SCALE]`.
proof fn lemma_raw_le_in_mass(snap: Seq<PeerView>, i: u64, k: int)
    requires
        k <= snap.len(),
        forall|j: int| 0 <= j < snap.len() ==> (#[trigger] snap[j]).score <= SCALE,
    ensures
        0 <= in_mass(snap, i, k),
        raw_sum(snap, i, k) <= SCALE * in_mass(snap, i, k),
    decreases k,
{
    if k > 0 {
        lemma_raw_le_in_mass(snap, i, k - 1);
        let q = snap[k - 1];
        if q.index != i {
            assert(opinion(q, i) == edge_weight(q.edges, i) * q.score);
            assert(edge_weight(q.edges, i) * q.score <= SCALE * edge_weight(q.edges, i))
                by (nonlinear_arith)
                requires
                    q.score <= SCALE,
            ;
            assert(SCALE * in_mass(snap, i, k - 1) + SCALE * (edge_weight(q.edges, i) as int)
                == SCALE * in_mass(snap, i, k)) by (nonlinear_arith)
                requires
                    in_mass(snap, i, k) == in_mass(snap, i, k - 1) + edge_weight(q.edges, i) as int,
            ;
        }
    }
}

/// The declared trust mass depends only on the peers' indices and edges, not
/// on their scores or latches — so it is invariant across rounds.
proof fn lemma_in_mass_congruent(s1: Seq<PeerView>, s2: Seq<PeerView>, i: u64, k: int)
    requires
        s1.len() == s2.len(),
        k <= s1.len(),
        forall|j: int|
            0 <= j < s1.len() ==> (#[trigger] s1[j]).index == s2[j].index && s1[j].edges
                == s2[j].edges,
    ensures
        in_mass(s1, i, k) == in_mass(s2, i, k),
    decreases k,
{
    if k > 0 {
        lemma_in_mass_congruent(s1, s2, i, k - 1);
    }
}

/// One update step keeps the engine condition: indices, edges and pre-trust
/// scores are untouched, and every fresh score again lies in `[0, SCALE]`.
proof fn lemma_step_round_wf(snap: Seq<PeerView>, delta: u64, pre_trust_weight: u64)
    requires
        pre_trust_weight <= SCALE,
        engine_wf(snap),
    ensures
        engine_wf(step_round(snap, delta, pre_trust_weight)),
{
    let stepped = step_round(snap, delta, pre_trust_weight);
    assert forall|j: int| 0 <= j < stepped.len() implies (#[trigger] stepped[j]).wf()
        && stepped[j].score <= SCALE by {
        lemma_next_score_bounded(snap, snap[j], pre_trust_weight);
    }
    assert forall|j: int|
        0 <= j < stepped.len() implies in_mass(
        stepped,
        (#[trigger] stepped[j]).index,
        stepped.len() as int,
    ) <= SCALE as int by {
        lemma_in_mass_congruent(stepped, snap, stepped[j].index, snap.len() as int);
        assert(stepped[j].index == snap[j].index);
    }
}

/// Under the engine condition, the blended score of any well-formed peer
/// lies in `[0, SCALE]`.
proof fn lemma_next_score_bounded(snap: Seq<PeerView>, p: PeerView, pre_trust_weight: u64)
    requires
        pre_trust_weight <= SCALE,
        p.wf(),
        forall|j: int| 0 <= j < snap.len() ==> (#[trigger] snap[j]).score <= SCALE,
        in_mass(snap, p.index, snap.len() as int) <= SCALE as int,
    ensures
        raw_sum(snap, p.index, snap.len() as int) <= (SCALE * SCALE) as int,
        0 <= next_score(p, snap, pre_trust_weight) <= SCALE as int,
{
    let n = snap.len() as int;
    lemma_raw_le_in_mass(snap, p.index, n);
    assert(SCALE * in_mass(snap, p.index, n) <= SCALE * (SCALE as int)) by (nonlinear_arith)
        requires
            in_mass(snap, p.index, n) <= SCALE as int,
    ;
    crate::peer::lemma_raw_sum_monotone(snap, p.index, 0, n);
    let raw = raw_sum(snap, p.index, n) / (SCALE as int);
    assert(0 <= raw <= SCALE as int) by {
        vstd::arithmetic::div_mod::lemma_div_is_ordered(
            raw_sum(snap, p.index, n),
            (SCALE * SCALE) as int,
            SCALE as int,
        );
        assert((SCALE * SCALE) as int / (SCALE as int) == SCALE as int) by (nonlinear_arith);
        vstd::arithmetic::div_mod::lemma_div_pos_is_pos(raw_sum(snap, p.index, n), SCALE as int);
    }
    let a = pre_trust_weight as int;
    let pre = p.pre as int;
    let s = SCALE as int;
    assert(0 <= (s - a) * raw + a * pre <= s * s) by (nonlinear_arith)
        requires
            0 <= raw <= s,
            0 <= a <= s,
            0 <= pre <= s,
    ;
    let blended = (SCALE - pre_trust_weight) * raw + pre_trust_weight * p.pre;
    assert(blended == (s - a) * raw + a * pre);
    assert(0 <= blended / (SCALE as int) <= SCALE as int) by {
        vstd::arithmetic::div_mod::lemma_div_is_ordered(
            blended,
            (SCALE as int) * (SCALE as int),
            SCALE as int,
        );
        assert(((SCALE as int) * (SCALE as int)) / (SCALE as int) == SCALE as int)
            by (nonlinear_arith);
        vstd::arithmetic::div_mod::lemma_div_pos_is_pos(blended, SCALE as int);
    }
}

/// Report whether every peer of the collection has converged.
pub fn check_all_converged(peers: &Vec<Peer>) -> (r: bool)
    ensures
        r == all_converged(views(peers@)),
{
    let n = peers.len();
    let mut j: usize = 0;
    while j < n
        invariant
            n == peers@.len(),
            0 <= j <= n,
            forall|m: int| 0 <= m < j ==> (#[trigger] views(peers@)[m]).converged,
        decreases n - j,
    {
        if !peers[j].is_converged() {
            proof {
                assert(!views(peers@)[j as int].converged);
            }
            return false;
        }
        j += 1;
    }
    true
}

/// Run synchronized rounds until every peer has converged or `max_rounds`
/// rounds have been executed, and return the number of rounds executed.
/// Each round updates every peer against the one snapshot taken at the
/// round's start, so no update can read a score written in the same round.
/// The caller can tell convergence from a spent budget through
/// [`check_all_converged`].
pub fn run_rounds(peers: &mut Vec<Peer>, delta: u64, pre_trust_weight: u64, max_rounds: u64) -> (rounds: u64)
    requires
        pre_trust_weight <= SCALE,
        engine_wf(views(old(peers)@)),
    ensures
        rounds <= max_rounds,
        views(final(peers)@) == run_view(
            views(old(peers)@),
            delta,
            pre_trust_weight,
            rounds as nat,
        ),
        engine_wf(views(final(peers)@)),
        rounds < max_rounds ==> all_converged(views(final(peers)@)),
        forall|r: int|
            0 <= r < rounds ==> !all_converged(
                #[trigger] run_view(views(old(peers)@), delta, pre_trust_weight, r as nat),
            ),
{
    let ghost orig = views(old(peers)@);
    let mut rounds: u64 = 0;
    let mut done = check_all_converged(peers);
    while rounds < max_rounds && !done
        invariant
            orig == views(old(peers)@),
            pre_trust_weight <= SCALE,
            rounds <= max_rounds,
            views(peers@) == run_view(orig, delta, pre_trust_weight, rounds as nat),
            engine_wf(views(peers@)),
            done == all_converged(views(peers@)),
            forall|r: int|
                0 <= r < rounds ==> !all_converged(
                    #[trigger] run_view(orig, delta, pre_trust_weight, r as nat),
                ),
        decreases max_rounds - rounds,
    {
        let ghost cur = views(peers@);
        let n = peers.len();
        let mut next: Vec<Peer> = Vec::new();
        let mut j: usize = 0;
        while j < n
            invariant
                pre_trust_weight <= SCALE,
                cur == views(peers@),
                engine_wf(cur),
                n == peers@.len(),
                0 <= j <= n,
                next@.len() == j,
                forall|m: int|
                    0 <= m < j ==> views(next@)[m] == step_peer(
                        cur[m],
                        cur,
                        delta,
                        pre_trust_weight,
                    ),
            decreases n - j,
        {
            let mut p = peers[j].clone();
            proof {
                assert(p@ == cur[j as int]);
                lemma_next_score_bounded(cur, p@, pre_trust_weight);
            }
            p.heartbeat(peers.as_slice(), delta, pre_trust_weight);
            proof {
                assert(p@ == step_peer(cur[j as int], cur, delta, pre_trust_weight));
            }
            let ghost prev = next@;
            next.push(p);
            proof {
                assert forall|m: int|
                    0 <= m < j + 1 implies views(next@)[m] == step_peer(
                    cur[m],
                    cur,
                    delta,
                    pre_trust_weight,
                ) by {
                    assert(views(next@)[m] == next@[m]@);
                    if m < j {
                        assert(next@[m] == prev[m]);
                        assert(views(prev)[m] == prev[m]@);
                    }
                }
            }
            j += 1;
        }
        proof {
            assert(views(next@) =~= step_round(cur, delta, pre_trust_weight));
            lemma_step_round_wf(cur, delta, pre_trust_weight);
        }
        *peers = next;
        rounds = rounds + 1;
        done = check_all_converged(peers);
    }
    rounds
}

} // verus!
