use eigen_trust::SCALE;
use eigen_trust::engine::{check_all_converged, run_rounds};
use eigen_trust::peer::Peer;

#[test]
fn test_peer_new() {
    let mut peer = Peer::new(0, 0, 400_000_000);
    peer.add_neighbor(1, 500_000_000);
    assert_eq!(peer.get_index(), 0);
    assert_eq!(peer.get_pre_trust_score(), 400_000_000);
    assert_eq!(peer.get_global_trust_score(), 0);
    assert_eq!(peer.get_local_trust_score(&1), 500_000_000);
}

#[test]
fn test_local_trust_score_defaults_to_zero() {
    let peer = Peer::new(7, 0, 0);
    assert_eq!(peer.get_local_trust_score(&3), 0);
}

#[test]
fn test_add_neighbor_overwrites() {
    let mut peer = Peer::new(0, 0, 0);
    peer.add_neighbor(1, 250_000_000);
    peer.add_neighbor(2, 750_000_000);
    peer.add_neighbor(1, 100_000_000);
    assert_eq!(peer.get_local_trust_score(&1), 100_000_000);
    assert_eq!(peer.get_local_trust_score(&2), 750_000_000);
}

#[test]
fn test_converged_peer_never_changes() {
    // Converge peer 0 first: an empty snapshot and a huge delta latch it.
    let mut peer = Peer::new(0, 0, 500_000_000);
    let empty: Vec<Peer> = Vec::new();
    peer.heartbeat(&empty, u64::MAX, 400_000_000);
    assert!(peer.is_converged());
    let settled = peer.get_global_trust_score();

    // Further updates, even against a snapshot full of opinions, are no-ops.
    let mut other = Peer::new(1, SCALE, 0);
    other.add_neighbor(0, SCALE);
    let snapshot = vec![other];
    peer.heartbeat(&snapshot, 0, 400_000_000);
    assert!(peer.is_converged());
    assert_eq!(peer.get_global_trust_score(), settled);
}

#[test]
fn test_own_opinion_of_self_is_excluded() {
    // Peer 0 fully trusts itself; that opinion must contribute nothing.
    let mut peer = Peer::new(0, 0, 500_000_000);
    peer.add_neighbor(0, SCALE);
    let snapshot = vec![peer.clone()];
    peer.heartbeat(&snapshot, 0, 400_000_000);
    // raw is zero, so the new score is exactly ptw * pre / SCALE = 0.2.
    assert_eq!(peer.get_global_trust_score(), 200_000_000);
}

#[test]
fn test_isolated_network_converges_in_one_round() {
    // No peer has neighbours: every score becomes ptw * pre / SCALE in one
    // round. Starting from that value, the first round moves nobody and
    // everyone latches at once.
    let expected = 400_000_000u64 * 500_000_000 / SCALE;
    let mut peers = vec![
        Peer::new(0, expected, 500_000_000),
        Peer::new(1, expected, 500_000_000),
        Peer::new(2, expected, 500_000_000),
    ];
    let rounds = run_rounds(&mut peers, 1_000, 400_000_000, 50);
    assert_eq!(rounds, 1);
    assert!(check_all_converged(&peers));
    for p in peers.iter() {
        assert_eq!(p.get_global_trust_score(), expected);
    }

    // From arbitrary initial scores the value is reached after one round
    // and the latch follows on the round after.
    let mut peers = vec![Peer::new(0, 0, 500_000_000), Peer::new(1, SCALE, 500_000_000)];
    let rounds = run_rounds(&mut peers, 1_000, 400_000_000, 50);
    assert_eq!(rounds, 2);
    assert!(check_all_converged(&peers));
    for p in peers.iter() {
        assert_eq!(p.get_global_trust_score(), expected);
    }
}

#[test]
fn test_symmetric_pair_converges_to_half() {
    // Two peers fully trusting each other, both pre-trust 0.5, blend 0.4,
    // initial scores 0: repeated rounds take both toward 0.5, and the
    // latch fires once a round moves a score by no more than delta = 1e-6.
    // Each round shrinks the distance to 0.5 by the factor 0.6, so at the
    // round that latches the remaining distance is at most 1.5 * delta.
    let mut peer0 = Peer::new(0, 0, 500_000_000);
    let mut peer1 = Peer::new(1, 0, 500_000_000);
    peer0.add_neighbor(1, SCALE);
    peer1.add_neighbor(0, SCALE);
    let mut peers = vec![peer0, peer1];
    let delta = 1_000; // 1e-6 in SCALE units
    let rounds = run_rounds(&mut peers, delta, 400_000_000, 1_000);
    assert!(rounds < 1_000);
    assert!(check_all_converged(&peers));
    for p in peers.iter() {
        let score = p.get_global_trust_score();
        let target = 500_000_000u64;
        let diff = if score > target { score - target } else { target - score };
        assert!(diff <= 3 * delta / 2, "score {} not near {}", score, target);
    }
}

#[test]
fn test_round_budget_exhaustion_is_reported() {
    // With a zero tolerance the pair needs many rounds; a budget of three
    // rounds runs out first and is reported as non-convergence.
    let mut peer0 = Peer::new(0, 0, 500_000_000);
    let mut peer1 = Peer::new(1, 0, 500_000_000);
    peer0.add_neighbor(1, SCALE);
    peer1.add_neighbor(0, SCALE);
    let mut peers = vec![peer0, peer1];
    let rounds = run_rounds(&mut peers, 0, 400_000_000, 3);
    assert_eq!(rounds, 3);
    assert!(!check_all_converged(&peers));
}

#[test]
fn test_first_round_blend_is_exact() {
    // One peer trusting another with weight 0.5: the first update of peer 1
    // reads peer 0's snapshot score 0.8, so raw = 0.4 and the blended score
    // is 0.6 * 0.4 + 0.4 * 0.1 = 0.28.
    let mut peer0 = Peer::new(0, 800_000_000, 100_000_000);
    peer0.add_neighbor(1, 500_000_000);
    let mut peer1 = Peer::new(1, 0, 100_000_000);
    let snapshot = vec![peer0.clone()];
    peer1.heartbeat(&snapshot, 1_000, 400_000_000);
    assert_eq!(peer1.get_global_trust_score(), 280_000_000);
    assert!(!peer1.is_converged());
}
