use update_pattern_gen::ranker::Ranker;
use update_pattern_gen::ranker::RankerPhase;

fn rank_values(r: &Ranker) -> Vec<f32> {
    let total = r.total as f32;
    r.ranks.iter().map(|o| o.unwrap() as f32 / total).collect()
}

/// Drives the whole run, always extracting the first element of each list, as
/// a stand-in for the energy argmax.
fn drive_to_done(r: &mut Ranker, balance_rounds: usize) {
    for _ in 0..balance_rounds {
        if r.selected.is_empty() {
            break;
        }
        let c = r.selected[0];
        if r.balance_begin(c) {
            break;
        }
        let v = r.unused[0];
        if r.balance_complete(v) {
            break;
        }
    }
    r.start_ranking();
    while !r.work.is_empty() {
        let c = r.work[0];
        r.rank_selected_step(c);
    }
    r.finish_ranking();
    while !r.unused.is_empty() {
        let v = r.unused[0];
        r.fill_step(v);
    }
    r.finish();
}

#[test]
fn seeding_splits_a_permutation() {
    let r = Ranker::new(50, 5, 31);
    assert_eq!(r.selected.len(), 5);
    assert_eq!(r.unused.len(), 45);
    let mut all: Vec<usize> = r.selected.clone();
    all.extend(&r.unused);
    all.sort();
    let expected: Vec<usize> = (0..50).collect();
    assert_eq!(all, expected);
}

#[test]
fn seeding_is_deterministic_per_seed() {
    let a = Ranker::new(40, 4, 77);
    let b = Ranker::new(40, 4, 77);
    assert_eq!(a.selected, b.selected);
    assert_eq!(a.unused, b.unused);
}

#[test]
fn seeding_actually_shuffles() {
    let r = Ranker::new(60, 6, 424242);
    let mut all: Vec<usize> = r.selected.clone();
    all.extend(&r.unused);
    let identity: Vec<usize> = (0..60).collect();
    assert_ne!(all, identity);
}

#[test]
fn every_index_gets_exactly_one_rank() {
    let mut r = Ranker::new(12, 3, 5);
    drive_to_done(&mut r, 4);
    assert!(matches!(r.phase, RankerPhase::Done));
    let mut nums: Vec<usize> = r.ranks.iter().map(|o| o.unwrap()).collect();
    assert_eq!(nums.len(), 12);
    nums.sort();
    let expected: Vec<usize> = (0..12).collect();
    assert_eq!(nums, expected);
}

#[test]
fn rank_values_lie_in_unit_interval() {
    let mut r = Ranker::new(30, 3, 8);
    drive_to_done(&mut r, 10);
    for v in rank_values(&r) {
        assert!(0.0 <= v && v < 1.0);
    }
}

#[test]
fn sample_members_get_the_low_ranks() {
    let mut r = Ranker::new(12, 3, 5);
    for _ in 0..4 {
        let c = r.selected[0];
        if r.balance_begin(c) {
            break;
        }
        let v = r.unused[0];
        if r.balance_complete(v) {
            break;
        }
    }
    let sample_members = r.selected.clone();
    r.start_ranking();
    while !r.work.is_empty() {
        let c = r.work[0];
        r.rank_selected_step(c);
    }
    r.finish_ranking();
    while !r.unused.is_empty() {
        let v = r.unused[0];
        r.fill_step(v);
    }
    r.finish();
    for i in 0..r.ranks.len() {
        let num = r.ranks[i].unwrap();
        if sample_members.contains(&i) {
            assert!(num < 3);
        } else {
            assert!(num >= 3);
        }
    }
}

#[test]
fn two_points_fixed_point_after_swap_undoes_itself() {
    let mut r = Ranker::new(2, 1, 9);
    let a = r.selected[0];
    let b = r.unused[0];
    assert!(!r.balance_begin(a));
    // both points now sit in "unused"; the energies pick the round's own
    // point back, which closes the balancing with no effective swap
    assert!(r.balance_complete(a));
    r.start_ranking();
    r.rank_selected_step(a);
    r.finish_ranking();
    r.fill_step(b);
    r.finish();
    let vals = rank_values(&r);
    assert_eq!(vals[a], 0.0);
    assert_eq!(vals[b], 0.5);
}

#[test]
fn two_points_fixed_point_after_at_most_one_swap() {
    let mut r = Ranker::new(2, 1, 9);
    let a = r.selected[0];
    let b = r.unused[0];
    assert!(!r.balance_begin(a));
    // the energies pick the other point: one full swap happens
    assert!(!r.balance_complete(b));
    // the next round must close at once: the only selected point is the one
    // the last round swapped in
    let c2 = r.selected[0];
    assert_eq!(c2, b);
    assert!(r.balance_begin(c2));
    r.start_ranking();
    r.rank_selected_step(b);
    r.finish_ranking();
    r.fill_step(a);
    r.finish();
    let vals = rank_values(&r);
    assert_eq!(vals[b], 0.0);
    assert_eq!(vals[a], 0.5);
}

#[test]
fn empty_input_yields_empty_rank_array() {
    let mut r = Ranker::new(0, 0, 1);
    r.start_ranking();
    r.finish_ranking();
    r.finish();
    assert_eq!(r.ranks.len(), 0);
}

#[test]
fn partitions_stay_disjoint_while_balancing() {
    let mut r = Ranker::new(20, 2, 13);
    for _ in 0..3 {
        let c = r.selected[0];
        if r.balance_begin(c) {
            break;
        }
        assert!(!r.selected.contains(&c));
        assert!(r.unused.contains(&c));
        let v = r.unused[0];
        let done = r.balance_complete(v);
        assert!(r.selected.contains(&v));
        assert!(!r.unused.contains(&v));
        assert_eq!(r.selected.len() + r.unused.len(), 20);
        if done {
            break;
        }
    }
}
