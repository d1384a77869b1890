use update_pattern_gen::optimizer::ChoiceSummary;
use update_pattern_gen::optimizer::Optimizer;
use update_pattern_gen::pattern::pattern_from_code;
use update_pattern_gen::pattern::ActivationPattern;

fn simple_choice(index1: usize, index2: usize, code: usize) -> ChoiceSummary {
    ChoiceSummary { index1, index2, pattern: pattern_from_code(code) }
}

#[test]
fn run_produces_one_record_per_frame() {
    let frame_count = 10usize;
    let mut opt = Optimizer::new(frame_count, 32, 7);
    while !opt.done() {
        let frame = opt.current_frame();
        assert!(frame < frame_count);
        opt.record_choice(simple_choice(frame % 32, 0, 15));
    }
    assert_eq!(opt.results.len(), frame_count);
    let mut frames: Vec<usize> = opt.results.iter().map(|r| r.frame).collect();
    frames.sort();
    let expected: Vec<usize> = (0..frame_count).collect();
    assert_eq!(frames, expected);
    for r in &opt.results {
        assert!(r.choice.pattern.lit_count() >= 1);
    }
}

#[test]
fn schedule_is_a_permutation_of_frames() {
    let frame_count = 50usize;
    let opt = Optimizer::new(frame_count, 32, 99);
    assert_eq!(opt.order.len(), frame_count);
    let mut order = opt.order.clone();
    order.sort();
    let expected: Vec<usize> = (0..frame_count).collect();
    assert_eq!(order, expected);
}

#[test]
fn schedule_is_shuffled_not_left_in_place() {
    let frame_count = 50usize;
    let opt = Optimizer::new(frame_count, 32, 12345);
    let identity: Vec<usize> = (0..frame_count).collect();
    assert_ne!(opt.order, identity);
}

#[test]
fn same_seed_gives_same_schedule_and_results() {
    let mut a = Optimizer::new(20, 32, 4242);
    let mut b = Optimizer::new(20, 32, 4242);
    assert_eq!(a.order, b.order);
    while !a.done() {
        let choice = simple_choice(a.current_frame() % 32, 3, 9);
        a.record_choice(choice);
        let choice_b = simple_choice(b.current_frame() % 32, 3, 9);
        b.record_choice(choice_b);
    }
    assert_eq!(a.results.len(), b.results.len());
    for i in 0..a.results.len() {
        assert_eq!(a.results[i].frame, b.results[i].frame);
        assert_eq!(a.results[i].choice, b.results[i].choice);
    }
}

#[test]
fn single_frame_accepts_at_most_four_points() {
    let mut opt = Optimizer::new(1, 64, 11);
    let full = ActivationPattern { p1a: true, p1b: true, p2a: true, p2b: true };
    opt.record_choice(ChoiceSummary { index1: 5, index2: 9, pattern: full });
    assert!(opt.done());
    assert!(opt.accepted <= 4);
    assert_eq!(opt.accepted, 4);
}

#[test]
fn single_frame_with_one_lit_slot_accepts_one_point() {
    let mut opt = Optimizer::new(1, 64, 11);
    opt.record_choice(simple_choice(0, 0, 2));
    assert!(opt.done());
    assert_eq!(opt.accepted, 1);
}

#[test]
fn unconstrained_bonus_counts_lit_groups() {
    // the first frame's score is the flat bonus per panel group with a lit
    // slot, whatever the winning pattern is
    let full = ActivationPattern { p1a: true, p1b: true, p2a: true, p2b: true };
    assert_eq!(full.unconstrained_bonus(), 2000);
    let one_side = ActivationPattern { p1a: true, p1b: false, p2a: false, p2b: false };
    assert_eq!(one_side.unconstrained_bonus(), 1000);
    let split = ActivationPattern { p1a: false, p1b: true, p2a: true, p2b: false };
    assert_eq!(split.unconstrained_bonus(), 2000);
    let second_panel_pair = ActivationPattern { p1a: false, p1b: false, p2a: true, p2b: true };
    assert_eq!(second_panel_pair.unconstrained_bonus(), 1000);
}

#[test]
fn accepted_counts_lit_slots_across_frames() {
    let mut opt = Optimizer::new(2, 32, 3);
    opt.record_choice(simple_choice(1, 2, 7));
    opt.record_choice(simple_choice(3, 4, 12));
    assert_eq!(opt.accepted, 3 + 2);
    assert_eq!(opt.frames_done(), 2);
}
