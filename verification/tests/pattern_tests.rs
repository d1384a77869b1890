use update_pattern_gen::pattern::all_patterns;
use update_pattern_gen::pattern::pattern_from_code;
use update_pattern_gen::pattern::ActivationPattern;

#[test]
fn all_patterns_has_fifteen_entries() {
    let pats = all_patterns();
    assert_eq!(pats.len(), 15);
}

#[test]
fn all_patterns_are_nonempty() {
    let pats = all_patterns();
    for p in &pats {
        assert!(p.lit_count() >= 1);
    }
}

#[test]
fn all_patterns_are_distinct() {
    let pats = all_patterns();
    for i in 0..pats.len() {
        for j in 0..pats.len() {
            if i != j {
                assert!(pats[i] != pats[j]);
            }
        }
    }
}

#[test]
fn all_patterns_cover_every_nonempty_pattern() {
    let pats = all_patterns();
    let mut seen = 0usize;
    for code in 1..16usize {
        let p = pattern_from_code(code);
        assert!(pats.contains(&p));
        seen += 1;
    }
    assert_eq!(seen, 15);
}

#[test]
fn pattern_from_code_decodes_bits() {
    let p = pattern_from_code(5);
    assert!(p.p1a);
    assert!(!p.p1b);
    assert!(p.p2a);
    assert!(!p.p2b);
}

#[test]
fn pattern_counts_split_by_panel() {
    let p = ActivationPattern { p1a: true, p1b: true, p2a: false, p2b: true };
    assert_eq!(p.group1_count(), 2);
    assert_eq!(p.group2_count(), 1);
    assert_eq!(p.lit_count(), 3);
}

#[test]
fn pattern_slot_order_is_p1a_p1b_p2a_p2b() {
    let p = ActivationPattern { p1a: true, p1b: false, p2a: false, p2b: true };
    assert!(p.slot(0));
    assert!(!p.slot(1));
    assert!(!p.slot(2));
    assert!(p.slot(3));
}

#[test]
fn full_pattern_lights_four_slots() {
    let p = pattern_from_code(15);
    assert_eq!(p.lit_count(), 4);
    assert_eq!(p.group1_count(), 2);
    assert_eq!(p.group2_count(), 2);
}
