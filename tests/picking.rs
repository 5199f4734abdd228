use alpha::picking::pick_topmost;

#[test]
fn the_later_of_two_overlapping_entities_is_picked() {
    assert_eq!(pick_topmost(&vec![true, true], None), Some(1));
}

#[test]
fn the_last_hit_wins_over_earlier_hits() {
    assert_eq!(pick_topmost(&vec![false, true, false, true, false], Some(0)), Some(3));
}

#[test]
fn a_miss_keeps_the_selection() {
    assert_eq!(pick_topmost(&vec![false, false, false], Some(2)), Some(2));
    assert_eq!(pick_topmost(&vec![false, false], None), None);
    assert_eq!(pick_topmost(&Vec::new(), Some(5)), Some(5));
}
