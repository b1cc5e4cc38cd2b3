use mp3_player::Note;

#[test]
fn delta_measures_distance_to_note() {
    let n = Note::new(1000, 2);
    assert_eq!(n.delta(1500), 500);
    assert_eq!(n.delta(1000), 0);
    assert_eq!(n.delta(400), -600);
}

#[test]
fn delta_truncates_large_times() {
    let n = Note::new(0, 0);
    assert_eq!(n.delta(5), 5);
    // The time is truncated to 32 bits before the subtraction.
    assert_eq!(n.delta(0x1_0000_0000u128 + 7), 7);
}
