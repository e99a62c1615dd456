use rollcron::source::change_range;

#[test]
fn unchanged_head_brings_nothing() {
    assert_eq!(change_range(&"abc".to_string(), &"abc".to_string()), None);
}

#[test]
fn moved_head_gives_range() {
    assert_eq!(change_range(&"abc".to_string(), &"def".to_string()), Some("abc..def".to_string()));
}
