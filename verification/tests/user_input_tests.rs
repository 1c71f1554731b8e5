use imsearch::user_input::answer_is_yes;

#[test]
fn test_answer_is_yes() {
    assert!(answer_is_yes("yes"));
    assert!(answer_is_yes("Yes"));
    assert!(answer_is_yes("YES"));
    assert!(answer_is_yes("yEs"));
    assert!(answer_is_yes("  yes\n"));
    assert!(answer_is_yes("oh yes, please"));
    assert!(answer_is_yes("eyes"));
    assert!(answer_is_yes("yyes"));
    assert!(answer_is_yes("yeyes"));
    assert!(answer_is_yes("äöü yes"));
}

#[test]
fn test_answer_is_not_yes() {
    assert!(!answer_is_yes(""));
    assert!(!answer_is_yes("no"));
    assert!(!answer_is_yes("y"));
    assert!(!answer_is_yes("ye"));
    assert!(!answer_is_yes("y e s"));
    assert!(!answer_is_yes("yse"));
    assert!(!answer_is_yes("ja"));
    assert!(!answer_is_yes("yeah"));
    assert!(!answer_is_yes("ye\ns"));
}
