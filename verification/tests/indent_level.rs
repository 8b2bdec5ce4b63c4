use lintal_linter::indent_level::IndentLevel;

#[test]
fn test_single_level() {
    let level = IndentLevel::new(4);
    assert!(level.is_acceptable(4));
    assert!(!level.is_acceptable(0));
    assert!(!level.is_acceptable(8));
    assert!(!level.is_multi_level());
    assert_eq!(level.first_level(), 4);
    assert_eq!(level.to_string(), "4");
}

#[test]
fn test_with_offset() {
    let level = IndentLevel::new(4).with_offset(4);
    assert!(level.is_acceptable(8));
    assert!(!level.is_acceptable(4));
    assert_eq!(level.first_level(), 8);
}

#[test]
fn test_multi_level() {
    let level = IndentLevel::new(4).add_acceptable(&[8, 12]);
    assert!(level.is_acceptable(4));
    assert!(level.is_acceptable(8));
    assert!(level.is_acceptable(12));
    assert!(!level.is_acceptable(6));
    assert!(level.is_multi_level());
    assert_eq!(level.first_level(), 4);
    assert_eq!(level.last_level(), 12);
    assert_eq!(level.to_string(), "4, 8, 12");
}

#[test]
fn test_is_greater_than() {
    let level = IndentLevel::new(8);
    assert!(level.is_greater_than(4));
    assert!(level.is_greater_than(0));
    assert!(!level.is_greater_than(8));
    assert!(!level.is_greater_than(12));
}

#[test]
fn test_combine() {
    let level1 = IndentLevel::new(4);
    let level2 = IndentLevel::new(8);
    let combined = level1.combine(&level2);
    assert!(combined.is_acceptable(4));
    assert!(combined.is_acceptable(8));
    assert!(combined.is_multi_level());
}

#[test]
fn test_with_offsets() {
    let level = IndentLevel::new(4).with_offsets(&[0, 4]);
    assert!(level.is_acceptable(4));
    assert!(level.is_acceptable(8));
    assert!(level.is_multi_level());
}

#[test]
fn test_deduplication() {
    let level = IndentLevel::new(4).add_acceptable(&[4, 8, 4]);
    assert_eq!(level.levels().len(), 2);
    assert!(level.is_acceptable(4));
    assert!(level.is_acceptable(8));
}

#[test]
fn indent_level_offsets_compose() {
    let base = IndentLevel::new(2).add_acceptable(&[6]);
    let twice = base.with_offset(4).with_offset(-1);
    let once = base.with_offset(3);
    assert_eq!(twice.levels(), once.levels());
    assert_eq!(twice.levels(), &[5, 9]);
}

#[test]
fn indent_level_combine_is_symmetric() {
    let a = IndentLevel::new(8).add_acceptable(&[0, 4]);
    let b = IndentLevel::new(4).add_acceptable(&[12]);
    assert_eq!(a.combine(&b), b.combine(&a));
    assert_eq!(a.combine(&b).levels(), &[0, 4, 8, 12]);
    assert_eq!(a.add_acceptable(&[4, 8]), a);
}

#[test]
fn indent_level_combine_associative_and_idempotent() {
    let a = IndentLevel::new(8).add_acceptable(&[0]);
    let b = IndentLevel::new(4);
    let c = IndentLevel::new(12).add_acceptable(&[4]);
    assert_eq!(a.combine(&b).combine(&c), a.combine(&b.combine(&c)));
    assert_eq!(a.combine(&a), a);
    assert_eq!(a.add_acceptable(&[]), a);
}

#[test]
fn indent_level_single_offsets_and_extremes() {
    let l = IndentLevel::new(4).add_acceptable(&[8, 12]);
    assert_eq!(l.with_offsets(&[3]), l.with_offset(3));
    assert_eq!(l.first_level(), 4);
    assert_eq!(l.last_level(), 12);
    assert!(l.is_acceptable_with_force_strict(8, true));
    assert!(l.is_acceptable_with_force_strict(8, false));
    assert!(l.is_acceptable_with_force_strict(9, false));
    assert!(!l.is_acceptable_with_force_strict(9, true));
    assert_eq!(IndentLevel::new(4).with_offsets(&[]).first_level(), 0);
}
