use lintal_linter::rules::common::{has_whitespace_after, has_whitespace_before, whitespace_range_after, whitespace_range_before};
use lintal_linter::text::TextSize;

#[test]
fn test_has_whitespace_before() {
    assert!(has_whitespace_before("a b", TextSize::new(2)));
    assert!(!has_whitespace_before("ab", TextSize::new(1)));
    assert!(has_whitespace_before("a", TextSize::new(0)));
}

#[test]
fn test_has_whitespace_after() {
    assert!(has_whitespace_after("a b", TextSize::new(1)));
    assert!(!has_whitespace_after("ab", TextSize::new(1)));
}

#[test]
fn test_whitespace_range_before() {
    let range = whitespace_range_before("a  b", TextSize::new(3));
    assert!(range.is_some());
    let r = range.unwrap();
    assert_eq!(r.start(), TextSize::new(1));
    assert_eq!(r.end(), TextSize::new(3));
}

#[test]
fn test_whitespace_range_after() {
    let range = whitespace_range_after("a  b", TextSize::new(1));
    assert!(range.is_some());
    let r = range.unwrap();
    assert_eq!(r.start(), TextSize::new(1));
    assert_eq!(r.end(), TextSize::new(3));
}

#[test]
fn common_whitespace_edges() {
    assert!(!has_whitespace_after("ab", TextSize::new(2)));
    assert!(whitespace_range_before("ab", TextSize::new(1)).is_none());
    assert!(whitespace_range_after("ab", TextSize::new(1)).is_none());
    let r = whitespace_range_before("\t\u{a0}x", TextSize::new(3)).unwrap();
    assert_eq!((r.start(), r.end()), (TextSize::new(0), TextSize::new(3)));
}
