use lintal_linter::config::Properties;
use lintal_linter::cst::CstTree;
use lintal_linter::diagnostics::Diagnostic;
use lintal_linter::rules::single_space_separator::{is_block_comment_end, is_first_in_line, SingleSpaceSeparator};

fn check_with(source: &str, rule: &SingleSpaceSeparator) -> Vec<Diagnostic> {
    let tree = CstTree::parse(source).expect("parse");
    let mut diagnostics = vec![];
    for node in 0..tree.len() {
        diagnostics.extend(rule.check(&tree, node));
    }
    diagnostics
}

#[test]
fn test_is_first_in_line() {
    let chars: Vec<char> = "    foo".chars().collect();
    assert!(is_first_in_line(&chars, 4)); // All spaces before index 4
    assert!(!is_first_in_line(&chars, 5)); // 'f' is at index 4
}

#[test]
fn test_is_block_comment_end() {
    let chars: Vec<char> = "foo */  bar".chars().collect();
    assert!(is_block_comment_end(&chars, 8)); // After "*/"

    let chars2: Vec<char> = "foo  bar".chars().collect();
    assert!(!is_block_comment_end(&chars2, 5)); // No "*/"
}

#[test]
fn single_space_reports_second_space() {
    let source = "class Foo {\n    int  x = 1;\n}\n";
    let diagnostics = check_with(source, &SingleSpaceSeparator::default());
    // The declarator and its name start at the same token: both report it.
    assert!(!diagnostics.is_empty());
    assert!(diagnostics.iter().all(|d| d.range == diagnostics[0].range));
    let d = &diagnostics[0];
    assert_eq!(d.kind.body, "'Use a single space to separate non-whitespace characters");
    // "class Foo {\n" is 12 bytes; "    int" ends at column 7; the second space is column 8.
    assert_eq!(d.range.start.raw, 12 + 8);
    assert_eq!(d.range.end.raw, 12 + 9);
    let e = &d.fix.as_ref().unwrap().edits()[0];
    assert_eq!(e.content(), Some(" "));
    assert_eq!(&source[e.range.start.raw as usize..e.range.end.raw as usize], "  ");
}

#[test]
fn single_space_indentation_and_comments() {
    let rule = SingleSpaceSeparator::default();
    assert!(check_with("class Foo {\n        int x = 1;\n}\n", &rule).is_empty());
    assert!(check_with("class Foo {\n    int  x = 1; // note\n}\n", &rule).is_empty());
    let mut p = Properties::new();
    p.insert("validateComments", "true");
    let v = SingleSpaceSeparator::from_config(&p);
    assert!(v.validate_comments);
    assert!(!check_with("class Foo {\n    int  x = 1; // note\n}\n", &v).is_empty());
}
