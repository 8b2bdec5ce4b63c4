use lintal_linter::cst::CstTree;
use lintal_linter::diagnostics::Diagnostic;
use lintal_linter::rules::typecast_paren_pad::{TypecastParenPad, TypecastParenPadOption};

fn check_source_with_config(source: &str, rule: &TypecastParenPad) -> Vec<Diagnostic> {
    let tree = CstTree::parse(source).expect("parse");
    let mut diagnostics = vec![];
    for node in 0..tree.len() {
        diagnostics.extend(rule.check(&tree, node));
    }
    diagnostics
}

fn check_source(source: &str) -> Vec<Diagnostic> {
    check_source_with_config(source, &TypecastParenPad::default())
}

#[test]
fn typecast_paren_pad_test_nospace_with_space() {
    let diagnostics = check_source("class Foo { void m() { Object o = ( String ) x; } }");
    assert!(
        diagnostics.iter().any(|d| d.kind.body.contains("'(' is followed")),
        "Should detect space after lparen in cast"
    );
    assert!(
        diagnostics.iter().any(|d| d.kind.body.contains("')' is preceded")),
        "Should detect space before rparen in cast"
    );
}

#[test]
fn typecast_paren_pad_test_nospace_without_space() {
    let diagnostics = check_source("class Foo { void m() { Object o = (String) x; } }");
    let paren_violations: Vec<_> = diagnostics
        .iter()
        .filter(|d| d.kind.body.contains("'('") || d.kind.body.contains("')'"))
        .collect();
    assert!(paren_violations.is_empty(), "Should not flag parens without space");
}

#[test]
fn typecast_paren_pad_test_space_without_space() {
    let rule = TypecastParenPad { option: TypecastParenPadOption::Space };
    let diagnostics =
        check_source_with_config("class Foo { void m() { Object o = (String) x; } }", &rule);
    assert!(
        diagnostics.iter().any(|d| d.kind.body.contains("'(' is not followed")),
        "Should detect missing space after lparen"
    );
    assert!(
        diagnostics.iter().any(|d| d.kind.body.contains("')' is not preceded")),
        "Should detect missing space before rparen"
    );
}

#[test]
fn typecast_paren_pad_test_space_with_space() {
    let rule = TypecastParenPad { option: TypecastParenPadOption::Space };
    let diagnostics =
        check_source_with_config("class Foo { void m() { Object o = ( String ) x; } }", &rule);
    let paren_violations: Vec<_> = diagnostics
        .iter()
        .filter(|d| d.kind.body.contains("'('") || d.kind.body.contains("')'"))
        .collect();
    assert!(paren_violations.is_empty(), "Should not flag parens with space when option=space");
}

#[test]
fn test_multiple_casts() {
    let diagnostics =
        check_source("class Foo { void m() { Object o = (String)x; int i = ( int ) o; } }");
    assert_eq!(
        diagnostics.iter().filter(|d| d.kind.body.contains("'(' is followed")).count(),
        1,
        "Should detect one lparen with space"
    );
    assert_eq!(
        diagnostics.iter().filter(|d| d.kind.body.contains("')' is preceded")).count(),
        1,
        "Should detect one rparen with space"
    );
}

#[test]
fn typecast_paren_pad_test_all_diagnostics_have_fixes() {
    let diagnostics = check_source("class Foo { void m() { Object o = ( String ) x; } }");
    for d in &diagnostics {
        assert!(d.fix.is_some(), "Diagnostic should have fix: {}", d.kind.body);
    }
}

#[test]
fn test_does_not_affect_method_calls() {
    let diagnostics = check_source("class Foo { void m( int x ) {} }");
    assert!(diagnostics.is_empty(), "Should not check method definition parens");
}

#[test]
fn typecast_fix_deletes_exact_whitespace() {
    let source = "class Foo { void m() { Object o = ( String ) x; } }";
    let diagnostics = check_source(source);
    let lp = diagnostics
        .iter()
        .find(|d| d.kind.body == "'(' is followed by whitespace")
        .expect("diagnostic");
    let edit = &lp.fix.as_ref().unwrap().edits()[0];
    assert_eq!(edit.content(), None);
    assert_eq!(&source[edit.range.start.raw as usize..edit.range.end.raw as usize], " ");
}
