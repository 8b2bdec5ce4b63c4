use lintal_linter::config::Properties;
use lintal_linter::cst::CstTree;
use lintal_linter::diagnostics::Diagnostic;
use lintal_linter::rules::empty_for_initializer_pad::{EmptyForInitializerPad, PadOption};

fn check_source(source: &str) -> Vec<Diagnostic> {
    check_source_with_config(source, &EmptyForInitializerPad::default())
}

fn check_source_with_config(source: &str, rule: &EmptyForInitializerPad) -> Vec<Diagnostic> {
    let tree = CstTree::parse(source).expect("parse");
    let mut diagnostics = vec![];
    for node in 0..tree.len() {
        diagnostics.extend(rule.check(&tree, node));
    }
    diagnostics
}

#[test]
fn test_empty_initializer_with_space_nospace_option() {
    // Default is nospace, so space before semicolon is a violation
    let diagnostics =
        check_source("class Foo { void m() { int i = 0; for ( ; i < 1; i++) {} } }");
    assert!(
        diagnostics
            .iter()
            .any(|d| d.kind.body.contains(";") && d.kind.body.contains("preceded")),
        "Should detect space before semicolon with nospace option: {:?}",
        diagnostics
    );
}

#[test]
fn test_empty_initializer_no_space_nospace_option() {
    // Default is nospace, no space before semicolon is OK
    let diagnostics =
        check_source("class Foo { void m() { int i = 0; for (; i < 1; i++) {} } }");
    let semi_violations: Vec<_> = diagnostics
        .iter()
        .filter(|d| d.kind.body.contains(";"))
        .collect();
    assert!(
        semi_violations.is_empty(),
        "Should not flag no space with nospace option"
    );
}

#[test]
fn test_empty_initializer_no_space_space_option() {
    // Space option, no space before semicolon is a violation
    let rule = EmptyForInitializerPad {
        option: PadOption::Space,
    };
    let diagnostics = check_source_with_config(
        "class Foo { void m() { int i = 0; for (; i < 1; i++) {} } }",
        &rule,
    );
    assert!(
        diagnostics
            .iter()
            .any(|d| d.kind.body.contains(";") && d.kind.body.contains("not preceded")),
        "Should detect no space before semicolon with space option: {:?}",
        diagnostics
    );
}

#[test]
fn test_empty_initializer_with_space_space_option() {
    // Space option, space before semicolon is OK
    let rule = EmptyForInitializerPad {
        option: PadOption::Space,
    };
    let diagnostics = check_source_with_config(
        "class Foo { void m() { int i = 0; for ( ; i < 1; i++) {} } }",
        &rule,
    );
    let semi_violations: Vec<_> = diagnostics
        .iter()
        .filter(|d| d.kind.body.contains(";"))
        .collect();
    assert!(
        semi_violations.is_empty(),
        "Should not flag space with space option"
    );
}

#[test]
fn test_non_empty_initializer_not_checked() {
    // For loops with non-empty initializers should not be checked
    let diagnostics = check_source("class Foo { void m() { for (int i = 0; i < 1; i++) {} } }");
    let semi_violations: Vec<_> = diagnostics
        .iter()
        .filter(|d| d.kind.body.contains(";"))
        .collect();
    assert!(
        semi_violations.is_empty(),
        "Should not check for loops with non-empty initializer"
    );
}

#[test]
fn test_line_wrap_not_checked() {
    // Line wraps before semicolon should not be checked
    let diagnostics = check_source("class Foo { void m() { for (\n; ; ) {} } }");
    let semi_violations: Vec<_> = diagnostics
        .iter()
        .filter(|d| d.kind.body.contains(";"))
        .collect();
    assert!(
        semi_violations.is_empty(),
        "Should not check when semicolon is on new line"
    );
}

#[test]
fn empty_for_initializer_pad_test_all_diagnostics_have_fixes() {
    let diagnostics =
        check_source("class Foo { void m() { int i = 0; for ( ; i < 1; i++) {} } }");
    for d in &diagnostics {
        assert!(
            d.fix.is_some(),
            "Diagnostic should have fix: {}",
            d.kind.body
        );
    }
}

#[test]
fn pad_option_parses_any_case() {
    assert_eq!(PadOption::from_str(" space "), Some(PadOption::Space));
    assert_eq!(PadOption::from_str("NoSpace"), Some(PadOption::NoSpace));
    assert_eq!(PadOption::from_str("wide"), None);
    let mut p = Properties::new();
    p.insert("option", "Space");
    assert_eq!(EmptyForInitializerPad::from_config(&p).option, PadOption::Space);
    p.insert("option", "bogus");
    assert_eq!(EmptyForInitializerPad::from_config(&p).option, PadOption::NoSpace);
}

#[test]
fn empty_for_initializer_fix_ranges() {
    let source = "class Foo { void m() { int i = 0; for (  ; i < 1; i++) {} } }";
    let diagnostics = check_source(source);
    assert_eq!(diagnostics.len(), 1);
    assert_eq!(diagnostics[0].kind.body, "';' is preceded by whitespace");
    let e = &diagnostics[0].fix.as_ref().unwrap().edits()[0];
    assert_eq!(&source[e.range.start.raw as usize..e.range.end.raw as usize], "  ");
}
