use lintal_linter::config::Properties;
use lintal_linter::cst::CstTree;
use lintal_linter::diagnostics::Diagnostic;
use lintal_linter::rules::no_whitespace_before::{NoWhitespaceBefore, NoWhitespaceBeforeToken};

fn check_source(source: &str) -> Vec<Diagnostic> {
    check_source_with_config(source, &NoWhitespaceBefore::default())
}

fn check_source_with_config(source: &str, rule: &NoWhitespaceBefore) -> Vec<Diagnostic> {
    let tree = CstTree::parse(source).expect("parse");
    let mut diagnostics = vec![];
    for node in 0..tree.len() {
        diagnostics.extend(rule.check(&tree, node));
    }
    diagnostics
}

#[test]
fn no_whitespace_before_test_comma_with_space() {
    let diagnostics = check_source("class Foo { void m(int a , int b) {} }");
    assert!(
        diagnostics
            .iter()
            .any(|d| d.kind.body.contains(",") && d.kind.body.contains("preceded")),
        "Should detect comma with space before: {:?}",
        diagnostics
    );
}

#[test]
fn no_whitespace_before_test_comma_without_space() {
    let diagnostics = check_source("class Foo { void m(int a, int b) {} }");
    let comma_violations: Vec<_> = diagnostics
        .iter()
        .filter(|d| d.kind.body.contains(","))
        .collect();
    assert!(
        comma_violations.is_empty(),
        "Should not flag comma without space before"
    );
}

#[test]
fn test_semicolon_with_space() {
    let diagnostics = check_source("class Foo { void m() { int x = 1 ; } }");
    assert!(
        diagnostics
            .iter()
            .any(|d| d.kind.body.contains(";") && d.kind.body.contains("preceded")),
        "Should detect semicolon with space before: {:?}",
        diagnostics
    );
}

#[test]
fn test_semicolon_without_space() {
    let diagnostics = check_source("class Foo { void m() { int x = 1; } }");
    let semi_violations: Vec<_> = diagnostics
        .iter()
        .filter(|d| d.kind.body.contains(";"))
        .collect();
    assert!(
        semi_violations.is_empty(),
        "Should not flag semicolon without space before"
    );
}

#[test]
fn test_post_increment_with_space() {
    let diagnostics = check_source("class Foo { void m() { int i = 0; i ++; } }");
    assert!(
        diagnostics
            .iter()
            .any(|d| d.kind.body.contains("++") && d.kind.body.contains("preceded")),
        "Should detect post-increment with space before: {:?}",
        diagnostics
    );
}

#[test]
fn test_post_increment_without_space() {
    let diagnostics = check_source("class Foo { void m() { int i = 0; i++; } }");
    let inc_violations: Vec<_> = diagnostics
        .iter()
        .filter(|d| d.kind.body.contains("++"))
        .collect();
    assert!(
        inc_violations.is_empty(),
        "Should not flag post-increment without space before"
    );
}

#[test]
fn test_pre_increment_not_flagged() {
    let diagnostics = check_source("class Foo { void m() { int i = 0; ++i; } }");
    let inc_violations: Vec<_> = diagnostics
        .iter()
        .filter(|d| d.kind.body.contains("++"))
        .collect();
    assert!(inc_violations.is_empty(), "Should not flag pre-increment");
}

#[test]
fn test_empty_for_loop() {
    let mut config = NoWhitespaceBefore::default();
    config.tokens.clear();
    config.tokens.push(NoWhitespaceBeforeToken::Semi);
    config.allow_line_breaks = true;

    let diagnostics =
        check_source_with_config("class Foo { void m() { for (; ; ) {} } }", &config);
    let semi_violations: Vec<_> = diagnostics
        .iter()
        .filter(|d| d.kind.body.contains(";"))
        .collect();
    assert!(
        semi_violations.is_empty(),
        "Should not flag semicolons in empty for loop: {:?}",
        semi_violations
    );
}

#[test]
fn no_whitespace_before_test_all_diagnostics_have_fixes() {
    let diagnostics = check_source("class Foo { void m(int a , int b) { int x = 1 ; } }");
    for d in &diagnostics {
        assert!(
            d.fix.is_some(),
            "Diagnostic should have fix: {}",
            d.kind.body
        );
    }
}

#[test]
fn no_whitespace_before_config_and_generics() {
    let mut p = Properties::new();
    p.insert("tokens", "GENERIC_START, GENERIC_END, DOT");
    p.insert("allowLineBreaks", "true");
    let rule = NoWhitespaceBefore::from_config(&p);
    assert!(rule.allow_line_breaks);
    assert_eq!(rule.tokens.len(), 3);
    let diagnostics = check_source_with_config("class Foo { java.util.List <String > x; boolean b = 1 < 2; }", &rule);
    assert_eq!(diagnostics.len(), 2);
    let mut q = Properties::new();
    q.insert("tokens", "");
    q.insert("allowLineBreaks", "yes");
    let rule = NoWhitespaceBefore::from_config(&q);
    assert!(!rule.allow_line_breaks);
    assert_eq!(rule.tokens.len(), 6);
}

#[test]
fn no_whitespace_before_deletes_run() {
    let source = "class Foo { void m() { int x = 1 \t ; } }";
    let diagnostics = check_source(source);
    assert_eq!(diagnostics.len(), 1);
    let e = &diagnostics[0].fix.as_ref().unwrap().edits()[0];
    assert_eq!(&source[e.range.start.raw as usize..e.range.end.raw as usize], " \t ");
}
