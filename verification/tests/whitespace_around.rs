use lintal_linter::config::Properties;
use lintal_linter::cst::CstTree;
use lintal_linter::diagnostics::Diagnostic;
use lintal_linter::rules::whitespace_around::WhitespaceAround;

fn check_source_with(source: &str, rule: &WhitespaceAround) -> Vec<Diagnostic> {
    let tree = CstTree::parse(source).expect("parse");
    let mut diagnostics = vec![];
    for node in 0..tree.len() {
        diagnostics.extend(rule.check(&tree, node));
    }
    diagnostics
}

fn check_source(source: &str) -> Vec<Diagnostic> {
    check_source_with(source, &WhitespaceAround::default())
}

#[test]
fn test_binary_operator() {
    let diagnostics = check_source("class Foo { int x = 1+2; }");
    assert!(diagnostics.len() >= 2); // Missing before and after +
}

#[test]
fn test_assignment_operator() {
    let diagnostics = check_source("class Foo { void m() { int x; x=1; } }");
    assert!(diagnostics.len() >= 2); // Missing before and after =
}

#[test]
fn test_if_keyword() {
    let diagnostics = check_source("class Foo { void m() { if(true) {} } }");
    assert!(diagnostics.iter().any(|d| d.kind.body.contains("if")));
}

#[test]
fn test_synchronized_keyword() {
    let diagnostics = check_source("class Foo { void m() { synchronized(this) {} } }");
    assert!(
        diagnostics
            .iter()
            .any(|d| d.kind.body.contains("synchronized"))
    );
}

#[test]
fn test_try_catch() {
    let diagnostics = check_source("class Foo { void m() { try{ } catch(Exception e){ } } }");
    assert!(diagnostics.iter().any(|d| d.kind.body.contains("try")));
    assert!(diagnostics.iter().any(|d| d.kind.body.contains("catch")));
}

#[test]
fn test_ternary_operator() {
    let diagnostics = check_source("class Foo { int x = true?1:2; }");
    assert!(diagnostics.iter().any(|d| d.kind.body.contains("?")));
    assert!(diagnostics.iter().any(|d| d.kind.body.contains(":")));
}

#[test]
fn test_return_with_value() {
    let diagnostics = check_source("class Foo { int m() { return(1); } }");
    assert!(diagnostics.iter().any(|d| d.kind.body.contains("return")));
}

#[test]
fn test_return_without_value() {
    // return; should not trigger a violation
    let diagnostics = check_source("class Foo { void m() { return; } }");
    assert!(!diagnostics.iter().any(|d| d.kind.body.contains("return")));
}

#[test]
fn test_lambda_arrow() {
    let diagnostics = check_source("class Foo { Runnable r = ()->{}; }");
    assert!(diagnostics.iter().any(|d| d.kind.body.contains("->")));
}

#[test]
fn test_fix_inserts_space_before() {
    let diagnostics = check_source("class Foo { int x = 1+2; }");
    let plus_before = diagnostics
        .iter()
        .find(|d| d.kind.body.contains("before") && d.kind.body.contains("+"))
        .expect("Should have 'before +' diagnostic");

    let fix = plus_before.fix.as_ref().expect("Should have fix");
    let edits = fix.edits();
    assert_eq!(edits.len(), 1);
    assert_eq!(edits[0].content(), Some(" "));
    assert!(edits[0].is_insertion());
}

#[test]
fn test_fix_inserts_space_after() {
    let diagnostics = check_source("class Foo { int x = 1+2; }");
    let plus_after = diagnostics
        .iter()
        .find(|d| d.kind.body.contains("after") && d.kind.body.contains("+"))
        .expect("Should have 'after +' diagnostic");

    let fix = plus_after.fix.as_ref().expect("Should have fix");
    let edits = fix.edits();
    assert_eq!(edits.len(), 1);
    assert_eq!(edits[0].content(), Some(" "));
    assert!(edits[0].is_insertion());
}

#[test]
fn whitespace_around_test_all_diagnostics_have_fixes() {
    let diagnostics = check_source("class Foo { void m() { if(true){ }else{ } } }");
    for d in &diagnostics {
        assert!(
            d.fix.is_some(),
            "Diagnostic '{}' should have a fix",
            d.kind.body
        );
    }
}

#[test]
fn whitespace_around_exact_plus() {
    let diagnostics = check_source("class Foo { int x = 1+2; }");
    let bodies: Vec<_> = diagnostics.iter().map(|d| d.kind.body.clone()).collect();
    assert_eq!(bodies, vec![
        "Missing whitespace before `+`".to_string(),
        "Missing whitespace after `+`".to_string(),
    ]);
    assert_eq!(diagnostics[0].fix.as_ref().unwrap().edits()[0].range.start.raw, 21);
    assert_eq!(diagnostics[1].fix.as_ref().unwrap().edits()[0].range.start.raw, 22);
}

#[test]
fn whitespace_around_empty_bodies_config() {
    let source = "class Foo { void m() {} }";
    let diagnostics = check_source(source);
    assert_eq!(diagnostics.len(), 2);
    let mut p = Properties::new();
    p.insert("allowEmptyMethods", "true");
    p.insert("tokens", "PLUS, GENERIC_START");
    let rule = WhitespaceAround::from_config(&p);
    assert!(rule.allow_empty_methods);
    assert!(rule.check_generic_start);
    assert!(!rule.check_generic_end);
    assert!(rule.ignore_enhanced_for_colon);
    assert!(check_source_with(source, &rule).is_empty());
}
