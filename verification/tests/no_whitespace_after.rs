use lintal_linter::config::Properties;
use lintal_linter::cst::CstTree;
use lintal_linter::diagnostics::Diagnostic;
use lintal_linter::rules::no_whitespace_after::{NoWhitespaceAfter, NoWhitespaceAfterToken};

fn check_source(source: &str) -> Vec<Diagnostic> {
    check_source_with_config(source, &NoWhitespaceAfter::default())
}

fn check_source_with_config(source: &str, rule: &NoWhitespaceAfter) -> Vec<Diagnostic> {
    let tree = CstTree::parse(source).expect("parse");
    let mut diagnostics = vec![];
    for node in 0..tree.len() {
        diagnostics.extend(rule.check(&tree, node));
    }
    diagnostics
}

#[test]
fn test_dot_with_space() {
    let diagnostics = check_source("class Foo { void m() { obj. toString(); } }");
    assert!(
        diagnostics
            .iter()
            .any(|d| d.kind.body.contains(".") && d.kind.body.contains("followed")),
        "Should detect dot with space: {:?}",
        diagnostics
    );
}

#[test]
fn test_dot_without_space() {
    let diagnostics = check_source("class Foo { void m() { obj.toString(); } }");
    let dot_violations: Vec<_> = diagnostics
        .iter()
        .filter(|d| d.kind.body.contains("."))
        .collect();
    assert!(
        dot_violations.is_empty(),
        "Should not flag dot without space"
    );
}

#[test]
fn test_annotation_with_space() {
    let diagnostics = check_source("@ interface Foo {}");
    assert!(
        diagnostics
            .iter()
            .any(|d| d.kind.body.contains("@") && d.kind.body.contains("followed")),
        "Should detect @ with space: {:?}",
        diagnostics
    );
}

#[test]
fn test_annotation_without_space() {
    let diagnostics = check_source("@interface Foo {}");
    let at_violations: Vec<_> = diagnostics
        .iter()
        .filter(|d| d.kind.body.contains("@"))
        .collect();
    assert!(at_violations.is_empty(), "Should not flag @ without space");
}

#[test]
fn no_whitespace_after_test_all_diagnostics_have_fixes() {
    let diagnostics = check_source("class Foo { void m() { obj. toString(); } }");
    for d in &diagnostics {
        assert!(
            d.fix.is_some(),
            "Diagnostic should have fix: {}",
            d.kind.body
        );
    }
}

#[test]
fn test_array_creation_with_space() {
    let diagnostics = check_source("class Foo { void m() { int[] a = new int [50]; } }");
    assert!(
        diagnostics
            .iter()
            .any(|d| d.kind.body.contains("int") && d.kind.body.contains("followed")),
        "Should detect 'new int [50]' with space: {:?}",
        diagnostics
    );
}

#[test]
fn test_array_creation_without_space() {
    let diagnostics = check_source("class Foo { void m() { int[] a = new int[50]; } }");
    let int_violations: Vec<_> = diagnostics
        .iter()
        .filter(|d| d.kind.body.contains("int"))
        .collect();
    assert!(
        int_violations.is_empty(),
        "Should not flag 'new int[50]' without space"
    );
}

#[test]
fn no_whitespace_after_line_breaks() {
    let source = "class Foo { void m() { obj.\ntoString(); } }";
    assert!(check_source(source).is_empty());
    assert_eq!(check_source("class Foo { void m() { obj.\n toString(); } }").len(), 1);
    let rule = NoWhitespaceAfter { tokens: vec![NoWhitespaceAfterToken::Dot], allow_line_breaks: false };
    let diagnostics = check_source_with_config(source, &rule);
    assert_eq!(diagnostics.len(), 1);
    let e = &diagnostics[0].fix.as_ref().unwrap().edits()[0];
    assert_eq!(&source[e.range.start.raw as usize..e.range.end.raw as usize], "\n");
}

#[test]
fn no_whitespace_after_config() {
    let mut p = Properties::new();
    p.insert("tokens", "TYPECAST, METHOD_REF");
    p.insert("allowLineBreaks", "false");
    let rule = NoWhitespaceAfter::from_config(&p);
    assert!(!rule.allow_line_breaks);
    assert_eq!(rule.tokens, vec![NoWhitespaceAfterToken::Typecast, NoWhitespaceAfterToken::MethodRef]);
    let diagnostics = check_source_with_config("class Foo { Object o = (String) x; Runnable r = Foo:: m; }", &rule);
    assert_eq!(diagnostics.len(), 2);
    assert_eq!(diagnostics[0].kind.body, "')' is followed by whitespace");
    assert_eq!(diagnostics[1].kind.body, "'::' is followed by whitespace");
    let mut q = Properties::new();
    q.insert("allowLineBreaks", "maybe");
    assert!(NoWhitespaceAfter::from_config(&q).allow_line_breaks);
}

#[test]
fn no_whitespace_after_index_op() {
    let diagnostics = check_source("class Foo { int m(int[] a) { return a [0]; } }");
    assert_eq!(diagnostics.len(), 1);
    assert_eq!(diagnostics[0].kind.body, "'a' is followed by whitespace");
}
