use lintal_linter::config::Properties;
use lintal_linter::cst::CstTree;
use lintal_linter::diagnostics::Diagnostic;
use lintal_linter::rules::whitespace_after::{WhitespaceAfter, WhitespaceAfterToken};

fn check_source(source: &str) -> Vec<Diagnostic> {
    check_source_with_config(source, &WhitespaceAfter::default())
}

fn check_source_with_config(source: &str, rule: &WhitespaceAfter) -> Vec<Diagnostic> {
    let tree = CstTree::parse(source).expect("parse");
    let mut diagnostics = vec![];
    for node in 0..tree.len() {
        diagnostics.extend(rule.check(&tree, node));
    }
    diagnostics
}

#[test]
fn whitespace_after_test_comma_without_space() {
    let diagnostics = check_source("class Foo { int[] a = {1,2}; }");
    assert!(
        diagnostics
            .iter()
            .any(|d| d.kind.body.contains(",") && d.kind.body.contains("not followed")),
        "Should detect comma without space: {:?}",
        diagnostics
    );
}

#[test]
fn whitespace_after_test_comma_with_space() {
    let diagnostics = check_source("class Foo { int[] a = {1, 2}; }");
    let comma_violations: Vec<_> = diagnostics
        .iter()
        .filter(|d| d.kind.body.contains(","))
        .collect();
    assert!(
        comma_violations.is_empty(),
        "Should not flag comma with space"
    );
}

#[test]
fn test_semicolon_end_of_line() {
    let diagnostics = check_source("class Foo { int x = 1;\n}");
    let semi_violations: Vec<_> = diagnostics
        .iter()
        .filter(|d| d.kind.body.contains(";"))
        .collect();
    assert!(
        semi_violations.is_empty(),
        "Should not flag semicolon at EOL"
    );
}

#[test]
fn test_semicolon_end_of_file() {
    // Package declaration with semicolon at EOF (no trailing newline)
    let diagnostics = check_source("package foo;");
    let semi_violations: Vec<_> = diagnostics
        .iter()
        .filter(|d| d.kind.body.contains(";"))
        .collect();
    assert!(
        semi_violations.is_empty(),
        "Should not flag semicolon at EOF: {:?}",
        semi_violations
    );
}

#[test]
fn test_for_loop_semicolon() {
    let diagnostics = check_source("class Foo { void m() { for (int i = 0;i < 10; i++) {} } }");
    assert!(
        diagnostics
            .iter()
            .any(|d| d.kind.body.contains(";") && d.kind.body.contains("not followed")),
        "Should detect semicolon without space in for loop"
    );
}

#[test]
fn whitespace_after_test_all_diagnostics_have_fixes() {
    let diagnostics = check_source("class Foo { int[] a = {1,2,3}; }");
    for d in &diagnostics {
        assert!(
            d.fix.is_some(),
            "Diagnostic should have fix: {}",
            d.kind.body
        );
    }
}

#[test]
fn whitespace_after_keywords_and_cast() {
    let mut p = Properties::new();
    p.insert("tokens", "LITERAL_IF, TYPECAST, LITERAL_DO, DO_WHILE");
    let rule = WhitespaceAfter::from_config(&p);
    assert_eq!(rule.tokens.len(), 4);
    let source = "class Foo { void m() { Object o = (String)x; if(true) {} do{} while(true); } }";
    let diagnostics = check_source_with_config(source, &rule);
    let bodies: Vec<_> = diagnostics.iter().map(|d| d.kind.body.clone()).collect();
    assert_eq!(bodies, vec![
        "')' is not followed by whitespace".to_string(),
        "'if' is not followed by whitespace".to_string(),
        "'do' is not followed by whitespace".to_string(),
        "'while' is not followed by whitespace".to_string(),
    ]);
    let e = &diagnostics[1].fix.as_ref().unwrap().edits()[0];
    assert_eq!(e.content(), Some(" "));
    assert!(e.is_insertion());
    assert_eq!(WhitespaceAfterToken::from_str(" COMMA"), Some(WhitespaceAfterToken::Comma));
}

#[test]
fn whitespace_after_comma_before_bracket_ok() {
    assert!(check_source("class Foo { int[] a = {1,}; }").is_empty());
}

#[test]
fn whitespace_after_reports_only_at_relevant_kinds() {
    let source = "class Foo { void m() { int[] a = {1,2}; for (int i=0;i<2;i++) {} if(a[0]==1){} Object o = (Object)a; } }";
    let tree = CstTree::parse(source).expect("parse");
    let rule = WhitespaceAfter::default();
    let kinds = rule.relevant_kinds();
    let mut found = 0;
    for node in 0..tree.len() {
        let d = rule.check(&tree, node);
        if !d.is_empty() {
            found += d.len();
            assert!(kinds.contains(&tree.kind(node)));
        }
    }
    assert!(found > 0);
}

#[test]
fn whitespace_after_checks_both_if_and_else() {
    let source = "class Foo { void m() { if(a) {} else{} } }";
    let rule = WhitespaceAfter { tokens: vec![WhitespaceAfterToken::LiteralIf, WhitespaceAfterToken::LiteralElse] };
    let d = check_source_with_config(source, &rule);
    assert_eq!(d.len(), 2);
    assert_eq!(d[0].kind.body, "'if' is not followed by whitespace");
    assert_eq!(d[1].kind.body, "'else' is not followed by whitespace");
    let e = &d[1].fix.as_ref().unwrap().edits[0];
    assert_eq!(e.content.as_deref(), Some(" "));
    assert_eq!(e.range.start.raw as usize, source.find("else").unwrap() + 4);
    let only_else = WhitespaceAfter { tokens: vec![WhitespaceAfterToken::LiteralElse] };
    assert_eq!(check_source_with_config(source, &only_else).len(), 1);
}
