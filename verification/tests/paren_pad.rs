use lintal_linter::config::Properties;
use lintal_linter::cst::CstTree;
use lintal_linter::diagnostics::Diagnostic;
use lintal_linter::rules::paren_pad::{ParenPad, ParenPadOption, ParenPadToken};

fn check_source_with_config(source: &str, rule: &ParenPad) -> Vec<Diagnostic> {
    let tree = CstTree::parse(source).expect("parse");
    let mut diagnostics = vec![];
    for node in 0..tree.len() {
        diagnostics.extend(rule.check(&tree, node));
    }
    diagnostics
}

fn check_source(source: &str) -> Vec<Diagnostic> {
    check_source_with_config(source, &ParenPad::default())
}

#[test]
fn paren_pad_test_nospace_with_space() {
    let diagnostics = check_source("class Foo { void m( int x ) {} }");
    assert!(
        diagnostics.iter().any(|d| d.kind.body.contains("'(' is followed")),
        "Should detect space after lparen"
    );
    assert!(
        diagnostics.iter().any(|d| d.kind.body.contains("')' is preceded")),
        "Should detect space before rparen"
    );
}

#[test]
fn paren_pad_test_nospace_without_space() {
    let diagnostics = check_source("class Foo { void m(int x) {} }");
    let paren_violations: Vec<_> = diagnostics
        .iter()
        .filter(|d| d.kind.body.contains("'('") || d.kind.body.contains("')'"))
        .collect();
    assert!(paren_violations.is_empty(), "Should not flag parens without space");
}

#[test]
fn paren_pad_test_space_without_space() {
    let rule = ParenPad { option: ParenPadOption::Space, tokens: ParenPad::default().tokens };
    let diagnostics = check_source_with_config("class Foo { void m(int x) {} }", &rule);
    assert!(
        diagnostics.iter().any(|d| d.kind.body.contains("'(' is not followed")),
        "Should detect missing space after lparen"
    );
    assert!(
        diagnostics.iter().any(|d| d.kind.body.contains("')' is not preceded")),
        "Should detect missing space before rparen"
    );
}

#[test]
fn paren_pad_test_space_with_space() {
    let rule = ParenPad { option: ParenPadOption::Space, tokens: ParenPad::default().tokens };
    let diagnostics = check_source_with_config("class Foo { void m( int x ) {} }", &rule);
    let paren_violations: Vec<_> = diagnostics
        .iter()
        .filter(|d| d.kind.body.contains("'('") || d.kind.body.contains("')'"))
        .collect();
    assert!(paren_violations.is_empty(), "Should not flag parens with space when option=space");
}

#[test]
fn test_empty_parens() {
    let diagnostics = check_source("class Foo { void m() {} }");
    let paren_violations: Vec<_> = diagnostics
        .iter()
        .filter(|d| d.kind.body.contains("'('") || d.kind.body.contains("')'"))
        .collect();
    assert!(paren_violations.is_empty(), "Should not flag empty parens");
}

#[test]
fn test_if_statement() {
    let diagnostics = check_source("class Foo { void m() { if( true ) {} } }");
    assert!(
        diagnostics.iter().any(|d| d.kind.body.contains("'(' is followed")),
        "Should detect space after lparen in if"
    );
}

#[test]
fn test_method_call() {
    let diagnostics = check_source("class Foo { void m() { foo( 1 ); } void foo(int x) {} }");
    assert!(
        diagnostics.iter().any(|d| d.kind.body.contains("'(' is followed")),
        "Should detect space after lparen in method call"
    );
}

#[test]
fn paren_pad_test_all_diagnostics_have_fixes() {
    let diagnostics = check_source("class Foo { void m( int x ) { if( true ) {} } }");
    for d in &diagnostics {
        assert!(d.fix.is_some(), "Diagnostic should have fix: {}", d.kind.body);
    }
}

#[test]
fn test_for_empty_iterator() {
    let diagnostics = check_source("class Foo { void m() { for (int i = 0; i < 10; ) { } } }");
    let paren_violations: Vec<_> = diagnostics
        .iter()
        .filter(|d| d.kind.body.contains("')'") && d.kind.body.contains("preceded"))
        .collect();
    assert!(paren_violations.is_empty(), "Should not flag ) in for loop with empty iterator");
}

#[test]
fn paren_pad_multiline_rparen_not_flagged() {
    let diagnostics = check_source("class Foo { void m(int x\n    ) {} }");
    assert!(diagnostics.is_empty());
}

#[test]
fn paren_pad_exact_ranges() {
    let source = "class Foo { void m( int x ) {} }";
    let diagnostics = check_source(source);
    assert_eq!(diagnostics.len(), 2);
    let d = &diagnostics[0];
    assert_eq!(d.kind.name, "Followed");
    assert_eq!(&source[d.range.start.raw as usize..d.range.end.raw as usize], "(");
    let e = &d.fix.as_ref().unwrap().edits()[0];
    assert_eq!(e.range.start.raw, 19);
    assert_eq!(e.range.end.raw, 20);
}

#[test]
fn paren_pad_config_tokens() {
    let mut p = Properties::new();
    p.insert("tokens", " LITERAL_IF , NOT_A_TOKEN");
    p.insert("option", "space");
    let rule = ParenPad::from_config(&p);
    assert_eq!(rule.option, ParenPadOption::Space);
    assert_eq!(rule.tokens, vec![ParenPadToken::LiteralIf]);
    let diagnostics = check_source_with_config("class Foo { void m(int x) { if(true) {} } }", &rule);
    assert_eq!(diagnostics.len(), 2);
}

#[test]
fn paren_pad_config_no_known_tokens_means_all() {
    let mut p = Properties::new();
    p.insert("tokens", "NOPE");
    let rule = ParenPad::from_config(&p);
    assert_eq!(rule.tokens.len(), 21);
    assert_eq!(ParenPadToken::from_str(" METHOD_DEF "), Some(ParenPadToken::MethodDef));
    assert_eq!(ParenPadToken::from_str("method_def"), None);
}
