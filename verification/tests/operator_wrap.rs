use lintal_linter::config::Properties;
use lintal_linter::cst::CstTree;
use lintal_linter::diagnostics::Diagnostic;
use lintal_linter::rules::operator_wrap::{OperatorWrap, OperatorWrapToken, WrapOption};

fn check_with(source: &str, rule: &OperatorWrap) -> Vec<Diagnostic> {
    let tree = CstTree::parse(source).expect("parse");
    let mut diagnostics = vec![];
    for node in 0..tree.len() {
        diagnostics.extend(rule.check(&tree, node));
    }
    diagnostics
}

fn check_source_nl(source: &str) -> Vec<Diagnostic> {
    check_with(source, &OperatorWrap::default())
}

fn check_source_eol(source: &str) -> Vec<Diagnostic> {
    let rule = OperatorWrap { option: WrapOption::Eol, tokens: OperatorWrapToken::default_tokens() };
    check_with(source, &rule)
}

#[test]
fn test_nl_operator_at_end_of_line_violation() {
    let source = r#"
class Test {
void method() {
    int x = 1 +
        2;
}
}
"#;
    let diagnostics = check_source_nl(source);
    assert_eq!(
        diagnostics.len(),
        1,
        "Operator at end of line should be violation with nl option"
    );
}

#[test]
fn test_nl_operator_on_new_line_ok() {
    let source = r#"
class Test {
void method() {
    int x = 1
        + 2;
}
}
"#;
    let diagnostics = check_source_nl(source);
    assert!(
        diagnostics.is_empty(),
        "Operator on new line should be OK with nl option"
    );
}

#[test]
fn test_eol_operator_on_new_line_violation() {
    let source = r#"
class Test {
void method() {
    int x = 1
        + 2;
}
}
"#;
    let diagnostics = check_source_eol(source);
    assert_eq!(
        diagnostics.len(),
        1,
        "Operator on new line should be violation with eol option"
    );
}

#[test]
fn test_eol_operator_at_end_of_line_ok() {
    let source = r#"
class Test {
void method() {
    int x = 1 +
        2;
}
}
"#;
    let diagnostics = check_source_eol(source);
    assert!(
        diagnostics.is_empty(),
        "Operator at end of line should be OK with eol option"
    );
}

#[test]
fn test_same_line_no_violation() {
    let source = r#"
class Test {
void method() {
    int x = 1 + 2;
}
}
"#;
    let diagnostics = check_source_nl(source);
    assert!(
        diagnostics.is_empty(),
        "Same line expression should not cause violation"
    );
}

#[test]
fn test_ternary_question_violation() {
    let source = r#"
class Test {
void method() {
    int x = true ?
        1 : 2;
}
}
"#;
    let diagnostics = check_source_nl(source);
    assert!(
        diagnostics.iter().any(|d| d.kind.body.contains("?")),
        "Should detect ternary ? at end of line"
    );
}

#[test]
fn test_instanceof_violation() {
    let source = r#"
class Test {
void method(Object o) {
    boolean b = o instanceof
        String;
}
}
"#;
    let diagnostics = check_source_nl(source);
    assert!(
        diagnostics
            .iter()
            .any(|d| d.kind.body.contains("instanceof")),
        "Should detect instanceof at end of line"
    );
}

#[test]
fn operator_wrap_nl_fix_text() {
    let source = "class T {\n  void m() {\n    int x = 1 +\n        2;\n  }\n}\n";
    let diagnostics = check_source_nl(source);
    assert_eq!(diagnostics.len(), 1);
    assert_eq!(diagnostics[0].kind.body, "'+' should be on a new line.");
    let e = &diagnostics[0].fix.as_ref().unwrap().edits()[0];
    assert_eq!(e.content(), Some("\n        + "));
    let mut fixed = source.to_string();
    fixed.replace_range(e.range.start.raw as usize..e.range.end.raw as usize, e.content().unwrap());
    assert_eq!(fixed, "class T {\n  void m() {\n    int x = 1\n        + 2;\n  }\n}\n");
}

#[test]
fn operator_wrap_eol_fix_and_comment() {
    let source = "class T {\n  void m() {\n    int x = 1\n        + 2;\n  }\n}\n";
    let diagnostics = check_source_eol(source);
    assert_eq!(diagnostics.len(), 1);
    assert_eq!(diagnostics[0].kind.body, "'+' should be on the previous line.");
    let e = &diagnostics[0].fix.as_ref().unwrap().edits()[0];
    assert_eq!(e.content(), Some(" +\n        "));
    let commented = "class T {\n  void m() {\n    int x = 1 // c\n        + 2;\n  }\n}\n";
    let diagnostics = check_source_eol(commented);
    assert_eq!(diagnostics.len(), 1);
    assert!(diagnostics[0].fix.is_none());
}

#[test]
fn operator_wrap_tokens_and_names() {
    assert_eq!(OperatorWrapToken::from_checkstyle_name(" PLUS "), Some(OperatorWrapToken::Plus));
    assert_eq!(OperatorWrapToken::from_checkstyle_name("plus"), None);
    assert_eq!(OperatorWrapToken::from_operator(">>>="), Some(OperatorWrapToken::BsrAssign));
    assert_eq!(OperatorWrapToken::from_operator(" +"), None);
    assert_eq!(OperatorWrapToken::default_tokens().len(), 23);
    assert!(!OperatorWrapToken::default_tokens().contains(&OperatorWrapToken::Assign));
    let mut p = Properties::new();
    p.insert("option", "EOL");
    p.insert("tokens", "ASSIGN");
    let rule = OperatorWrap::from_config(&p);
    assert_eq!(rule.option, WrapOption::Eol);
    assert_eq!(rule.tokens, vec![OperatorWrapToken::Assign]);
    let source = "class T {\n  int x\n    = 1;\n}\n";
    assert_eq!(check_with(source, &rule).len(), 1);
    assert_eq!(WrapOption::default(), WrapOption::Nl);
}

#[test]
fn operator_wrap_names_are_one_to_one_and_trim_insensitive() {
    let names = [
        "PLUS", "MINUS", "STAR", "DIV", "MOD", "EQUAL", "NOT_EQUAL", "GT", "GE", "LT", "LE", "LAND", "LOR",
        "BAND", "BOR", "BXOR", "SL", "SR", "BSR", "QUESTION", "COLON", "ASSIGN", "PLUS_ASSIGN", "MINUS_ASSIGN",
        "STAR_ASSIGN", "DIV_ASSIGN", "MOD_ASSIGN", "SL_ASSIGN", "SR_ASSIGN", "BSR_ASSIGN", "BXOR_ASSIGN",
        "BOR_ASSIGN", "BAND_ASSIGN", "TYPE_EXTENSION_AND", "LITERAL_INSTANCEOF", "METHOD_REF",
    ];
    let mut seen: Vec<OperatorWrapToken> = Vec::new();
    for name in names {
        let t = OperatorWrapToken::from_checkstyle_name(name).expect("known name");
        assert!(!seen.contains(&t), "{name} names a token twice");
        seen.push(t);
        let padded = format!(" \t{name}\n");
        assert_eq!(OperatorWrapToken::from_checkstyle_name(&padded), Some(t));
        assert_eq!(OperatorWrapToken::from_checkstyle_name(padded.trim()), Some(t));
    }
    assert_eq!(seen.len(), names.len());
    assert_eq!(OperatorWrapToken::from_checkstyle_name("PLUS_"), None);
    assert_eq!(OperatorWrapToken::from_checkstyle_name("P LUS"), None);
    assert_eq!(OperatorWrapToken::from_checkstyle_name(""), None);
}
