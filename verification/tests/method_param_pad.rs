use lintal_linter::config::Properties;
use lintal_linter::cst::CstTree;
use lintal_linter::diagnostics::Diagnostic;
use lintal_linter::rules::method_param_pad::{MethodParamPad, MethodParamPadOption, MethodParamPadToken};

fn check_source(source: &str) -> Vec<Diagnostic> {
    check_source_with_config(source, &MethodParamPad::default())
}

fn check_source_with_config(source: &str, rule: &MethodParamPad) -> Vec<Diagnostic> {
    let tree = CstTree::parse(source).expect("parse");
    let mut diagnostics = vec![];
    for node in 0..tree.len() {
        diagnostics.extend(rule.check(&tree, node));
    }
    diagnostics
}

#[test]
fn test_method_def_with_space() {
    let diagnostics = check_source("class Foo { void m (int x) {} }");
    assert!(
        diagnostics
            .iter()
            .any(|d| d.kind.body.contains("'(' is preceded")),
        "Should detect space before lparen"
    );
}

#[test]
fn test_method_def_without_space() {
    let diagnostics = check_source("class Foo { void m(int x) {} }");
    assert!(
        diagnostics.is_empty(),
        "Should not flag lparen without space when option=nospace"
    );
}

#[test]
fn test_constructor_with_space() {
    let diagnostics = check_source("class Foo { Foo (int x) {} }");
    assert!(
        diagnostics
            .iter()
            .any(|d| d.kind.body.contains("'(' is preceded")),
        "Should detect space before lparen in constructor"
    );
}

#[test]
fn test_method_call_with_space() {
    let diagnostics = check_source("class Foo { void m() { foo (1); } void foo(int x) {} }");
    assert!(
        diagnostics
            .iter()
            .any(|d| d.kind.body.contains("'(' is preceded")),
        "Should detect space before lparen in method call"
    );
}

#[test]
fn test_new_with_space() {
    let diagnostics = check_source("class Foo { void m() { new Foo (1); } Foo(int x) {} }");
    assert!(
        diagnostics
            .iter()
            .any(|d| d.kind.body.contains("'(' is preceded")),
        "Should detect space before lparen in new expression"
    );
}

#[test]
fn test_super_call_with_space() {
    let diagnostics = check_source("class Foo { Foo() { super (); } }");
    assert!(
        diagnostics
            .iter()
            .any(|d| d.kind.body.contains("'(' is preceded")),
        "Should detect space before lparen in super call"
    );
}

#[test]
fn test_line_break_not_allowed() {
    let diagnostics = check_source("class Foo { void m\n(int x) {} }");
    assert!(
        diagnostics
            .iter()
            .any(|d| d.kind.body.contains("should be on the previous line")),
        "Should detect line break before lparen when not allowed"
    );
}

#[test]
fn test_line_break_allowed() {
    let rule = MethodParamPad {
        option: MethodParamPadOption::NoSpace,
        allow_line_breaks: true,
        tokens: MethodParamPad::default().tokens,
    };
    let diagnostics = check_source_with_config("class Foo { void m\n(int x) {} }", &rule);
    assert!(
        diagnostics.is_empty(),
        "Should not flag line break when allowed"
    );
}

#[test]
fn test_space_option() {
    let rule = MethodParamPad {
        option: MethodParamPadOption::Space,
        allow_line_breaks: false,
        tokens: MethodParamPad::default().tokens,
    };
    let diagnostics = check_source_with_config("class Foo { void m(int x) {} }", &rule);
    assert!(
        diagnostics
            .iter()
            .any(|d| d.kind.body.contains("'(' is not preceded")),
        "Should detect missing space before lparen when option=space"
    );
}

#[test]
fn test_space_option_with_space() {
    let rule = MethodParamPad {
        option: MethodParamPadOption::Space,
        allow_line_breaks: false,
        tokens: MethodParamPad::default().tokens,
    };
    let diagnostics = check_source_with_config("class Foo { void m (int x) {} }", &rule);
    assert!(
        diagnostics.is_empty(),
        "Should not flag lparen with space when option=space"
    );
}

#[test]
fn test_enum_constant() {
    let diagnostics = check_source("enum E { A (), B() }");
    assert!(
        diagnostics
            .iter()
            .any(|d| d.kind.body.contains("'(' is preceded")),
        "Should detect space before lparen in enum constant"
    );
}

#[test]
fn method_param_pad_test_all_diagnostics_have_fixes() {
    let diagnostics =
        check_source("class Foo { void m (int x) { foo (1); } void foo(int x) {} }");
    for d in &diagnostics {
        assert!(
            d.fix.is_some(),
            "Diagnostic should have fix: {}",
            d.kind.body
        );
    }
}

#[test]
fn method_param_pad_line_previous_fix_and_config() {
    let source = "class Foo { void m\n(int x) {} }";
    let diagnostics = check_source(source);
    assert_eq!(diagnostics.len(), 1);
    assert_eq!(diagnostics[0].kind.name, "LinePrevious");
    assert_eq!(diagnostics[0].kind.body, "'(' should be on the previous line");
    let e = &diagnostics[0].fix.as_ref().unwrap().edits()[0];
    assert_eq!(e.content(), None);
    let (a, b) = (e.range().start.raw as usize, e.range().end.raw as usize);
    let fixed = format!("{}{}", &source[..a], &source[b..]);
    assert_eq!(fixed, "class Foo { void m(int x) {} }");
    let mut p = Properties::new();
    p.insert("allowLineBreaks", " true ");
    p.insert("tokens", "METHOD_CALL");
    let rule = MethodParamPad::from_config(&p);
    assert!(rule.allow_line_breaks);
    assert_eq!(rule.tokens, vec![MethodParamPadToken::MethodCall]);
    assert!(check_source_with_config("class Foo { void m (int x) {} }", &rule).is_empty());
}

#[test]
fn method_param_pad_deletes_space() {
    let source = "class Foo { void m  (int x) {} }";
    let diagnostics = check_source(source);
    assert_eq!(diagnostics.len(), 1);
    let e = &diagnostics[0].fix.as_ref().unwrap().edits()[0];
    assert_eq!(&source[e.range.start.raw as usize..e.range.end.raw as usize], "  ");
}
