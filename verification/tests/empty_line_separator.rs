use lintal_linter::config::Properties;
use lintal_linter::cst::CstTree;
use lintal_linter::diagnostics::Diagnostic;
use lintal_linter::rules::empty_line_separator::{EmptyLineSeparator, EmptyLineSeparatorToken};

fn check_source(source: &str) -> Vec<Diagnostic> {
    check_source_with_config(source, EmptyLineSeparator::default())
}

fn check_source_with_config(source: &str, rule: EmptyLineSeparator) -> Vec<Diagnostic> {
    let tree = CstTree::parse(source).expect("parse");
    let mut diagnostics = vec![];
    for node in 0..tree.len() {
        diagnostics.extend(rule.check(&tree, node));
    }
    diagnostics
}

fn strict() -> EmptyLineSeparator {
    EmptyLineSeparator {
        allow_multiple_empty_lines: false,
        allow_multiple_empty_lines_inside_class_members: false,
        ..Default::default()
    }
}

#[test]
fn test_method_needs_blank_line() {
    let source = r#"
class Test {
    void method1() {}
    void method2() {}
}
"#;
    let diagnostics = check_source(source);
    assert_eq!(diagnostics.len(), 1, "method2 should need blank line before it");
}

#[test]
fn test_method_has_blank_line_ok() {
    let source = r#"
class Test {
    void method1() {}

    void method2() {}
}
"#;
    let diagnostics = check_source(source);
    assert!(diagnostics.is_empty(), "method2 has blank line, should be OK");
}

#[test]
fn test_constructor_needs_blank_line() {
    let source = r#"
class Test {
    private int x;
    Test() {}
}
"#;
    let diagnostics = check_source(source);
    assert!(
        diagnostics.iter().any(|d| d.kind.body.contains("CTOR_DEF")),
        "constructor should need blank line"
    );
}

#[test]
fn test_field_needs_blank_line_default() {
    let source = r#"
class Test {
    private int x;
    private int y;
}
"#;
    let diagnostics = check_source(source);
    assert_eq!(diagnostics.len(), 1, "field y should need blank line (default config)");
}

#[test]
fn test_field_no_blank_line_allowed() {
    let source = r#"
class Test {
    private int x;
    private int y;
}
"#;
    let rule = EmptyLineSeparator {
        allow_no_empty_line_between_fields: true,
        ..Default::default()
    };
    let diagnostics = check_source_with_config(source, rule);
    assert!(
        diagnostics.is_empty(),
        "fields without blank lines should be OK when allowNoEmptyLineBetweenFields=true"
    );
}

#[test]
fn test_static_init_needs_blank_line() {
    let source = r#"
class Test {
    private int x;
    static {}
}
"#;
    let diagnostics = check_source(source);
    assert!(
        diagnostics.iter().any(|d| d.kind.body.contains("STATIC_INIT")),
        "static init should need blank line"
    );
}

#[test]
fn test_comment_before_method_ok() {
    let source = r#"
class Test {
    void method1() {}

    // comment before method2
    void method2() {}
}
"#;
    let diagnostics = check_source(source);
    assert!(diagnostics.is_empty(), "blank line before comment should satisfy requirement");
}

#[test]
fn test_first_member_no_violation() {
    let source = r#"
class Test {
    void method1() {}
}
"#;
    let diagnostics = check_source(source);
    assert!(diagnostics.is_empty(), "first member should not need blank line");
}

#[test]
fn test_javadoc_before_method_ok() {
    let source = r#"
class Test {
    void method1() {}

    /**
     * Javadoc comment
     */
    void method2() {}
}
"#;
    let diagnostics = check_source(source);
    assert!(diagnostics.is_empty(), "blank line before javadoc should satisfy requirement");
}

#[test]
fn test_agrona_like_structure() {
    let source = r#"
class Test {
    private int x;

    @SuppressWarnings("unused")
    private int y;

    /**
     * Doc
     */
    public Test() {}
}
"#;
    let diagnostics = check_source(source);
    println!("\nDiagnostics:");
    for d in &diagnostics {
        println!("  {:?}", d);
    }
    assert!(
        diagnostics.is_empty(),
        "should have no violations - there are blank lines before all members"
    );
}

#[test]
fn test_multiple_empty_lines_inside_method() {
    let source = r#"
class Test {
    void method() {
        int x = 1;


        int y = 2;
    }
}
"#;
    let rule = EmptyLineSeparator {
        allow_multiple_empty_lines_inside_class_members: false,
        ..Default::default()
    };
    let diagnostics = check_source_with_config(source, rule);
    assert!(
        diagnostics.iter().any(|d| d.kind.body.contains("more than 1 empty line")),
        "should detect multiple empty lines inside method body"
    );
}

#[test]
fn test_multiple_empty_lines_inside_constructor() {
    let source = r#"
class Test {
    Test() {
        int x = 1;


    }
}
"#;
    let rule = EmptyLineSeparator {
        allow_multiple_empty_lines_inside_class_members: false,
        ..Default::default()
    };
    let diagnostics = check_source_with_config(source, rule);
    assert!(
        diagnostics.iter().any(|d| d.kind.body.contains("more than 1 empty line")),
        "should detect multiple empty lines inside constructor body"
    );
}

#[test]
fn test_multiple_empty_lines_inside_nested_block() {
    let source = r#"
class Test {
    void method() {
        try {
            int x = 1;


        } catch (Exception e) {
        }
    }
}
"#;
    let rule = EmptyLineSeparator {
        allow_multiple_empty_lines_inside_class_members: false,
        ..Default::default()
    };
    let diagnostics = check_source_with_config(source, rule);
    println!("Diagnostics for nested block test:");
    for d in &diagnostics {
        println!("  {}", d.kind.body);
    }
    assert!(
        diagnostics.iter().any(|d| d.kind.body.contains("more than 1 empty line")),
        "should detect multiple empty lines inside nested try block"
    );
}

#[test]
fn els_should_be_separated_message_and_fix() {
    let source = "class Test {\n    void a() {}\n    void b() {}\n}\n";
    let diagnostics = check_source(source);
    assert_eq!(diagnostics.len(), 1);
    let d = &diagnostics[0];
    assert_eq!(d.kind.name, "ShouldBeSeparated");
    assert_eq!(d.kind.body, "'METHOD_DEF' should be separated from previous line.");
    let start = source.find("void b").unwrap();
    assert_eq!(d.range.start.raw as usize, start);
    let fix = d.fix.as_ref().expect("fix");
    assert_eq!(fix.edits.len(), 1);
    assert_eq!(fix.edits[0].content.as_deref(), Some("\n"));
}

#[test]
fn els_too_many_empty_lines_before_member() {
    let source = "class Test {\n    void a() {}\n\n\n    void b() {}\n}\n";
    assert!(check_source(source).is_empty());
    let diagnostics = check_source_with_config(source, strict());
    assert_eq!(diagnostics.len(), 1);
    assert_eq!(diagnostics[0].kind.name, "TooManyEmptyLines");
    assert_eq!(diagnostics[0].kind.body, "'METHOD_DEF' has more than 1 empty lines before.");
    assert!(diagnostics[0].fix.is_some());
}

#[test]
fn els_too_many_empty_lines_after_last_member() {
    let source = "class Test {\n    void a() {}\n\n\n}\n";
    let diagnostics = check_source_with_config(source, strict());
    assert_eq!(diagnostics.len(), 1);
    assert_eq!(diagnostics[0].kind.name, "TooManyEmptyLinesAfter");
    assert_eq!(diagnostics[0].kind.body, "'}' has more than 1 empty lines after.");
}

#[test]
fn els_comment_after_too_many_empty_lines() {
    let source = "class Test {\n    void a() {}\n\n\n    // note\n    void b() {}\n}\n";
    let diagnostics = check_source_with_config(source, strict());
    assert!(diagnostics.iter().any(|d| d.kind.name == "CommentTooManyEmptyLines"
        && d.kind.body == "'//' has more than 1 empty lines before."));
}

#[test]
fn els_inside_method_reports_once_per_gap() {
    let source = "class Test {\n    void m() {\n        int x = 1;\n\n\n\n        int y = 2;\n    }\n}\n";
    let diagnostics = check_source_with_config(source, strict());
    let inside: Vec<_> = diagnostics.iter().filter(|d| d.kind.name == "TooManyEmptyLinesInside").collect();
    assert_eq!(inside.len(), 1);
    assert_eq!(inside[0].kind.body, "There is more than 1 empty line after this line.");
    let at = source.find("1;").unwrap() + 2;
    assert_eq!(inside[0].range.start.raw as usize, at);
    let fix = inside[0].fix.as_ref().expect("fix");
    let edit = &fix.edits[0];
    assert_eq!(edit.content, None);
    let from = source.find("1;\n\n").unwrap() + 4;
    let to = source.find("        int y").unwrap();
    assert_eq!(edit.range.start.raw as usize, from);
    assert_eq!(edit.range.end.raw as usize, to);
}

#[test]
fn els_inside_method_single_empty_line_ok() {
    let source = "class Test {\n    void m() {\n        int x = 1;\n\n        int y = 2;\n    }\n}\n";
    assert!(check_source_with_config(source, strict()).is_empty());
}

#[test]
fn els_array_initializer_reports_both_sides() {
    let source = "class Test {\n    void m() {\n        int[] a = {\n            1,\n\n\n            2\n        };\n    }\n}\n";
    let diagnostics = check_source_with_config(source, strict());
    let inside: Vec<_> = diagnostics.iter().filter(|d| d.kind.name == "TooManyEmptyLinesInside").collect();
    assert_eq!(inside.len(), 2);
    let second = source.find("            2").unwrap() + 12;
    assert_eq!(inside[1].range.start.raw as usize, second);
    assert!(inside[1].fix.is_none());
}

#[test]
fn els_imports_and_class_separation() {
    let source = "package a;\nimport b.C;\nclass D {}\n";
    let diagnostics = check_source(source);
    let names: Vec<_> = diagnostics.iter().map(|d| d.kind.body.clone()).collect();
    assert!(names.iter().any(|b| b == "'IMPORT' should be separated from previous line."), "{:?}", names);
    assert!(names.iter().any(|b| b == "'CLASS_DEF' should be separated from previous line."), "{:?}", names);
}

#[test]
fn els_separated_file_ok() {
    let source = "package a;\n\nimport b.C;\n\nclass D {}\n";
    assert!(check_source(source).is_empty());
}

#[test]
fn els_tokens_limit_what_is_checked() {
    let source = "class Test {\n    void a() {}\n    void b() {}\n}\n";
    let rule = EmptyLineSeparator {
        tokens: vec![EmptyLineSeparatorToken::VariableDef],
        ..Default::default()
    };
    assert!(check_source_with_config(source, rule).is_empty());
}

#[test]
fn els_from_config_reads_flags_and_tokens() {
    let mut props = Properties::new();
    props.insert("allowNoEmptyLineBetweenFields", "true");
    props.insert("allowMultipleEmptyLines", "false");
    props.insert("tokens", "METHOD_DEF, VARIABLE_DEF, BOGUS");
    let rule = EmptyLineSeparator::from_config(&props);
    assert!(rule.allow_no_empty_line_between_fields);
    assert!(!rule.allow_multiple_empty_lines);
    assert!(rule.allow_multiple_empty_lines_inside_class_members);
    assert_eq!(rule.tokens, vec![EmptyLineSeparatorToken::MethodDef, EmptyLineSeparatorToken::VariableDef]);
}

#[test]
fn els_token_names_round_trip() {
    for t in EmptyLineSeparatorToken::default_tokens() {
        assert_eq!(EmptyLineSeparatorToken::from_str(t.to_checkstyle_name()), Some(t));
    }
    assert_eq!(EmptyLineSeparatorToken::from_str("NOPE"), None);
}

#[test]
fn els_reports_only_at_relevant_kinds() {
    let source = "package a;\nimport b.C;\nclass T {\n    int x;\n    int y;\n    void m() {\n        int a = 1;\n\n\n        int b = 2;\n    }\n}\n";
    let tree = CstTree::parse(source).expect("parse");
    let rule = strict();
    let kinds = rule.relevant_kinds();
    let mut found = 0;
    for node in 0..tree.len() {
        let d = rule.check(&tree, node);
        if !d.is_empty() {
            found += d.len();
            assert!(kinds.contains(&tree.kind(node)));
        }
    }
    assert!(found >= 3);
}

#[test]
fn els_fields_option_only_removes_field_separations() {
    let source = "class Test {\n    int x;\n    int y;\n    void a() {}\n    int z;\n}\n";
    let plain = check_source(source);
    let allowing = check_source_with_config(
        source,
        EmptyLineSeparator { allow_no_empty_line_between_fields: true, ..Default::default() },
    );
    assert_eq!(plain.len(), 3);
    assert_eq!(allowing.len(), 2);
    let removed: Vec<&Diagnostic> = plain
        .iter()
        .filter(|d| !allowing.iter().any(|e| e.range == d.range && e.kind.body == d.kind.body))
        .collect();
    assert_eq!(removed.len(), 1);
    assert_eq!(removed[0].kind.body, "'VARIABLE_DEF' should be separated from previous line.");
    assert_eq!(removed[0].range.start.raw as usize, source.find("int y").unwrap());
    let kept: Vec<&str> = plain
        .iter()
        .filter(|d| !std::ptr::eq(*d, removed[0]))
        .map(|d| d.kind.body.as_str())
        .collect();
    let got: Vec<&str> = allowing.iter().map(|d| d.kind.body.as_str()).collect();
    assert_eq!(kept, got);
}
