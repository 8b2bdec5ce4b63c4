use lintal_linter::config::Properties;
use lintal_linter::cst::CstTree;
use lintal_linter::indent_level::IndentLevel;
use lintal_linter::rules::indentation::{HandlerContext, Indentation, IndentationChildError, IndentationError};
use lintal_linter::text::TextSize;

fn create_test_config() -> Indentation {
    Indentation::default()
}

#[test]
fn test_get_line_start_spaces() {
    let source = "    int x = 1;";
    let config = create_test_config();
    let ctx = HandlerContext::new(source, &config, 4);
    assert_eq!(ctx.get_line_start(0), 4);
}

#[test]
fn test_get_line_start_tabs() {
    let source = "\t\tint x = 1;";
    let config = create_test_config();
    let ctx = HandlerContext::new(source, &config, 4);
    assert_eq!(ctx.get_line_start(0), 8);
}

#[test]
fn test_get_line_start_mixed() {
    let source = "  \tint x = 1;";
    let config = create_test_config();
    let ctx = HandlerContext::new(source, &config, 4);
    assert_eq!(ctx.get_line_start(0), 4);
}

#[test]
fn test_expanded_tabs_column() {
    let config = create_test_config();
    let ctx = HandlerContext::new("", &config, 4);

    assert_eq!(ctx.expanded_tabs_column("\tint x;", 1), 4);
    assert_eq!(ctx.expanded_tabs_column("ab\tx;", 3), 4);
    assert_eq!(ctx.expanded_tabs_column("abcd\tx;", 5), 8);
}

#[test]
fn test_multiline() {
    let source = "class Foo {\n    int x;\n}";
    let config = create_test_config();
    let ctx = HandlerContext::new(source, &config, 4);

    assert_eq!(ctx.get_line_start(0), 0);
    assert_eq!(ctx.get_line_start(1), 4);
    assert_eq!(ctx.get_line_start(2), 0);
}

#[test]
fn test_multiline_crlf() {
    let source = "class Foo {\r\n    int x;\r\n}";
    let config = create_test_config();
    let ctx = HandlerContext::new(source, &config, 4);

    assert_eq!(ctx.get_line_start(0), 0);
    assert_eq!(ctx.get_line_start(1), 4);
    assert_eq!(ctx.get_line_start(2), 0);
}

#[test]
fn test_line_offsets_crlf() {
    let source = "class Foo {\r\n    int x;\r\n}";
    let config = create_test_config();
    let ctx = HandlerContext::new(source, &config, 4);

    assert_eq!(ctx.line_no_from_offset(TextSize::new(0)), 0);
    assert_eq!(ctx.line_no_from_offset(TextSize::new(5)), 0);
    assert_eq!(ctx.line_no_from_offset(TextSize::new(13)), 1);
    assert_eq!(ctx.line_no_from_offset(TextSize::new(17)), 1);
    assert_eq!(ctx.line_no_from_offset(TextSize::new(25)), 2);
}

#[test]
fn test_many_lines_crlf() {
    let mut source = String::new();
    for i in 0..130 {
        source.push_str(&format!("line{}\r\n", i));
    }
    source.push_str("    final_line");

    let config = create_test_config();
    let ctx = HandlerContext::new(&source, &config, 4);

    assert_eq!(ctx.get_line_start(130), 4);
}

#[test]
fn indentation_get_line_strips_cr_and_ends_after_final_newline() {
    let config = create_test_config();
    let ctx = HandlerContext::new("a\r\nb\n", &config, 4);
    assert_eq!(ctx.get_line(0), Some("a"));
    assert_eq!(ctx.get_line(1), Some("b"));
    assert_eq!(ctx.get_line(2), None);
    assert_eq!(ctx.get_line_start(7), 0);
    assert_eq!(ctx.line_start_offset(1), 3);
    assert_eq!(ctx.line_start_offset(9), 0);
}

#[test]
fn indentation_default_and_config() {
    let d = Indentation::default();
    assert_eq!(d.basic_offset, 4);
    assert_eq!(d.brace_adjustment, 0);
    assert_eq!(d.case_indent, 4);
    assert_eq!(d.tab_width, 4);
    assert!(!d.force_strict_condition);
    let mut props = Properties::new();
    props.insert("basicOffset", "2");
    props.insert("braceAdjustment", "-2");
    props.insert("caseIndent", "x");
    props.insert("forceStrictCondition", "true");
    props.insert("tabWidth", "8");
    let c = Indentation::from_config(&props);
    assert_eq!(c.basic_offset, 2);
    assert_eq!(c.brace_adjustment, -2);
    assert_eq!(c.case_indent, 4);
    assert_eq!(c.throws_indent, 4);
    assert!(c.force_strict_condition);
    assert_eq!(c.tab_width, 8);
    assert_eq!(c.name(), "Indentation");
    assert_eq!(c.relevant_kinds(), vec!["program"]);
}

#[test]
fn indentation_messages() {
    let e = IndentationError { element: "method def".to_string(), actual: 2, expected: "4".to_string() };
    assert_eq!(e.message(), "'method def' has incorrect indentation level 2, expected level should be 4");
    let c = IndentationChildError { parent: "if".to_string(), actual: -1, expected: "8, 12".to_string() };
    assert_eq!(c.message(), "'if' child has incorrect indentation level -1, expected level should be 8, 12");
    assert_eq!(c.kind().name, "IndentationChildError");
}

#[test]
fn indentation_log_error_with_fix() {
    let source = "class A {\n  int x;\n}\n";
    let tree = CstTree::parse(source).expect("parse");
    let config = create_test_config();
    let mut ctx = HandlerContext::new(source, &config, 4);
    let field = (0..tree.len()).find(|&i| tree.kind(i) == "field_declaration").unwrap();
    assert!(ctx.is_on_start_of_line(&tree, field));
    assert_eq!(ctx.column_from_node(&tree, field), 2);
    let expected = IndentLevel::new(4);
    ctx.log_error(&tree, field, "member def", 2, &expected);
    let ds = ctx.take_diagnostics();
    assert_eq!(ds.len(), 1);
    assert_eq!(ds[0].kind.name, "IndentationError");
    assert_eq!(ds[0].kind.body, "'member def' has incorrect indentation level 2, expected level should be 4");
    let fix = ds[0].fix.as_ref().unwrap();
    assert_eq!(fix.edits[0].content.as_deref(), Some("    "));
    assert_eq!(fix.edits[0].range.start.raw, 10);
    assert_eq!(fix.edits[0].range.end.raw, 12);
    assert!(ctx.take_diagnostics().is_empty());
}

#[test]
fn indentation_child_error_fix_deletes_for_level_zero() {
    let source = "  class A {}\n";
    let tree = CstTree::parse(source).expect("parse");
    let config = create_test_config();
    let mut ctx = HandlerContext::new(source, &config, 4);
    let class = (0..tree.len()).find(|&i| tree.kind(i) == "class_declaration").unwrap();
    ctx.log_child_error(&tree, class, "class def", 2, &IndentLevel::new(0));
    let ds = ctx.take_diagnostics();
    assert_eq!(ds[0].kind.body, "'class def' child has incorrect indentation level 2, expected level should be 0");
    let e = &ds[0].fix.as_ref().unwrap().edits[0];
    assert_eq!(e.content, None);
    assert_eq!((e.range.start.raw, e.range.end.raw), (0, 2));
}

#[test]
fn indentation_acceptance_by_strictness() {
    let config = create_test_config();
    let ctx = HandlerContext::new("", &config, 4);
    let lvl = IndentLevel::new(4).add_acceptable(&[8]);
    assert!(ctx.is_indent_acceptable(6, &lvl));
    assert!(!ctx.is_indent_exact(6, &lvl));
    assert!(ctx.is_indent_exact(8, &lvl));
    let strict = Indentation { force_strict_condition: true, ..Indentation::default() };
    let ctx2 = HandlerContext::new("", &strict, 4);
    assert!(!ctx2.is_indent_acceptable(6, &lvl));
    assert_eq!(ctx2.get_line_start_from_str("\t x"), 5);
}

#[test]
fn indentation_fix_sets_expected_indentation() {
    let source = "class A {\n \t  int x;\n}\n";
    let tree = CstTree::parse(source).expect("parse");
    let config = create_test_config();
    let mut ctx = HandlerContext::new(source, &config, 4);
    let field = (0..tree.len()).find(|&i| tree.kind(i) == "field_declaration").unwrap();
    let actual = ctx.get_line_start(1);
    assert_eq!(actual, 6);
    ctx.log_error(&tree, field, "member def", actual, &IndentLevel::new(4).add_acceptable(&[8]));
    let ds = ctx.take_diagnostics();
    let e = &ds[0].fix.as_ref().unwrap().edits[0];
    let mut fixed = String::new();
    fixed.push_str(&source[..e.range.start.raw as usize]);
    fixed.push_str(e.content.as_deref().unwrap_or(""));
    fixed.push_str(&source[e.range.end.raw as usize..]);
    let ctx2 = HandlerContext::new(&fixed, &config, 4);
    assert_eq!(ctx2.get_line_start(1), 4);
    assert_eq!(fixed, "class A {\n    int x;\n}\n");
}
