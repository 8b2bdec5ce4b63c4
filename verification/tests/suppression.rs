use lintal_linter::cst::CstTree;
use lintal_linter::suppression::{PlainTextCommentFilterConfig, SuppressionContext};
use lintal_linter::text::TextSize;

#[test]
fn test_parse_line_comment_suppression() {
    let source = r#"
class Foo {
    // CHECKSTYLE:OFF:WhitespaceAround
    void method( int x ) { }
    // CHECKSTYLE:ON:WhitespaceAround
    void other() { }
}
"#;

    let filter = PlainTextCommentFilterConfig::checkstyle_default();
    let ctx = SuppressionContext::from_source(source, &[filter]);

    assert!(ctx.has_suppressions());

    let suppressed_pos = TextSize::new(source.find("void method").unwrap() as u32);
    assert!(ctx.is_suppressed("WhitespaceAround", suppressed_pos));

    let not_suppressed_pos = TextSize::new(source.find("void other").unwrap() as u32);
    assert!(!ctx.is_suppressed("WhitespaceAround", not_suppressed_pos));

    assert!(!ctx.is_suppressed("ParenPad", suppressed_pos));
}

#[test]
fn test_parse_block_comment_suppression() {
    let source = r#"
class Foo {
    /* CHECKSTYLE:OFF:EmptyBlock */
    void method() { }
    /* CHECKSTYLE:ON:EmptyBlock */
}
"#;

    let filter = PlainTextCommentFilterConfig::checkstyle_default();
    let ctx = SuppressionContext::from_source(source, &[filter]);

    let suppressed_pos = TextSize::new(source.find("void method").unwrap() as u32);
    assert!(ctx.is_suppressed("EmptyBlock", suppressed_pos));
}

#[test]
fn test_unclosed_suppression() {
    let source = r#"
class Foo {
    // CHECKSTYLE:OFF:WhitespaceAround
    void method( int x ) { }
}
"#;

    let filter = PlainTextCommentFilterConfig::checkstyle_default();
    let ctx = SuppressionContext::from_source(source, &[filter]);

    let pos = TextSize::new(source.find("void method").unwrap() as u32);
    assert!(ctx.is_suppressed("WhitespaceAround", pos));

    let end_pos = TextSize::new((source.len() - 5) as u32);
    assert!(ctx.is_suppressed("WhitespaceAround", end_pos));
}

#[test]
fn test_custom_pattern() {
    let source = r#"
class Foo {
    // @suppress:ParenPad
    void method( int x ) { }
    // @unsuppress:ParenPad
}
"#;

    let filter =
        PlainTextCommentFilterConfig::new(r"@suppress:(\w+)", r"@unsuppress:(\w+)", Some("$1")).unwrap();

    let ctx = SuppressionContext::from_source(source, &[filter]);

    let suppressed_pos = TextSize::new(source.find("void method").unwrap() as u32);
    assert!(ctx.is_suppressed("ParenPad", suppressed_pos));
}

#[test]
fn test_suppress_warnings_annotation() {
    let source = r#"
class Foo {
    @SuppressWarnings({"checkstyle:AvoidNestedBlocks", "checkstyle:MethodLength"})
    void method() {
        { int x = 1; }
    }
}
"#;

    let tree = CstTree::parse(source).expect("Failed to parse");

    let mut ctx = SuppressionContext::new();
    ctx.parse_suppress_warnings(&tree, 0);

    println!("Suppression regions: {:?}", ctx);

    assert!(ctx.has_suppressions(), "Should have suppressions");

    let nested_block_pos = TextSize::new(source.find("{ int x").unwrap() as u32);
    assert!(
        ctx.is_suppressed("AvoidNestedBlocks", nested_block_pos),
        "AvoidNestedBlocks should be suppressed"
    );
    assert!(
        ctx.is_suppressed("MethodLength", nested_block_pos),
        "MethodLength should be suppressed"
    );
}

#[test]
fn suppression_region_ends_before_on_comment() {
    let source = "class A {\n// CHECKSTYLE:OFF:R\nint a;\n// CHECKSTYLE:ON:R\nint b;\n}\n";
    let ctx = SuppressionContext::from_source(source, &[PlainTextCommentFilterConfig::checkstyle_default()]);
    let off = source.find("// CHECKSTYLE:OFF").unwrap() as u32;
    let on = source.find("// CHECKSTYLE:ON").unwrap() as u32;
    assert!(ctx.is_suppressed("R", TextSize::new(off)));
    assert!(ctx.is_suppressed("R", TextSize::new(on - 1)));
    assert!(!ctx.is_suppressed("R", TextSize::new(on)));
    assert!(!ctx.is_suppressed("R", TextSize::new(off - 1)));
}

#[test]
fn suppression_without_group_turns_off_every_rule() {
    let source = "class A {\n/* LINT-OFF */\nint a;\n/* LINT-ON */\n}\n";
    let filter = PlainTextCommentFilterConfig::new("LINT-OFF", "LINT-ON", None).unwrap();
    assert_eq!(filter.check_format_group, 0);
    let ctx = SuppressionContext::from_source(source, &[filter]);
    let pos = TextSize::new(source.find("int a").unwrap() as u32);
    assert!(ctx.is_suppressed("Anything", pos));
    assert!(ctx.is_suppressed("Other", pos));
}

#[test]
fn suppression_invalid_pattern_is_rejected() {
    assert!(PlainTextCommentFilterConfig::new("foo(", "bar", Some("$1")).is_none());
    assert!(PlainTextCommentFilterConfig::new("foo", "bar(", Some("$1")).is_none());
    let f = PlainTextCommentFilterConfig::new("a", "b", Some("$2")).unwrap();
    assert_eq!(f.check_format_group, 2);
    let g = PlainTextCommentFilterConfig::new("a", "b", Some("x")).unwrap();
    assert_eq!(g.check_format_group, 0);
}

#[test]
fn suppression_empty_context() {
    let ctx = SuppressionContext::default();
    assert!(!ctx.has_suppressions());
    assert!(!ctx.is_suppressed("X", TextSize::new(0)));
    let ctx2 = SuppressionContext::from_source("class A {}", &[PlainTextCommentFilterConfig::checkstyle_default()]);
    assert!(!ctx2.has_suppressions());
}

#[test]
fn suppression_annotation_single_value_and_other_strings() {
    let source = "class A {\n    @SuppressWarnings(\"checkstyle:ParenPad\")\n    int x;\n    @SuppressWarnings(\"unchecked\")\n    int y;\n}\n";
    let tree = CstTree::parse(source).expect("parse");
    let mut ctx = SuppressionContext::new();
    ctx.parse_suppress_warnings(&tree, 0);
    let x = TextSize::new(source.find("int x").unwrap() as u32);
    let y = TextSize::new(source.find("int y").unwrap() as u32);
    assert!(ctx.is_suppressed("ParenPad", x));
    assert!(!ctx.is_suppressed("ParenPad", y));
    assert!(ctx.is_suppressed("unchecked", y));
    assert!(!ctx.is_suppressed("unchecked", x));
}

#[test]
fn suppression_more_filters_keep_suppressions() {
    let source = "class A {\n// CHECKSTYLE:OFF:R\nint a;\n// @off:Q\nint b;\n}\n";
    let one = SuppressionContext::from_source(source, &[PlainTextCommentFilterConfig::checkstyle_default()]);
    let custom = PlainTextCommentFilterConfig::new(r"@off:(\w+)", r"@on:(\w+)", Some("$1")).unwrap();
    let two = SuppressionContext::from_source(source, &[PlainTextCommentFilterConfig::checkstyle_default(), custom]);
    for pos in 0..source.len() as u32 {
        for rule in ["R", "Q", "X"] {
            if one.is_suppressed(rule, TextSize::new(pos)) {
                assert!(two.is_suppressed(rule, TextSize::new(pos)));
            }
        }
    }
    let b = TextSize::new(source.find("int b").unwrap() as u32);
    assert!(!one.is_suppressed("Q", b));
    assert!(two.is_suppressed("Q", b));
}

#[test]
fn suppression_plain_rule_name_annotation() {
    let source = "class Foo {\n    @SuppressWarnings(\"MethodLength\")\n    void method() { }\n}\n";
    let tree = CstTree::parse(source).expect("parse");
    let mut ctx = SuppressionContext::new();
    ctx.parse_suppress_warnings(&tree, 0);
    let p = TextSize::new(source.find("void method").unwrap() as u32);
    assert!(ctx.is_suppressed("MethodLength", p));
    assert!(!ctx.is_suppressed("ParenPad", p));
}
