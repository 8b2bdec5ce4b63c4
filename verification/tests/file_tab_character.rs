use lintal_linter::config::Properties;
use lintal_linter::cst::CstTree;
use lintal_linter::diagnostics::Diagnostic;
use lintal_linter::rules::file_tab_character::{create_tab_fix, FileTabCharacter};

fn check_with(source: &str, rule: &FileTabCharacter) -> Vec<Diagnostic> {
    let tree = CstTree::parse(source).expect("parse");
    let mut diagnostics = vec![];
    for node in 0..tree.len() {
        diagnostics.extend(rule.check(&tree, node));
    }
    diagnostics
}

#[test]
fn test_visual_column_calculation() {
    // Simple case: tab at start of line
    let line = "\tfoo";
    let tab_pos = 0;
    let fix = create_tab_fix(line, tab_pos, 0, 8);
    // Should replace with 8 spaces (visual column 0 -> next stop at 8)
    assert_eq!(
        fix.edits()[0].content().unwrap(),
        "        " // 8 spaces
    );
}

#[test]
fn test_tab_after_text() {
    // Tab after 3 chars: visual column 3, next stop at 8, need 5 spaces
    let line = "foo\tbar";
    let tab_pos = 3;
    let fix = create_tab_fix(line, tab_pos, 3, 8);
    assert_eq!(
        fix.edits()[0].content().unwrap(),
        "     " // 5 spaces
    );
}

#[test]
fn test_tab_width_4() {
    // Tab width of 4: after 3 chars, next stop at 4, need 1 space
    let line = "foo\tbar";
    let tab_pos = 3;
    let fix = create_tab_fix(line, tab_pos, 3, 4);
    assert_eq!(fix.edits()[0].content().unwrap(), " "); // 1 space
}

#[test]
fn test_multiple_tabs() {
    // Two tabs at start with tab_width 4
    let line = "\t\tfoo";

    // First tab: column 0 -> 4 spaces
    let fix1 = create_tab_fix(line, 0, 0, 4);
    assert_eq!(fix1.edits()[0].content().unwrap(), "    ");

    // Second tab would need recalculation after first is fixed
}

#[test]
fn file_tab_first_instance_only() {
    let source = "class Foo {\n\tint x;\n\tint y;\n}\n";
    let diagnostics = check_with(source, &FileTabCharacter::default());
    assert_eq!(diagnostics.len(), 1);
    assert_eq!(diagnostics[0].kind.body, "File contains tab characters (this is the first instance)");
    assert_eq!(diagnostics[0].range.start.raw, 12);
    assert_eq!(diagnostics[0].fix.as_ref().unwrap().edits()[0].content(), Some("        "));
}

#[test]
fn file_tab_each_line_and_config() {
    let mut p = Properties::new();
    p.insert("eachLine", "true");
    p.insert("tabWidth", "4");
    let rule = FileTabCharacter::from_config(&p);
    assert!(rule.each_line);
    assert_eq!(rule.tab_width, 4);
    let source = "class Foo {\r\n\tint x;\r\n  \tint y;\r\n}\r\n";
    let diagnostics = check_with(source, &rule);
    assert_eq!(diagnostics.len(), 2);
    assert_eq!(diagnostics[0].kind.body, "Line contains a tab character");
    assert_eq!(diagnostics[0].range.start.raw, 13);
    assert_eq!(diagnostics[1].range.start.raw, 24);
    assert_eq!(diagnostics[1].fix.as_ref().unwrap().edits()[0].content(), Some("  "));
    let mut q = Properties::new();
    q.insert("tabWidth", "wide");
    assert_eq!(FileTabCharacter::from_config(&q).tab_width, 8);
    assert!(check_with("class Foo {}\n", &rule).is_empty());
}
