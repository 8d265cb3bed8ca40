use lintal_linter::cst::CstNode;
use lintal_linter::diagnostics::Diagnostic;
use lintal_linter::rule::{CheckContext, Rule};
use lintal_linter::rules::coding::OneStatementPerLine;
use lintal_linter::text::TextRange;

fn convert(node: tree_sitter::Node, field: Option<&str>) -> CstNode {
    let mut children = Vec::new();
    for i in 0..node.child_count() {
        let child = node.child(i).unwrap();
        children.push(convert(child, node.field_name_for_child(i)));
    }
    let range = TextRange::new(node.start_byte() as u32, node.end_byte() as u32);
    CstNode::new(node.kind(), field, range, children)
}

fn parse(source: &str) -> CstNode {
    let mut parser = tree_sitter::Parser::new();
    parser
        .set_language(&tree_sitter_java::LANGUAGE.into())
        .unwrap();
    let tree = parser.parse(source, None).unwrap();
    convert(tree.root_node(), None)
}

fn check_node(rule: &OneStatementPerLine, ctx: &CheckContext, node: &CstNode, found: &mut Vec<Diagnostic>) {
    found.extend(rule.check(ctx, node));
    for child in node.children() {
        check_node(rule, ctx, child, found);
    }
}

fn check_source(source: &str) -> Vec<Diagnostic> {
    let root = parse(source);
    let ctx = CheckContext::new(source);
    let rule = OneStatementPerLine::default();
    let mut diagnostics = vec![];
    check_node(&rule, &ctx, &root, &mut diagnostics);
    diagnostics
}

#[test]
fn test_two_statements_same_line() {
    let source = r#"
class Test {
    void method() {
        int a; int b;
    }
}
"#;
    let diagnostics = check_source(source);
    assert_eq!(diagnostics.len(), 1, "Expected 1 violation for two statements on same line");
}

#[test]
fn test_single_statement_per_line_ok() {
    let source = r#"
class Test {
    void method() {
        int a;
        int b;
    }
}
"#;
    let diagnostics = check_source(source);
    assert!(diagnostics.is_empty(), "Single statements per line should not cause violations");
}

#[test]
fn test_for_loop_header_ok() {
    let source = r#"
class Test {
    void method() {
        for (int i = 0; i < 10; i++) {}
    }
}
"#;
    let diagnostics = check_source(source);
    assert!(diagnostics.is_empty(), "For loop header should not cause violations");
}

#[test]
fn test_all_have_fixes() {
    let source = r#"
class Test {
    void method() {
        int a; int b;
        a = 1; b = 2;
    }
}
"#;
    let diagnostics = check_source(source);

    for diag in &diagnostics {
        assert!(diag.fix.is_some(), "All violations should have fixes");
    }
}

