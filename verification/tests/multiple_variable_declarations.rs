use lintal_linter::cst::CstNode;
use lintal_linter::diagnostics::Diagnostic;
use lintal_linter::rule::{CheckContext, Rule};
use lintal_linter::rules::coding::MultipleVariableDeclarations;
use lintal_linter::source_index::LineIndex;
use lintal_linter::text::TextRange;

fn convert(node: tree_sitter::Node, field: Option<&str>) -> CstNode {
    let mut children = Vec::new();
    for i in 0..node.child_count() {
        let child = node.child(i).unwrap();
        children.push(convert(child, node.field_name_for_child(i)));
    }
    let range = TextRange::new(node.start_byte() as u32, node.end_byte() as u32);
    CstNode::new(node.kind(), field, range, children)
}

fn parse(source: &str) -> CstNode {
    let mut parser = tree_sitter::Parser::new();
    parser
        .set_language(&tree_sitter_java::LANGUAGE.into())
        .unwrap();
    let tree = parser.parse(source, None).unwrap();
    convert(tree.root_node(), None)
}

fn check_node(rule: &MultipleVariableDeclarations, ctx: &CheckContext, node: &CstNode, found: &mut Vec<Diagnostic>) {
    found.extend(rule.check(ctx, node));
    for child in node.children() {
        check_node(rule, ctx, child, found);
    }
}

fn check_source(source: &str) -> Vec<Diagnostic> {
    let root = parse(source);
    let ctx = CheckContext::new(source);
    let rule = MultipleVariableDeclarations;
    let mut diagnostics = vec![];
    check_node(&rule, &ctx, &root, &mut diagnostics);
    diagnostics
}

#[derive(Debug, Clone)]
struct Violation {
    line: usize,
    message_type: &'static str,
}

fn check_multiple_variable_declarations(source: &str) -> Vec<Violation> {
    let line_index = LineIndex::from_source_text(source);
    let mut violations = vec![];
    for diagnostic in check_source(source) {
        let loc = line_index.line_column(diagnostic.range.start());
        let msg_type = if diagnostic.kind.body.contains("own statement") {
            "comma"
        } else {
            "same_line"
        };
        violations.push(Violation {
            line: loc.line as usize,
            message_type: msg_type,
        });
    }
    violations
}

#[test]
fn test_comma_separated_violation() {
    let source = r#"
class Test {
    int i, j;
}
"#;
    let diagnostics = check_source(source);
    assert_eq!(diagnostics.len(), 1, "Expected 1 violation for comma-separated variables");
    assert!(diagnostics[0].kind.body.contains("own statement"));
}

#[test]
fn test_same_line_violation() {
    let source = r#"
class Test {
    int i; int j;
}
"#;
    let diagnostics = check_source(source);
    assert_eq!(diagnostics.len(), 1, "Expected 1 violation for same-line declarations");
    assert!(diagnostics[0].kind.body.contains("per line"));
}

#[test]
fn test_separate_lines_ok() {
    let source = r#"
class Test {
    int i;
    int j;
}
"#;
    let diagnostics = check_source(source);
    assert!(diagnostics.is_empty(), "Separate lines should not cause violations");
}

#[test]
fn test_for_loop_ok() {
    let source = r#"
class Test {
    void method() {
        for (int i = 0, j = 0; i < 10; i++, j++) {}
    }
}
"#;
    let diagnostics = check_source(source);
    assert!(diagnostics.is_empty(), "For loop initializers should not cause violations");
}

#[test]
fn test_for_loop_exception() {
    let source = r#"
class Test {
    void method() {
        for (int i = 0, j = 0; i < 10; i++, j++) {}
    }
}
"#;
    let violations = check_multiple_variable_declarations(source);
    assert!(
        violations.is_empty(),
        "For loop initializers should be exempt, got: {:?}",
        violations
    );
}

