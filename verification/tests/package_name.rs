use lintal_linter::config::Properties;
use lintal_linter::cst::CstNode;
use lintal_linter::diagnostics::Diagnostic;
use lintal_linter::rule::{CheckContext, FromConfig, Rule};
use lintal_linter::rules::naming::PackageName;
use lintal_linter::text::TextRange;

fn convert(node: tree_sitter::Node, field: Option<&str>) -> CstNode {
    let mut children = Vec::new();
    for i in 0..node.child_count() {
        let child = node.child(i).unwrap();
        children.push(convert(child, node.field_name_for_child(i)));
    }
    let range = TextRange::new(node.start_byte() as u32, node.end_byte() as u32);
    CstNode::new(node.kind(), field, range, children)
}

fn parse(source: &str) -> CstNode {
    let mut parser = tree_sitter::Parser::new();
    parser
        .set_language(&tree_sitter_java::LANGUAGE.into())
        .unwrap();
    let tree = parser.parse(source, None).unwrap();
    convert(tree.root_node(), None)
}

fn check_node(rule: &PackageName, ctx: &CheckContext, node: &CstNode, found: &mut Vec<Diagnostic>) {
    found.extend(rule.check(ctx, node));
    for child in node.children() {
        check_node(rule, ctx, child, found);
    }
}

fn check_source(source: &str, properties: Properties) -> Vec<Diagnostic> {
    let root = parse(source);
    let ctx = CheckContext::new(source);
    let rule = PackageName::from_config(&properties);
    let mut diagnostics = vec![];
    check_node(&rule, &ctx, &root, &mut diagnostics);
    diagnostics
}

#[test]
fn test_valid_package_name() {
    let source = "package com.example.mypackage;";
    let diagnostics = check_source(source, Properties::new());
    assert_eq!(diagnostics.len(), 0);
}

#[test]
fn test_valid_simple_package() {
    let source = "package example;";
    let diagnostics = check_source(source, Properties::new());
    assert_eq!(diagnostics.len(), 0);
}

#[test]
fn test_invalid_uppercase_start() {
    let source = "package Com.example;";
    let diagnostics = check_source(source, Properties::new());
    assert_eq!(diagnostics.len(), 1);
}

#[test]
fn test_custom_format() {
    let source = "package com.example.test;";
    let mut properties = Properties::new();
    properties.insert("format", "[A-Z]+");
    let diagnostics = check_source(source, properties);
    assert_eq!(diagnostics.len(), 1); // Doesn't match uppercase pattern
}

#[test]
fn test_custom_format_matches() {
    let source = "package EXAMPLE;";
    let mut properties = Properties::new();
    properties.insert("format", "^[A-Z]+$");
    let diagnostics = check_source(source, properties);
    assert_eq!(diagnostics.len(), 0); // Matches uppercase pattern
}

