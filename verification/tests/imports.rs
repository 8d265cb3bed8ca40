use lintal_linter::cst::CstNode;
use lintal_linter::rules::imports::common::{collect_imports, get_package_name};
use lintal_linter::names::NameSet;
use lintal_linter::rules::imports::javadoc::{
    add_first_groups, add_throws, collect_javadoc_references, first_segment, group,
};
use lintal_linter::rules::imports::usages::collect_type_usages;
use lintal_linter::source_index::LineIndex;
use lintal_linter::text::TextRange;

fn convert(node: tree_sitter::Node, field: Option<&str>) -> CstNode {
    let mut children = Vec::new();
    for i in 0..node.child_count() {
        let child = node.child(i).unwrap();
        children.push(convert(child, node.field_name_for_child(i)));
    }
    let range = TextRange::new(node.start_byte() as u32, node.end_byte() as u32);
    CstNode::new(node.kind(), field, range, children)
}

fn parse(source: &str) -> CstNode {
    let mut parser = tree_sitter::Parser::new();
    parser
        .set_language(&tree_sitter_java::LANGUAGE.into())
        .unwrap();
    let tree = parser.parse(source, None).unwrap();
    convert(tree.root_node(), None)
}

#[test]
fn test_collect_simple_import() {
    let source = r#"
import java.util.List;

class Test {}
"#;
    let root = parse(source);
    let line_index = LineIndex::from_source_text(source);

    let imports = collect_imports(&root, source, &line_index);

    assert_eq!(imports.len(), 1);
    assert_eq!(imports[0].path, "java.util.List");
    assert_eq!(imports[0].simple_name, Some("List".to_string()));
    assert!(!imports[0].is_static);
    assert!(!imports[0].is_wildcard);
}

#[test]
fn test_collect_wildcard_import() {
    let source = r#"
import java.util.*;

class Test {}
"#;
    let root = parse(source);
    let line_index = LineIndex::from_source_text(source);

    let imports = collect_imports(&root, source, &line_index);

    assert_eq!(imports.len(), 1);
    assert_eq!(imports[0].path, "java.util.*");
    assert!(imports[0].simple_name.is_none());
    assert!(imports[0].is_wildcard);
}

#[test]
fn test_collect_static_import() {
    let source = r#"
import static java.lang.Math.PI;

class Test {}
"#;
    let root = parse(source);
    let line_index = LineIndex::from_source_text(source);

    let imports = collect_imports(&root, source, &line_index);

    assert_eq!(imports.len(), 1);
    assert!(imports[0].is_static);
    assert_eq!(imports[0].simple_name, Some("PI".to_string()));
}

#[test]
fn test_get_package_name() {
    let source = r#"
package com.example.myapp;

import java.util.List;

class Test {}
"#;
    let root = parse(source);

    let package = get_package_name(&root, source);

    assert_eq!(package, Some("com.example.myapp".to_string()));
}

#[test]
fn test_no_package() {
    let source = r#"
import java.util.List;

class Test {}
"#;
    let root = parse(source);

    let package = get_package_name(&root, source);

    assert!(package.is_none());
}

#[test]
fn test_collect_type_usages_declaration() {
    let source = r#"
class Test {
    List<String> items;
}
"#;
    let root = parse(source);

    let usages = collect_type_usages(&root, source);

    assert!(usages.contains("List"));
    assert!(usages.contains("String"));
}

#[test]
fn test_collect_type_usages_annotation() {
    let source = r#"
@Override
class Test {
    @Deprecated
    void method() {}
}
"#;
    let root = parse(source);

    let usages = collect_type_usages(&root, source);

    assert!(usages.contains("Override"));
    assert!(usages.contains("Deprecated"));
}

#[test]
fn test_collect_type_usages_method_call() {
    let source = r#"
class Test {
    void method() {
        Arrays.sort(items);
    }
}
"#;
    let root = parse(source);

    let usages = collect_type_usages(&root, source);

    assert!(usages.contains("Arrays"));
}

#[test]
fn test_collect_type_usages_inner_class() {
    let source = r#"
class Test {
    JToolBar.Separator sep;
}
"#;
    let root = parse(source);

    let usages = collect_type_usages(&root, source);

    assert!(
        usages.contains("JToolBar"),
        "Should capture outer class from inner class reference"
    );
}

#[test]
fn test_javadoc_link() {
    let source = r#"
/**
 * See {@link List} for details.
 */
class Test {}
"#;
    let root = parse(source);

    let refs = collect_javadoc_references(&root, source);

    assert!(refs.contains("List"));
}

#[test]
fn test_javadoc_link_with_method() {
    let source = r#"
/**
 * Uses {@link Arrays#sort(Object[])} internally.
 */
class Test {}
"#;
    let root = parse(source);

    let refs = collect_javadoc_references(&root, source);

    assert!(refs.contains("Arrays"));
    assert!(refs.contains("Object"));
}

#[test]
fn test_javadoc_see() {
    let source = r#"
/**
 * @see Calendar
 */
class Test {}
"#;
    let root = parse(source);

    let refs = collect_javadoc_references(&root, source);

    assert!(refs.contains("Calendar"));
}

#[test]
fn test_javadoc_throws() {
    let source = r#"
/**
 * @throws IOException if error
 * @exception RuntimeException if bad
 */
class Test {}
"#;
    let root = parse(source);

    let refs = collect_javadoc_references(&root, source);

    assert!(refs.contains("IOException"));
    assert!(refs.contains("RuntimeException"));
}

#[test]
fn lower_case_targets_are_not_types() {
    let source = r#"
class Test {
    void method() {
        helper.run(items);
        Arrays.sort(items);
        int n = counter.size + Limits.MAX;
    }
}
"#;
    let root = parse(source);
    let usages = collect_type_usages(&root, source);
    assert!(usages.contains("Arrays"));
    assert!(usages.contains("Limits"));
    assert!(usages.contains("items"));
    assert!(!usages.contains("run"));
    assert!(!usages.contains("sort"));
    assert!(!usages.contains("Test"));
    assert!(!usages.contains("method"));
    assert!(!usages.contains("n"));
}

#[test]
fn declared_names_and_imports_are_no_usages() {
    let source = r#"
package com.example;
import java.util.List;
class Test {
    void method(int parameter) {
        run(x -> x);
        to();
    }
}
"#;
    let root = parse(source);
    let usages = collect_type_usages(&root, source);
    assert!(!usages.contains("List"));
    assert!(!usages.contains("com"));
    assert!(!usages.contains("parameter"));
    assert!(usages.contains("run"));
    assert!(usages.contains("to"));
}

#[test]
fn javadoc_references_take_the_first_part_of_a_qualified_exception() {
    let source = r#"
/**
 * @throws Outer.Inner if error
 * @see java.util.Map#put(Key, Value)
 * {@linkplain Text some text}
 */
class Test {}
/* {@link Plain} */
class Other {}
"#;
    let root = parse(source);
    let refs = collect_javadoc_references(&root, source);
    assert_eq!(
        refs.names,
        vec![
            "Text".to_string(),
            "Map".to_string(),
            "Key".to_string(),
            "Value".to_string(),
            "Outer".to_string()
        ]
    );
}

#[test]
fn imports_carry_their_line_and_range() {
    let source = "package p;\n\nimport a.B;\nimport static c.D.*;\nclass T {}\n";
    let root = parse(source);
    let line_index = LineIndex::from_source_text(source);
    let imports = collect_imports(&root, source, &line_index);
    assert_eq!(imports.len(), 2);
    assert_eq!(imports[0].line, 3);
    assert_eq!(imports[0].range, TextRange::new(12, 23));
    assert_eq!(imports[0].package(), Some("a"));
    assert_eq!(imports[1].line, 4);
    assert_eq!(imports[1].path, "c.D.*");
    assert!(imports[1].is_static);
    assert!(imports[1].is_wildcard);
    assert_eq!(imports[1].package(), Some("c.D"));
}

#[test]
fn groups_of_matches_are_added_as_names() {
    let matches = vec![
        vec![Some("@throws a.B".to_string()), Some("a.B".to_string())],
        vec![Some("x".to_string()), None],
        vec![Some("y".to_string())],
        vec![Some("@throws C".to_string()), Some("C".to_string())],
    ];
    assert_eq!(group(&matches[0], 1), Some("a.B"));
    assert_eq!(group(&matches[1], 1), None);
    assert_eq!(group(&matches[2], 1), None);
    let mut firsts = NameSet::new();
    add_first_groups(&matches, &mut firsts);
    assert_eq!(firsts.names, vec!["a.B".to_string(), "C".to_string()]);
    let mut thrown = NameSet::new();
    add_throws(&matches, &mut thrown);
    assert_eq!(thrown.names, vec!["a".to_string(), "C".to_string()]);
    assert_eq!(first_segment("Outer.Inner.Deep"), "Outer");
    assert_eq!(first_segment("Plain"), "Plain");
    assert_eq!(first_segment(".x"), "");
}
