use lintal_linter::config::Properties;
use lintal_linter::cst::CstNode;
use lintal_linter::diagnostics::FixAvailability;
use lintal_linter::dump::dump_tree;
use lintal_linter::linter::{
    check_file, check_tree, sort, to_record, AnyRule, FileReport, Finding,
};
use lintal_linter::names::NameSet;
use lintal_linter::rule::{CheckContext, FromConfig, Rule};
use lintal_linter::rules::coding::{MultipleVariableDeclarations, OneStatementPerLine};
use lintal_linter::rules::imports::common::ImportInfo;
use lintal_linter::rules::imports::UnusedImports;
use lintal_linter::rules::modifier::FinalLocalVariable;
use lintal_linter::rules::naming::PackageName;
use lintal_linter::source_index::{LineColumn, LineIndex};
use lintal_linter::text::{same_line, slice_text, str_eq, TextRange};

fn convert(node: tree_sitter::Node, field: Option<&str>) -> CstNode {
    let mut children = Vec::new();
    for i in 0..node.child_count() {
        let child = node.child(i).unwrap();
        children.push(convert(child, node.field_name_for_child(i)));
    }
    let range = TextRange::new(node.start_byte() as u32, node.end_byte() as u32);
    CstNode::new(node.kind(), field, range, children)
}

fn parse(source: &str) -> CstNode {
    let mut parser = tree_sitter::Parser::new();
    parser
        .set_language(&tree_sitter_java::LANGUAGE.into())
        .unwrap();
    let tree = parser.parse(source, None).unwrap();
    convert(tree.root_node(), None)
}

fn final_rule() -> FinalLocalVariable {
    FinalLocalVariable::from_config(&Properties::new())
}

fn summary(findings: &[Finding]) -> Vec<(u32, usize, String)> {
    findings
        .iter()
        .map(|f| {
            (
                f.diagnostic.range.start(),
                f.rule_index,
                f.diagnostic.kind.body.clone(),
            )
        })
        .collect()
}

#[test]
fn comma_separated_locals_are_split_by_the_fix() {
    let source = "class T { void m(){ int i,j; } }";
    let root = parse(source);
    let rules = vec![AnyRule::MultipleVariableDeclarations(
        MultipleVariableDeclarations,
    )];
    let findings = check_tree(&rules, source, &root);
    assert_eq!(findings.len(), 1);
    let diagnostic = &findings[0].diagnostic;
    assert_eq!(
        diagnostic.kind.body,
        "Each variable declaration must be in its own statement."
    );
    assert_eq!(diagnostic.kind.fix_availability, FixAvailability::Always);
    let statement = source.find("int i,j;").unwrap() as u32;
    assert_eq!(diagnostic.range, TextRange::new(statement, statement + 8));
    let fix = diagnostic.fix.as_ref().unwrap();
    assert_eq!(fix.edits.len(), 1);
    assert_eq!(fix.edits[0].range, diagnostic.range);
    assert_eq!(fix.edits[0].content, "int i; int j;");
}

#[test]
fn split_keeps_modifiers_and_initializers() {
    let source = "class T { void m(){ final int a = 1, b[] = {2}; } }";
    let root = parse(source);
    let rules = vec![AnyRule::MultipleVariableDeclarations(
        MultipleVariableDeclarations,
    )];
    let findings = check_tree(&rules, source, &root);
    assert_eq!(findings.len(), 1);
    let fix = findings[0].diagnostic.fix.as_ref().unwrap();
    assert_eq!(fix.edits[0].content, "final int a = 1; final int b[] = {2};");
}

#[test]
fn two_statements_on_one_line_are_flagged_once() {
    let source = "class T { void m(){ int a; int b; } }";
    let root = parse(source);
    let rules = vec![AnyRule::OneStatementPerLine(OneStatementPerLine::default())];
    let findings = check_tree(&rules, source, &root);
    assert_eq!(findings.len(), 1);
    let diagnostic = &findings[0].diagnostic;
    assert_eq!(diagnostic.kind.body, "Only one statement per line allowed.");
    let second = source.find("int b;").unwrap() as u32;
    assert_eq!(diagnostic.range, TextRange::new(second, second + 6));
    let fix = diagnostic.fix.as_ref().unwrap();
    assert_eq!(fix.edits[0].range, TextRange::new(second - 1, second));
    assert_eq!(fix.edits[0].content, "\n");
}

#[test]
fn three_statements_on_one_line_are_flagged_twice() {
    let source = "class T { void m(){ a(); b(); c(); } }";
    let root = parse(source);
    let rules = vec![AnyRule::OneStatementPerLine(OneStatementPerLine::default())];
    assert_eq!(check_tree(&rules, source, &root).len(), 2);
}

#[test]
fn resources_count_as_statements_only_when_configured() {
    let source = "class T { void m(){ try (A a = f(); B b = g()) { } } }";
    let root = parse(source);
    let off = vec![AnyRule::OneStatementPerLine(OneStatementPerLine::default())];
    assert_eq!(check_tree(&off, source, &root).len(), 0);
    let mut properties = Properties::new();
    properties.insert("treatTryResourcesAsStatement", "true");
    let on = vec![AnyRule::OneStatementPerLine(
        OneStatementPerLine::from_config(&properties),
    )];
    assert_eq!(check_tree(&on, source, &root).len(), 1);
}

#[test]
fn running_twice_gives_the_same_findings() {
    let source = "class T { void m(){ int a = 0; int b; int c, d; } }";
    let root = parse(source);
    let rules = vec![
        AnyRule::FinalLocalVariable(final_rule()),
        AnyRule::OneStatementPerLine(OneStatementPerLine::default()),
        AnyRule::MultipleVariableDeclarations(MultipleVariableDeclarations),
    ];
    let first = check_tree(&rules, source, &root);
    let second = check_tree(&rules, source, &root);
    assert!(!first.is_empty());
    assert_eq!(format!("{:?}", first), format!("{:?}", second));
    let ctx = CheckContext::new(source);
    let rule = final_rule();
    assert_eq!(
        format!("{:?}", rule.check(&ctx, &root.children()[0])),
        format!("{:?}", rule.check(&ctx, &root.children()[0]))
    );
}

#[test]
fn findings_are_ordered_by_start_then_registration() {
    let source = "class T { void m(){ int a = 0; int b = 1; } }";
    let root = parse(source);
    let rules = vec![
        AnyRule::OneStatementPerLine(OneStatementPerLine::default()),
        AnyRule::FinalLocalVariable(final_rule()),
        AnyRule::MultipleVariableDeclarations(MultipleVariableDeclarations),
    ];
    let findings = check_tree(&rules, source, &root);
    let a = source.find("a = 0").unwrap() as u32;
    let second = source.find("int b").unwrap() as u32;
    let b = source.find("b = 1").unwrap() as u32;
    assert_eq!(
        summary(&findings),
        vec![
            (a, 1, "Variable 'a' should be declared final.".to_string()),
            (second, 0, "Only one statement per line allowed.".to_string()),
            (
                second,
                2,
                "Only one variable definition per line allowed.".to_string()
            ),
            (b, 1, "Variable 'b' should be declared final.".to_string()),
        ]
    );
    for pair in findings.windows(2) {
        let x = (pair[0].diagnostic.range.start(), pair[0].rule_index);
        let y = (pair[1].diagnostic.range.start(), pair[1].rule_index);
        assert!(x <= y);
    }
}

#[test]
fn sort_keeps_the_order_of_equal_findings() {
    let source = "class T { void m(){ int a = 0; int b = 1; } }";
    let root = parse(source);
    let rules = vec![AnyRule::FinalLocalVariable(final_rule())];
    let mut findings = check_tree(&rules, source, &root);
    assert_eq!(findings.len(), 2);
    let mut same = findings[0].clone();
    same.diagnostic.kind.body = "second".to_string();
    findings.insert(1, same);
    findings.reverse();
    let sorted = sort(findings);
    let bodies: Vec<&str> = sorted.iter().map(|f| f.diagnostic.kind.body.as_str()).collect();
    assert_eq!(
        bodies,
        vec![
            "second",
            "Variable 'a' should be declared final.",
            "Variable 'b' should be declared final."
        ]
    );
}

#[test]
fn rules_are_asked_only_about_their_kinds() {
    let package = PackageName::default();
    assert!(package.is_relevant("package_declaration"));
    assert!(!package.is_relevant("block"));
    assert!(final_rule().is_relevant("block"));
    assert!(UnusedImports::default().is_relevant("program"));
    assert!(!UnusedImports::default().is_relevant("class_body"));
    assert_eq!(package.name(), "PackageName");
    assert_eq!(final_rule().name(), "FinalLocalVariable");
    assert_eq!(AnyRule::UnusedImports(UnusedImports::default()).name(), "UnusedImports");
    assert_eq!(FinalLocalVariable::module_name(), "FinalLocalVariable");
}

#[test]
fn a_local_of_an_anonymous_class_is_reported_once() {
    let source = "class T { void m(){ Runnable r = new Runnable() { public void run() { int x = 0; } }; } }";
    let root = parse(source);
    let rules = vec![AnyRule::FinalLocalVariable(final_rule())];
    let findings = check_tree(&rules, source, &root);
    let r = source.find("r = new").unwrap() as u32;
    let x = source.find("x = 0").unwrap() as u32;
    assert_eq!(
        summary(&findings),
        vec![
            (r, 0, "Variable 'r' should be declared final.".to_string()),
            (x, 0, "Variable 'x' should be declared final.".to_string()),
        ]
    );
}

#[test]
fn an_assignment_in_an_inner_class_counts_for_the_inner_variable() {
    let source = "class T { void m(){ int x = 0; Object o = new Object() { void f() { int x = 1; x = 2; } }; } }";
    let root = parse(source);
    let rules = vec![AnyRule::FinalLocalVariable(final_rule())];
    let findings = check_tree(&rules, source, &root);
    let outer = source.find("x = 0").unwrap() as u32;
    let o = source.find("o = new").unwrap() as u32;
    let starts: Vec<u32> = findings.iter().map(|f| f.diagnostic.range.start()).collect();
    assert_eq!(starts, vec![outer, o]);
}

#[test]
fn unused_imports_are_reported_with_a_fix_that_removes_them() {
    let source = "import java.util.List;\nimport java.util.Map;\nimport java.io.*;\nimport static java.lang.Math.PI;\n/** See {@link Map}. */\nclass T { double f() { return PI; } }\n";
    let root = parse(source);
    let rules = vec![AnyRule::UnusedImports(UnusedImports::default())];
    let findings = check_tree(&rules, source, &root);
    assert_eq!(findings.len(), 1);
    let diagnostic = &findings[0].diagnostic;
    assert_eq!(diagnostic.kind.body, "Unused import - java.util.List.");
    assert_eq!(diagnostic.range, TextRange::new(0, 22));
    let fix = diagnostic.fix.as_ref().unwrap();
    assert_eq!(fix.edits[0].range, TextRange::new(0, 22));
    assert_eq!(fix.edits[0].content, "");

    let mut properties = Properties::new();
    properties.insert("processJavadoc", "false");
    let strict = vec![AnyRule::UnusedImports(UnusedImports::from_config(&properties))];
    let bodies: Vec<String> = check_tree(&strict, source, &root)
        .iter()
        .map(|f| f.diagnostic.kind.body.clone())
        .collect();
    assert_eq!(
        bodies,
        vec![
            "Unused import - java.util.List.".to_string(),
            "Unused import - java.util.Map.".to_string()
        ]
    );
}

#[test]
fn unused_imports_reads_its_option() {
    assert!(UnusedImports::default().process_javadoc);
    assert!(UnusedImports::from_config(&Properties::new()).process_javadoc);
    let mut properties = Properties::new();
    properties.insert("processJavadoc", "no");
    assert!(UnusedImports::from_config(&properties).process_javadoc);
    properties.insert("processJavadoc", "false");
    assert!(!UnusedImports::from_config(&properties).process_javadoc);
}

#[test]
fn package_name_message_names_the_pattern() {
    let source = "package Com.example;";
    let root = parse(source);
    let rules = vec![AnyRule::PackageName(PackageName::default())];
    let findings = check_tree(&rules, source, &root);
    assert_eq!(findings.len(), 1);
    assert_eq!(
        findings[0].diagnostic.kind.body,
        "Name 'Com.example' must match pattern '^[a-z]+(\\.[a-zA-Z_]\\w*)*$'."
    );
    assert_eq!(findings[0].diagnostic.range, TextRange::new(8, 19));
    assert!(findings[0].diagnostic.fix.is_none());
    assert_eq!(
        findings[0].diagnostic.kind.fix_availability,
        FixAvailability::Never
    );
}

#[test]
fn a_pattern_that_does_not_compile_falls_back_to_the_default() {
    let mut properties = Properties::new();
    properties.insert("format", "([a-z");
    let rule = PackageName::from_config(&properties);
    assert_eq!(rule.format_str, "^[a-z]+(\\.[a-zA-Z_]\\w*)*$");
    properties.insert("format", "^[a-z]+$");
    let rule = PackageName::from_config(&properties);
    assert_eq!(rule.format_str, "^[a-z]+$");
    assert!(rule.verdict("x", TextRange::new(0, 1), Some(true)).is_empty());
    assert!(rule.verdict("x", TextRange::new(0, 1), None).is_empty());
    assert_eq!(rule.verdict("X", TextRange::new(0, 1), Some(false)).len(), 1);
}

#[test]
fn properties_keep_the_latest_value_and_ignore_unknown_keys() {
    let mut properties = Properties::new();
    assert_eq!(properties.get("a"), None);
    properties.insert("a", "1");
    properties.insert("unknown", "x");
    properties.insert("a", "2");
    assert_eq!(properties.get("a"), Some("2"));
    assert!(!properties.get_flag("a", true));
    assert!(properties.get_flag("missing", true));
    assert!(!properties.get_flag("missing", false));
    properties.insert("validateUnnamedVariables", "yes");
    let rule = FinalLocalVariable::from_config(&properties);
    assert!(!rule.validate_unnamed_variables);
    assert!(!rule.validate_enhanced_for_loop_variable);
}

#[test]
fn line_index_gives_lines_and_columns_from_one() {
    let source = "ab\ncd\n\nx";
    let index = LineIndex::from_source_text(source);
    assert_eq!(index.starts, vec![0, 3, 6, 7]);
    assert_eq!(index.line_count(), 4);
    assert_eq!(index.line_column(0), LineColumn { line: 1, column: 1 });
    assert_eq!(index.line_column(2), LineColumn { line: 1, column: 3 });
    assert_eq!(index.line_column(3), LineColumn { line: 2, column: 1 });
    assert_eq!(index.line_column(6), LineColumn { line: 3, column: 1 });
    assert_eq!(index.line_column(7), LineColumn { line: 4, column: 1 });
    assert_eq!(index.line_column(20), LineColumn { line: 4, column: 14 });
    let empty = LineIndex::from_source_text("");
    assert_eq!(empty.line_column(0), LineColumn { line: 1, column: 1 });
}

#[test]
fn text_is_sliced_by_bytes_on_character_boundaries() {
    let source = "a\u{e9}b";
    assert_eq!(slice_text(source, TextRange::new(0, 1)), Some("a"));
    assert_eq!(slice_text(source, TextRange::new(1, 3)), Some("\u{e9}"));
    assert_eq!(slice_text(source, TextRange::new(1, 2)), None);
    assert_eq!(slice_text(source, TextRange::new(2, 4)), None);
    assert_eq!(slice_text(source, TextRange::new(3, 4)), Some("b"));
    assert_eq!(slice_text(source, TextRange::new(4, 4)), Some(""));
    assert_eq!(slice_text(source, TextRange::new(3, 5)), None);
    assert_eq!(slice_text(source, TextRange::new(3, 2)), None);
    assert!(str_eq("abc", "abc"));
    assert!(!str_eq("abc", "abd"));
    assert!(!str_eq("abc", "ab"));
    assert_eq!(TextRange::new(3, 7).len(), 4);
    assert_eq!(TextRange::new(7, 3).len(), 0);
    assert!(TextRange::new(7, 7).is_empty());
    assert_eq!(TextRange::new(3, 7).end(), 7);
}

#[test]
fn same_line_looks_for_a_line_feed_between_the_offsets() {
    let source = "ab\ncd";
    assert!(same_line(source, 0, 2));
    assert!(!same_line(source, 0, 3));
    assert!(!same_line(source, 2, 3));
    assert!(same_line(source, 3, 5));
    assert!(same_line(source, 3, 50));
    assert!(same_line(source, 5, 1));
}

#[test]
fn a_name_set_holds_each_name_once_in_order() {
    let mut names = NameSet::new();
    names.insert("b");
    names.insert("a");
    names.insert("b");
    assert_eq!(names.len(), 2);
    assert_eq!(names.names, vec!["b".to_string(), "a".to_string()]);
    assert!(names.contains("a"));
    assert!(!names.contains("c"));
}

#[test]
fn the_package_of_an_import_is_what_stands_before_its_last_part() {
    let import = |path: &str, is_wildcard: bool| ImportInfo {
        path: path.to_string(),
        simple_name: None,
        is_static: false,
        is_wildcard,
        range: TextRange::new(0, 0),
        line: 1,
    };
    assert_eq!(import("java.util.List", false).package(), Some("java.util"));
    assert_eq!(import("java.util.*", true).package(), Some("java.util"));
    assert_eq!(import("List", false).package(), None);
    assert_eq!(import("*", true).package(), None);
}

#[test]
fn nodes_give_their_fields_kinds_and_text() {
    let source = "class T { int a = 1; }";
    let root = parse(source);
    assert_eq!(root.kind(), "program");
    assert!(root.kind_is("program"));
    let class = &root.children()[0];
    let name = class.child_by_field_name("name").unwrap();
    assert_eq!(name.text(source), Some("T"));
    assert!(name.field_is("name"));
    assert!(!name.field_is("body"));
    assert!(class.child_by_field_name("nothing").is_none());
    let body = class.child_of_kind("class_body").unwrap();
    assert_eq!(body.start_byte(), 8);
    assert_eq!(body.end_byte(), 22);
    assert_eq!(body.range(), TextRange::new(8, 22));
    assert!(body.child_of_kind("block").is_none());
}

#[test]
fn records_carry_rule_names_and_positions() {
    let source = "class T {\n  void m() {\n    int a = 0;\n  }\n}\n";
    let root = parse(source);
    let rules = vec![AnyRule::FinalLocalVariable(final_rule())];
    let index = LineIndex::from_source_text(source);
    let mut findings = check_tree(&rules, source, &root);
    assert_eq!(findings.len(), 1);
    let record = to_record(findings.remove(0), &rules, &index);
    assert_eq!(record.rule_name, "FinalLocalVariable");
    assert_eq!(record.message, "Variable 'a' should be declared final.");
    assert_eq!(
        (record.line, record.column, record.end_line, record.end_column),
        (3, 9, 3, 10)
    );
    assert!(record.fix.is_none());
}

#[test]
fn the_listing_has_one_line_for_each_node() {
    let source = "class T {\n}\n";
    let root = parse(source);
    let index = LineIndex::from_source_text(source);
    let lines = dump_tree(&root, source, &index);
    let shown: Vec<(usize, &str, u64, u64, Option<&str>)> = lines
        .iter()
        .map(|l| {
            (
                l.depth,
                l.kind.as_str(),
                l.start.line,
                l.start.column,
                l.preview.as_deref(),
            )
        })
        .collect();
    assert_eq!(
        shown,
        vec![
            (0, "program", 1, 1, None),
            (1, "class_declaration", 1, 1, None),
            (2, "class", 1, 1, Some("class")),
            (2, "identifier", 1, 7, Some("T")),
            (2, "class_body", 1, 9, None),
            (3, "{", 1, 9, Some("{")),
            (3, "}", 2, 1, Some("}")),
        ]
    );
}

#[test]
fn the_listing_shows_forty_characters_of_a_leaf() {
    let source = "// 0123456789012345678901234567890123456789 and more\n";
    let root = parse(source);
    let index = LineIndex::from_source_text(source);
    let lines = dump_tree(&root, source, &index);
    assert_eq!(lines.len(), 2);
    assert_eq!(lines[1].kind, "line_comment");
    assert_eq!(
        lines[1].preview.as_deref(),
        Some("// 0123456789012345678901234567890123456")
    );
}

#[test]
fn the_format_is_chosen_by_whether_it_compiles() {
    assert_eq!(PackageName::with_format(Some("^x$"), true).format_str, "^x$");
    assert_eq!(
        PackageName::with_format(Some("^x$"), false).format_str,
        PackageName::default().format_str
    );
    assert_eq!(
        PackageName::with_format(None, true).format_str,
        "^[a-z]+(\\.[a-zA-Z_]\\w*)*$"
    );
}

#[test]
fn file_without_a_tree_is_unanalyzable() {
    let rules = vec![AnyRule::FinalLocalVariable(final_rule())];
    let source = "class T { void m(){ int a = 0; } }";
    assert!(matches!(
        check_file(&rules, source, None),
        FileReport::Unanalyzable
    ));
    let root = parse(source);
    match check_file(&rules, source, Some(&root)) {
        FileReport::Analyzed(found) => assert_eq!(found.len(), 1),
        FileReport::Unanalyzable => panic!("a tree was given"),
    }
}

#[test]
fn filters_name_the_kinds_that_a_rule_looks_at() {
    assert_eq!(
        AnyRule::PackageName(PackageName::default()).relevant_kinds(),
        Some(vec!["package_declaration"])
    );
    assert_eq!(
        AnyRule::UnusedImports(UnusedImports::default()).relevant_kinds(),
        Some(vec!["program"])
    );
    assert_eq!(AnyRule::FinalLocalVariable(final_rule()).relevant_kinds(), None);
    assert_eq!(OneStatementPerLine::default().relevant_kinds(), None);
    assert_eq!(MultipleVariableDeclarations.relevant_kinds(), None);
}

#[test]
fn the_listing_shows_line_breaks_as_arrows() {
    let source = "/* a\nb\n*/\n";
    let root = parse(source);
    let index = LineIndex::from_source_text(source);
    let lines = dump_tree(&root, source, &index);
    assert_eq!(lines.len(), 2);
    assert_eq!(lines[1].kind, "block_comment");
    assert_eq!(lines[1].preview.as_deref(), Some("/* a\u{21b5}b\u{21b5}*/"));
    assert_eq!(lintal_linter::dump::show_breaks("\n\u{e9}\n"), "\u{21b5}\u{e9}\u{21b5}");
    assert_eq!(lintal_linter::dump::show_breaks(""), "");
}
