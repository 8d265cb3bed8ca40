use lintal_linter::config::Properties;
use lintal_linter::cst::CstNode;
use lintal_linter::rule::{CheckContext, FromConfig, Rule};
use lintal_linter::rules::modifier::candidate::{CandidateState, ScopeData};
use lintal_linter::rules::modifier::common::is_declared_with;
use lintal_linter::rules::modifier::FinalLocalVariable;
use lintal_linter::source_index::LineIndex;
use lintal_linter::text::TextRange;

fn convert(node: tree_sitter::Node, field: Option<&str>) -> CstNode {
    let mut children = Vec::new();
    for i in 0..node.child_count() {
        let child = node.child(i).unwrap();
        children.push(convert(child, node.field_name_for_child(i)));
    }
    let range = TextRange::new(node.start_byte() as u32, node.end_byte() as u32);
    CstNode::new(node.kind(), field, range, children)
}

fn parse(source: &str) -> CstNode {
    let mut parser = tree_sitter::Parser::new();
    parser
        .set_language(&tree_sitter_java::LANGUAGE.into())
        .unwrap();
    let tree = parser.parse(source, None).unwrap();
    convert(tree.root_node(), None)
}

/// A violation at a specific location.
#[derive(Debug, Clone, PartialEq, Eq)]
struct Violation {
    line: usize,
    column: usize,
}

impl Violation {
    fn new(line: usize, column: usize) -> Self {
        Self { line, column }
    }
}

fn check_node(
    rule: &FinalLocalVariable,
    ctx: &CheckContext,
    index: &LineIndex,
    node: &CstNode,
    violations: &mut Vec<Violation>,
) {
    for diagnostic in rule.check(ctx, node) {
        let at = index.line_column(diagnostic.range.start());
        violations.push(Violation::new(at.line as usize, at.column as usize));
    }
    for child in node.children() {
        check_node(rule, ctx, index, child, violations);
    }
}

/// Runs the rule at every node of the source and collects the violations.
fn check_final_local_variable(source: &str, properties: Properties) -> Vec<Violation> {
    let root = parse(source);
    let rule = FinalLocalVariable::from_config(&properties);
    let ctx = CheckContext::new(source);
    let index = LineIndex::from_source_text(source);
    let mut violations = vec![];
    check_node(&rule, &ctx, &index, &root, &mut violations);
    violations
}

/// Verifies that the violations are exactly the expected ones.
fn verify_violations(violations: &[Violation], expected: &[Violation]) {
    let mut missing = vec![];
    let mut unexpected = vec![];

    for exp in expected {
        let matched = violations
            .iter()
            .any(|v| v.line == exp.line && v.column == exp.column);

        if !matched {
            missing.push(exp.clone());
        }
    }

    for actual in violations {
        let matched = expected
            .iter()
            .any(|v| v.line == actual.line && v.column == actual.column);

        if !matched {
            unexpected.push(actual.clone());
        }
    }

    if !missing.is_empty() || !unexpected.is_empty() {
        println!("\n=== Violations Report ===");
        if !missing.is_empty() {
            println!("\nMissing violations:");
            for v in &missing {
                println!("  {}:{}", v.line, v.column);
            }
        }
        if !unexpected.is_empty() {
            println!("\nUnexpected violations:");
            for v in &unexpected {
                println!("  {}:{}", v.line, v.column);
            }
        }
        panic!("Violation mismatch detected");
    }
}

#[test]
fn test_minimal_assignment_tracking() {
    let source = r#"
public class Test {
    public void test() {
        // Should report: never reassigned
        int a = 0;

        // Should NOT report: has final
        final int b = 1;

        // Should NOT report: incremented
        int c = 0;
        c++;

        // Should NOT report: compound assignment
        int d = 0;
        d += 5;

        // Should NOT report: reassigned
        int e = 0;
        e = 5;
    }
}
"#;

    let properties = Properties::new();
    let violations = check_final_local_variable(source, properties);

    let expected = vec![Violation::new(5, 13)];

    verify_violations(&violations, &expected);
}

#[test]
fn test_all_assignment_operators() {
    let source = r#"
public class Test {
    public void test() {
        // Should report: never reassigned
        int a = 0;

        // Should NOT report: simple assignment
        int b = 0;
        b = 5;

        // Should NOT report: compound assignments
        int c1 = 0;
        c1 += 5;

        int c2 = 0;
        c2 -= 3;

        int c3 = 0;
        c3 *= 2;

        int c4 = 0;
        c4 /= 2;

        int c5 = 0;
        c5 %= 3;

        int c6 = 0;
        c6 &= 1;

        int c7 = 0;
        c7 |= 2;

        int c8 = 0;
        c8 ^= 4;

        int c9 = 0;
        c9 <<= 1;

        int c10 = 0;
        c10 >>= 1;

        int c11 = 0;
        c11 >>>= 1;

        // Should NOT report: increment/decrement
        int d1 = 0;
        d1++;

        int d2 = 0;
        ++d2;

        int d3 = 0;
        d3--;

        int d4 = 0;
        --d4;

        // Should NOT report: assigned multiple times
        int e = 0;
        e = 1;
        e = 2;
    }
}
"#;

    let properties = Properties::new();
    let violations = check_final_local_variable(source, properties);

    let expected = vec![Violation::new(5, 13)];

    verify_violations(&violations, &expected);
}

#[test]
fn test_if_else_control_flow() {
    let source = r#"
public class Test {
    public void test() {
        // Assigned in both branches - should be final candidate
        int a; // violation at line 5
        if (true) {
            a = 1;
        } else {
            a = 2;
        }

        // Assigned in only one branch - should be final candidate
        int b; // violation at line 13
        if (true) {
            b = 1;
        }

        // Assigned before if, then again in if - NOT a candidate
        int c = 0;
        if (true) {
            c = 1;
        }

        // Assigned in both branches, then again after - NOT a candidate
        int d;
        if (true) {
            d = 1;
        } else {
            d = 2;
        }
        d = 3;

        // Assigned in if and else if - should be final candidate
        int e; // violation at line 34
        if (true) {
            e = 1;
        } else if (true) {
            e = 2;
        } else {
            e = 3;
        }
    }
}
"#;

    let properties = Properties::new();
    let violations = check_final_local_variable(source, properties);

    let expected = vec![
        Violation::new(5, 13),  // a
        Violation::new(13, 13), // b
        Violation::new(34, 13), // e
    ];

    verify_violations(&violations, &expected);
}

#[test]
fn test_reassignment_after_branches() {
    let source = r#"
public class Test {
    private void foo7() {
        int index;
        if (true) {
            index = 0;
        }
        else if (true) {
            index = 2;
        }
        else {
            return;
        }
        if (true) {
            index += 1;
        }
    }

    private void simple() {
        int a;
        if (true) {
            a = 1;
        } else {
            a = 2;
        }
    }
}
"#;

    let properties = Properties::new();
    let violations = check_final_local_variable(source, properties);

    let expected = vec![
        Violation::new(20, 13), // a
    ];

    verify_violations(&violations, &expected);
}

#[test]
fn test_switch_all_branches_assign() {
    let source = r#"
public class Test {
    void test(int x) {
        // Should report: assigned in all branches (including default)
        int a;
        switch (x) {
            case 1:
                a = 10;
                break;
            case 2:
                a = 20;
                break;
            default:
                a = 30;
                break;
        }
    }
}
"#;

    let properties = Properties::new();
    let violations = check_final_local_variable(source, properties);

    let expected = vec![Violation::new(5, 13)];

    verify_violations(&violations, &expected);
}

#[test]
fn test_switch_some_branches_assign() {
    let source = r#"
public class Test {
    void test(int x) {
        // SHOULD report: assigned in some branches, never reassigned
        int a;
        switch (x) {
            case 1:
                a = 10;
                break;
            case 2:
                // no assignment
                break;
            default:
                a = 30;
                break;
        }
    }
}
"#;

    let properties = Properties::new();
    let violations = check_final_local_variable(source, properties);

    let expected = vec![Violation::new(5, 13)];

    verify_violations(&violations, &expected);
}

#[test]
fn test_switch_reassignment_after_branches() {
    let source = r#"
public class Test {
    void test(int x) {
        // Should NOT report: assigned in branches then reassigned
        int a;
        switch (x) {
            case 1:
                a = 10;
                break;
            case 2:
                a = 20;
                break;
            default:
                a = 30;
                break;
        }
        a = 40;
    }
}
"#;

    let properties = Properties::new();
    let violations = check_final_local_variable(source, properties);

    let expected = vec![];

    verify_violations(&violations, &expected);
}

#[test]
fn test_switch_expression_arrow() {
    let source = r#"
public class Test {
    void test(int x) {
        // Should report: result of switch expression never reassigned
        int a = switch (x) {
            case 1 -> 10;
            case 2 -> 20;
            default -> 30;
        };

        // Should NOT report: reassigned
        int b = switch (x) {
            case 1 -> 100;
            default -> 200;
        };
        b = 50;
    }
}
"#;

    let properties = Properties::new();
    let violations = check_final_local_variable(source, properties);

    let expected = vec![Violation::new(5, 13)];

    verify_violations(&violations, &expected);
}

#[test]
fn test_switch_rule_assignment() {
    let source = r#"
public class Test {
    void test(int x) {
        // Should report: assigned in all arrow cases
        String res;
        switch (x) {
            case 1 -> res = "A";
            case 2 -> res = "B";
            default -> res = "C";
        }
    }
}
"#;

    let properties = Properties::new();
    let violations = check_final_local_variable(source, properties);

    let expected = vec![Violation::new(5, 16)];

    verify_violations(&violations, &expected);
}

#[test]
fn test_for_loop_assignment() {
    let source = r#"
public class Test {
    void test() {
        // Should NOT report: assigned in loop (multiple times)
        int sum = 0;
        for (int i = 0; i < 10; i++) {
            sum += i;
        }

        // Should NOT report: loop variable is updated in update section
        for (int j = 0; j < 10; j++) {
        }

        // Should NOT report: checkstyle skips ALL for-init variables
        // (even if they're never modified, like 'k' here)
        for (int k = 0; k < 10; ) {
        }
    }
}
"#;

    let properties = Properties::new();
    let violations = check_final_local_variable(source, properties);

    let expected: Vec<Violation> = vec![];

    verify_violations(&violations, &expected);
}

#[test]
fn test_while_loop_assignment() {
    let source = r#"
public class Test {
    void test() {
        // Should NOT report: assigned in loop (multiple times)
        int i = 0;
        while (i < 10) {
            i++;
        }

        // Should report: never assigned in loop
        int j = 0;
        while (j < 10) {
            // j not modified here, but condition uses it
            // This is still a violation because loop might not execute
            break;
        }
    }
}
"#;

    let properties = Properties::new();
    let violations = check_final_local_variable(source, properties);

    let expected = vec![Violation::new(11, 13)];

    verify_violations(&violations, &expected);
}

#[test]
fn test_do_while_loop_assignment() {
    let source = r#"
public class Test {
    void test() {
        // Should NOT report: assigned in loop
        int i = 0;
        do {
            i++;
        } while (i < 10);

        // Should report: not assigned in loop body
        int j = 0;
        do {
            // j not modified
        } while (j < 10);
    }
}
"#;

    let properties = Properties::new();
    let violations = check_final_local_variable(source, properties);

    let expected = vec![Violation::new(11, 13)];

    verify_violations(&violations, &expected);
}

#[test]
fn test_enhanced_for_loop_default() {
    let source = r#"
public class Test {
    void test() {
        int[] array = {1, 2, 3};

        // Should NOT report: validateEnhancedForLoopVariable is false by default
        for (int x : array) {
        }

        // Should NOT report: has final modifier
        for (final int y : array) {
        }

        // Should NOT report: reassigned in body
        for (int z : array) {
            z = z + 1;
        }
    }
}
"#;

    let properties = Properties::new();
    let violations = check_final_local_variable(source, properties);

    let expected = vec![Violation::new(4, 15)];

    verify_violations(&violations, &expected);
}

#[test]
fn test_enhanced_for_loop_validate_enabled() {
    let source = r#"
public class Test {
    void test() {
        int[] array = {1, 2, 3};

        // Should report: not final and not reassigned
        for (int x : array) {
        }

        // Should NOT report: has final modifier
        for (final int y : array) {
        }

        // Should NOT report: reassigned in body
        for (int z : array) {
            z = z + 1;
        }
    }
}
"#;

    let mut properties = Properties::new();
    properties.insert("validateEnhancedForLoopVariable", "true");
    let violations = check_final_local_variable(source, properties);

    let expected = vec![Violation::new(4, 15), Violation::new(7, 18)];

    verify_violations(&violations, &expected);
}

#[test]
fn test_variable_assigned_in_loop() {
    let source = r#"
public class Test {
    void test() {
        // Should NOT report: assigned in loop body (may execute multiple times)
        String result;
        for (int i = 0; i < 10; i++) {
            result = "value";
        }

        // Should report: declared in loop, never reassigned
        for (int j = 0; j < 10; j++) {
            String temp = "temp";
        }

        // Should NOT report: variable assigned outside loop then inside
        int count = 0;
        for (int k = 0; k < 10; k++) {
            count++;
        }
    }
}
"#;

    let properties = Properties::new();
    let violations = check_final_local_variable(source, properties);

    let expected = vec![
        Violation::new(12, 20), // temp
    ];

    verify_violations(&violations, &expected);
}

#[test]
fn test_from_config_defaults() {
    let properties = Properties::new();
    let rule = FinalLocalVariable::from_config(&properties);
    assert!(!rule.validate_enhanced_for_loop_variable);
    assert!(!rule.validate_unnamed_variables);
}

#[test]
fn test_from_config_custom() {
    let mut properties = Properties::new();
    properties.insert("validateEnhancedForLoopVariable", "true");
    properties.insert("validateUnnamedVariables", "true");
    let rule = FinalLocalVariable::from_config(&properties);
    assert!(rule.validate_enhanced_for_loop_variable);
    assert!(rule.validate_unnamed_variables);
}

fn reported_names(body: &str, properties: Properties) -> Vec<String> {
    let source = format!("class T {{ void m(boolean c, int[] xs) {{ {} }} }}", body);
    let root = parse(&source);
    let rule = FinalLocalVariable::from_config(&properties);
    let ctx = CheckContext::new(&source);
    let mut found = vec![];
    collect(&rule, &ctx, &root, &mut found);
    found.sort();
    found
}

fn collect(rule: &FinalLocalVariable, ctx: &CheckContext, node: &CstNode, found: &mut Vec<String>) {
    for diagnostic in rule.check(ctx, node) {
        assert_eq!(diagnostic.kind.name, "VariableShouldBeFinal");
        assert!(diagnostic.fix.is_none());
        let name = lintal_linter::text::slice_text(ctx.source(), diagnostic.range).unwrap();
        assert_eq!(
            diagnostic.kind.body,
            format!("Variable '{}' should be declared final.", name)
        );
        found.push(name.to_string());
    }
    for child in node.children() {
        collect(rule, ctx, child, found);
    }
}

fn names(expected: &[&str]) -> Vec<String> {
    expected.iter().map(|n| n.to_string()).collect()
}

#[test]
fn a_variable_that_is_never_assigned_is_reported() {
    assert_eq!(reported_names("int a;", Properties::new()), names(&["a"]));
    assert_eq!(reported_names("int a = 0;", Properties::new()), names(&["a"]));
    assert_eq!(
        reported_names("int a; int b = 1; use(a, b);", Properties::new()),
        names(&["a", "b"])
    );
}

#[test]
fn a_name_declared_again_takes_the_place_of_the_earlier_one() {
    let source = "class T { void m() { int x = 0; int x = 1; } }";
    let violations = check_final_local_variable(source, Properties::new());
    assert_eq!(violations, vec![Violation::new(1, 37)]);
    let source = "class T { void m() { int x = 0; x = 2; int x = 1; } }";
    let violations = check_final_local_variable(source, Properties::new());
    assert_eq!(violations, vec![Violation::new(1, 44)]);
    let source = "class T { void m() { int x = 0; int x = 1; x = 2; } }";
    let violations = check_final_local_variable(source, Properties::new());
    assert_eq!(violations, vec![]);
    let source = "class T { void m() { int x = 0; { int x = 1; } } }";
    let violations = check_final_local_variable(source, Properties::new());
    assert_eq!(violations, vec![Violation::new(1, 39), Violation::new(1, 26)]);
}

#[test]
fn a_scope_holds_one_candidate_for_each_name() {
    let mut scope = ScopeData::new(true);
    scope.add_variable("x".to_string(), TextRange::new(1, 2), true, false);
    scope.add_variable("y".to_string(), TextRange::new(3, 4), false, false);
    scope.mark_assigned("x", false);
    scope.mark_assigned("x", false);
    assert_eq!(scope.get_should_be_final().len(), 1);
    scope.add_variable("x".to_string(), TextRange::new(5, 6), false, false);
    assert_eq!(scope.variables.len(), 2);
    assert_eq!(scope.variables[0].name, "x");
    assert_eq!(scope.variables[0].range, TextRange::new(5, 6));
    assert!(!scope.variables[0].has_initializer);
    assert_eq!(scope.variables[0].state, CandidateState::Untouched);
    assert_eq!(scope.variables[1].name, "y");
    let finals = scope.get_should_be_final();
    assert_eq!(finals.len(), 2);
    assert_eq!(finals[0].range, TextRange::new(5, 6));
    assert_eq!(finals[1].range, TextRange::new(3, 4));
    scope.mark_assigned("y", true);
    assert_eq!(scope.variables[1].state, CandidateState::Disqualified);
    assert_eq!(scope.get_should_be_final().len(), 1);
    let quiet = ScopeData::new(false);
    assert!(quiet.get_should_be_final().is_empty());
}

#[test]
fn a_modifier_is_found_in_any_list_of_modifiers() {
    let leaf = |kind: &str| CstNode::new(kind, None, TextRange::new(0, 0), vec![]);
    let list = |held: Vec<CstNode>| CstNode::new("modifiers", None, TextRange::new(0, 0), held);
    let declaration =
        |children: Vec<CstNode>| CstNode::new("local_variable_declaration", None, TextRange::new(0, 0), children);
    assert!(is_declared_with(
        &declaration(vec![list(vec![leaf("static")]), list(vec![leaf("final")])]),
        "final"
    ));
    assert!(is_declared_with(&declaration(vec![leaf("int"), leaf("final")]), "final"));
    assert!(!is_declared_with(
        &declaration(vec![list(vec![leaf("static")]), leaf("int")]),
        "final"
    ));
    assert!(!is_declared_with(&declaration(vec![]), "final"));
}

#[test]
fn a_single_reassignment_disqualifies() {
    assert_eq!(reported_names("int b = 0; b = 5;", Properties::new()), names(&[]));
    assert_eq!(reported_names("int b; b = 5;", Properties::new()), names(&["b"]));
    assert_eq!(reported_names("int b; b = 5; b = 6;", Properties::new()), names(&[]));
}

#[test]
fn exclusive_branches_count_once() {
    assert_eq!(
        reported_names("int a; if (c) { a = 1; } else { a = 2; }", Properties::new()),
        names(&["a"])
    );
    assert_eq!(
        reported_names(
            "int d; if (c) { d = 1; } else { d = 2; } d = 3;",
            Properties::new()
        ),
        names(&[])
    );
    assert_eq!(
        reported_names("int e; if (c) { e = 1; e = 2; } else { e = 3; }", Properties::new()),
        names(&[])
    );
    assert_eq!(
        reported_names("int f; if (c) f = 1; else f = 2;", Properties::new()),
        names(&["f"])
    );
    assert_eq!(
        reported_names(
            "int g; try { run(); } catch (A x) { g = 1; } catch (B y) { g = 2; }",
            Properties::new()
        ),
        names(&["g"])
    );
}

#[test]
fn an_assignment_in_a_loop_disqualifies() {
    assert_eq!(
        reported_names("int i = 0; while (i < 10) { i++; }", Properties::new()),
        names(&[])
    );
    assert_eq!(
        reported_names("int n = 0; while (c) { use(n); }", Properties::new()),
        names(&["n"])
    );
    assert_eq!(
        reported_names("while (c) { int k = 1; use(k); }", Properties::new()),
        names(&["k"])
    );
    assert_eq!(
        reported_names("String r; do { r = next(); } while (c);", Properties::new()),
        names(&[])
    );
    assert_eq!(
        reported_names("while (c) { int v; v = 1; }", Properties::new()),
        names(&["v"])
    );
}

#[test]
fn excluded_bindings_are_never_reported() {
    assert_eq!(
        reported_names("apply((x, y) -> x); apply(z -> { return z; });", Properties::new()),
        names(&[])
    );
    assert_eq!(
        reported_names("try { run(); } catch (A | B ex) { use(ex); }", Properties::new()),
        names(&[])
    );
    assert_eq!(
        reported_names("for (int i = 0, j = 1; c; ) { use(i, j); }", Properties::new()),
        names(&[])
    );
    let mut all = Properties::new();
    all.insert("validateEnhancedForLoopVariable", "true");
    all.insert("validateUnnamedVariables", "true");
    assert_eq!(
        reported_names(
            "apply(x -> x); try { run(); } catch (A | B ex) { } for (int i = 0; c; ) { }",
            all
        ),
        names(&[])
    );
}

#[test]
fn unnamed_variables_are_checked_only_when_configured() {
    assert_eq!(reported_names("int _ = 0; int __ = 1;", Properties::new()), names(&["__"]));
    let mut properties = Properties::new();
    properties.insert("validateUnnamedVariables", "true");
    assert_eq!(reported_names("int _ = 0; int __ = 1;", properties), names(&["_", "__"]));
}

#[test]
fn a_lambda_body_has_a_scope_of_its_own() {
    assert_eq!(
        reported_names("Runnable r = () -> { int q = 1; use(q); };", Properties::new()),
        names(&["q", "r"])
    );
}

#[test]
fn initializers_and_constructors_are_analysed() {
    let source = "class T { static { int s = 1; } { int i = 2; } T() { int k = 3; } int f = 4; }";
    let violations = check_final_local_variable(source, Properties::new());
    assert_eq!(
        violations,
        vec![Violation::new(1, 39), Violation::new(1, 24), Violation::new(1, 58)]
    );
}
