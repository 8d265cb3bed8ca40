//! Checks that there is only one statement per line.

use crate::config::Properties;
use crate::cst::CstNode;
use crate::diagnostics::{
    diagnostics_view, no_diagnostics, push_diagnostic, Diagnostic, DiagnosticView, EditView,
    FixAvailability, Violation,
};
use crate::rule::{CheckContext, FromConfig, Rule};
use crate::text::{no_newline_between, same_line, TextRange};
use vstd::prelude::*;
use vstd::string::{StringExecFns, StringSliceAdditionalSpecFns};
use vstd::utf8::encode_utf8;

verus! {

/// Violation: multiple statements on same line.
#[derive(Clone, Copy, Debug)]
pub struct OneStatementPerLineViolation;

impl Violation for OneStatementPerLineViolation {
    open spec fn name_text(&self) -> Seq<char> {
        "OneStatementPerLineViolation"@
    }

    open spec fn message_text(&self) -> Seq<char> {
        "Only one statement per line allowed."@
    }

    open spec fn availability(&self) -> FixAvailability {
        FixAvailability::Always
    }

    fn rule_name(&self) -> (r: &'static str) {
        "OneStatementPerLineViolation"
    }

    fn message(&self) -> (r: String) {
        String::from_str("Only one statement per line allowed.")
    }

    fn fix_availability(&self) -> (r: FixAvailability) {
        FixAvailability::Always
    }
}

/// Checks that no two statements share a line.
#[derive(Clone, Copy, Debug, PartialEq, Eq, Structural)]
pub struct OneStatementPerLine {
    /// Whether try-with-resources resources count as statements.
    pub treat_try_resources_as_statement: bool,
}

impl Default for OneStatementPerLine {
    fn default() -> (r: Self)
        ensures
            !r.treat_try_resources_as_statement,
    {
        OneStatementPerLine { treat_try_resources_as_statement: false }
    }
}

impl FromConfig for OneStatementPerLine {
    fn module_name() -> (r: &'static str)
        ensures
            r@ == "OneStatementPerLine"@,
    {
        "OneStatementPerLine"
    }

    fn from_config(properties: &Properties) -> (r: Self)
        ensures
            r.treat_try_resources_as_statement == properties.flag(
                "treatTryResourcesAsStatement"@,
                false,
            ),
    {
        let treat_try_resources_as_statement = properties.get_flag(
            "treatTryResourcesAsStatement",
            false,
        );
        OneStatementPerLine { treat_try_resources_as_statement }
    }
}

/// Whether nodes of the kind `kind` are statements.
pub open spec fn is_statement_kind(kind: Seq<char>) -> bool {
    ||| kind == "local_variable_declaration"@
    ||| kind == "expression_statement"@
    ||| kind == "return_statement"@
    ||| kind == "if_statement"@
    ||| kind == "for_statement"@
    ||| kind == "enhanced_for_statement"@
    ||| kind == "while_statement"@
    ||| kind == "do_statement"@
    ||| kind == "break_statement"@
    ||| kind == "continue_statement"@
    ||| kind == "throw_statement"@
    ||| kind == "try_statement"@
    ||| kind == "try_with_resources_statement"@
    ||| kind == "switch_expression"@
    ||| kind == "assert_statement"@
    ||| kind == "labeled_statement"@
    ||| kind == "synchronized_statement"@
    ||| kind == "yield_statement"@
    ||| kind == "explicit_constructor_invocation"@
}

/// Whether the children of a node of the kind `kind` are the statements of a
/// sequence.
pub open spec fn holds_statements(rule: OneStatementPerLine, kind: Seq<char>) -> bool {
    ||| kind == "block"@
    ||| kind == "constructor_body"@
    ||| kind == "switch_block_statement_group"@
    ||| (rule.treat_try_resources_as_statement && kind == "resource_specification"@)
}

/// Whether `node` counts as a statement for the rule.
pub open spec fn counts_as_statement(rule: OneStatementPerLine, node: CstNode) -> bool {
    is_statement_kind(node.kind@) || (rule.treat_try_resources_as_statement && node.kind@
        == "resource"@)
}

/// Where the last statement among the first `upto` nodes ends.
pub open spec fn previous_statement_end(
    rule: OneStatementPerLine,
    nodes: Seq<CstNode>,
    upto: int,
) -> Option<u32>
    decreases upto,
{
    if upto <= 0 || upto > nodes.len() {
        None
    } else if counts_as_statement(rule, nodes[upto - 1]) {
        Some(nodes[upto - 1].range.end)
    } else {
        previous_statement_end(rule, nodes, upto - 1)
    }
}

/// The diagnostic for a statement at `range` that follows, on the same line, a
/// statement that ends at `previous_end`: its fix puts a line break between them.
pub open spec fn same_line_statement(previous_end: u32, range: TextRange) -> DiagnosticView {
    DiagnosticView {
        name: "OneStatementPerLineViolation"@,
        body: "Only one statement per line allowed."@,
        fix_availability: FixAvailability::Always,
        range,
        fix: Some(
            seq![
                EditView {
                    range: TextRange { start: previous_end, end: range.start },
                    content: "\n"@,
                },
            ],
        ),
    }
}

/// What is reported of the node at `i`: a statement that begins on the line on
/// which the statement before it ends.
pub open spec fn statement_findings(
    rule: OneStatementPerLine,
    source: Seq<char>,
    nodes: Seq<CstNode>,
    i: int,
) -> Seq<DiagnosticView> {
    match previous_statement_end(rule, nodes, i) {
        Some(end) => if counts_as_statement(rule, nodes[i]) && no_newline_between(
            encode_utf8(source),
            end as int,
            nodes[i].range.start as int,
        ) {
            seq![same_line_statement(end, nodes[i].range)]
        } else {
            Seq::empty()
        },
        None => Seq::empty(),
    }
}

/// What is reported of the nodes from `from` on, in their order.
pub open spec fn statements_findings_from(
    rule: OneStatementPerLine,
    source: Seq<char>,
    nodes: Seq<CstNode>,
    from: int,
) -> Seq<DiagnosticView>
    decreases nodes.len() - from,
{
    if from < 0 || from >= nodes.len() {
        Seq::empty()
    } else {
        statement_findings(rule, source, nodes, from) + statements_findings_from(
            rule,
            source,
            nodes,
            from + 1,
        )
    }
}

/// What the rule reports at `node`: each statement of a sequence of statements
/// that shares a line with the statement before it.
pub open spec fn one_statement_per_line_findings(
    rule: OneStatementPerLine,
    source: Seq<char>,
    node: CstNode,
) -> Seq<DiagnosticView> {
    if holds_statements(rule, node.kind@) {
        statements_findings_from(rule, source, node.children@, 0)
    } else {
        Seq::empty()
    }
}

impl OneStatementPerLine {
    /// Whether `node` counts as a statement.
    pub fn is_statement(&self, node: &CstNode) -> (r: bool)
        ensures
            r == counts_as_statement(*self, *node),
    {
        node.kind_is("local_variable_declaration") || node.kind_is("expression_statement")
            || node.kind_is("return_statement") || node.kind_is("if_statement") || node.kind_is(
            "for_statement",
        ) || node.kind_is("enhanced_for_statement") || node.kind_is("while_statement")
            || node.kind_is("do_statement") || node.kind_is("break_statement") || node.kind_is(
            "continue_statement",
        ) || node.kind_is("throw_statement") || node.kind_is("try_statement") || node.kind_is(
            "try_with_resources_statement",
        ) || node.kind_is("switch_expression") || node.kind_is("assert_statement")
            || node.kind_is("labeled_statement") || node.kind_is("synchronized_statement")
            || node.kind_is("yield_statement") || node.kind_is("explicit_constructor_invocation")
            || (self.treat_try_resources_as_statement && node.kind_is("resource"))
    }
}

impl Rule for OneStatementPerLine {
    fn name(&self) -> (r: &'static str)
        ensures
            r@ == "OneStatementPerLine"@,
    {
        "OneStatementPerLine"
    }

    fn relevant_kinds(&self) -> (r: Option<Vec<&'static str>>)
        ensures
            r.is_none(),
    {
        None
    }

    fn is_relevant(&self, kind: &str) -> (r: bool)
        ensures
            r,
    {
        true
    }

    fn check(&self, ctx: &CheckContext, node: &CstNode) -> (r: Vec<Diagnostic>)
        ensures
            diagnostics_view(r@) == one_statement_per_line_findings(*self, ctx.source@, *node),
    {
        let mut found = no_diagnostics();
        let sequence = node.kind_is("block") || node.kind_is("constructor_body") || node.kind_is(
            "switch_block_statement_group",
        ) || (self.treat_try_resources_as_statement && node.kind_is("resource_specification"));
        if !sequence {
            return found;
        }
        let source = ctx.source();
        let mut previous: Option<u32> = None;
        let mut i: usize = 0;
        while i < node.children.len()
            invariant
                i <= node.children.len(),
                source@ == ctx.source@,
                previous == previous_statement_end(*self, node.children@, i as int),
                diagnostics_view(found@) + statements_findings_from(
                    *self,
                    ctx.source@,
                    node.children@,
                    i as int,
                ) == statements_findings_from(*self, ctx.source@, node.children@, 0),
            decreases node.children.len() - i,
        {
            let child = &node.children[i];
            let ghost before = diagnostics_view(found@);
            let ghost here = statement_findings(*self, ctx.source@, node.children@, i as int);
            let ghost rest = statements_findings_from(
                *self,
                ctx.source@,
                node.children@,
                i as int + 1,
            );
            if self.is_statement(child) {
                match previous {
                    Some(end) => {
                        if same_line(source, end, child.range.start) {
                            let diagnostic = Diagnostic::new(
                                &OneStatementPerLineViolation,
                                child.range,
                            ).with_fix(
                                TextRange::new(end, child.range.start),
                                String::from_str("\n"),
                            );
                            push_diagnostic(&mut found, diagnostic);
                        }
                    },
                    None => {},
                }
                previous = Some(child.range.end);
            }
            assert(diagnostics_view(found@) =~= before + here);
            assert((before + here) + rest =~= before + (here + rest));
            i += 1;
        }
        assert(diagnostics_view(found@) =~= statements_findings_from(
            *self,
            ctx.source@,
            node.children@,
            0,
        ));
        found
    }
}

} // verus!
