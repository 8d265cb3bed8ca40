//! Checks that each variable is declared in its own statement and on its own line.

use crate::config::Properties;
use crate::cst::{first_of_kind, CstNode};
use crate::diagnostics::{
    diagnostics_view, no_diagnostics, push_diagnostic, Diagnostic, DiagnosticView, EditView,
    FixAvailability, Violation,
};
use crate::rule::{CheckContext, FromConfig, Rule};
use crate::text::{no_newline_between, same_line, slice_text, text_at, TextRange};
use vstd::prelude::*;
use vstd::string::{StringExecFns, StringSliceAdditionalSpecFns};
use vstd::utf8::encode_utf8;

verus! {

/// Violation: comma-separated variables in single declaration.
#[derive(Clone, Copy, Debug)]
pub struct MultipleInStatementViolation;

impl Violation for MultipleInStatementViolation {
    open spec fn name_text(&self) -> Seq<char> {
        "MultipleInStatementViolation"@
    }

    open spec fn message_text(&self) -> Seq<char> {
        "Each variable declaration must be in its own statement."@
    }

    open spec fn availability(&self) -> FixAvailability {
        FixAvailability::Always
    }

    fn rule_name(&self) -> (r: &'static str) {
        "MultipleInStatementViolation"
    }

    fn message(&self) -> (r: String) {
        String::from_str("Each variable declaration must be in its own statement.")
    }

    fn fix_availability(&self) -> (r: FixAvailability) {
        FixAvailability::Always
    }
}

/// Violation: multiple declarations on same line.
#[derive(Clone, Copy, Debug)]
pub struct MultipleOnLineViolation;

impl Violation for MultipleOnLineViolation {
    open spec fn name_text(&self) -> Seq<char> {
        "MultipleOnLineViolation"@
    }

    open spec fn message_text(&self) -> Seq<char> {
        "Only one variable definition per line allowed."@
    }

    open spec fn availability(&self) -> FixAvailability {
        FixAvailability::Always
    }

    fn rule_name(&self) -> (r: &'static str) {
        "MultipleOnLineViolation"
    }

    fn message(&self) -> (r: String) {
        String::from_str("Only one variable definition per line allowed.")
    }

    fn fix_availability(&self) -> (r: FixAvailability) {
        FixAvailability::Always
    }
}

/// Checks that every variable has a declaration and a line of its own.
#[derive(Clone, Copy, Debug, Default, PartialEq, Eq, Structural)]
pub struct MultipleVariableDeclarations;

impl FromConfig for MultipleVariableDeclarations {
    fn module_name() -> (r: &'static str)
        ensures
            r@ == "MultipleVariableDeclarations"@,
    {
        "MultipleVariableDeclarations"
    }

    fn from_config(_properties: &Properties) -> (r: Self) {
        MultipleVariableDeclarations
    }
}

/// Whether `node` declares variables: locals or fields.
pub open spec fn is_declaration(node: CstNode) -> bool {
    node.kind@ == "local_variable_declaration"@ || node.kind@ == "field_declaration"@
}

/// The number of declarators among the first `upto` nodes.
pub open spec fn count_declarators(nodes: Seq<CstNode>, upto: int) -> nat
    decreases upto,
{
    if upto <= 0 || upto > nodes.len() {
        0
    } else {
        count_declarators(nodes, upto - 1) + if nodes[upto - 1].kind@ == "variable_declarator"@ {
            1nat
        } else {
            0nat
        }
    }
}

/// Where the last declaration among the first `upto` nodes ends.
pub open spec fn previous_declaration_end(nodes: Seq<CstNode>, upto: int) -> Option<u32>
    decreases upto,
{
    if upto <= 0 || upto > nodes.len() {
        None
    } else if is_declaration(nodes[upto - 1]) {
        Some(nodes[upto - 1].range.end)
    } else {
        previous_declaration_end(nodes, upto - 1)
    }
}

/// The declarators among the first `upto` nodes, each written as a declaration of
/// its own: `prefix`, the declarator's text and a semicolon, with a blank between
/// one declaration and the next. Nothing where the text of a declarator cannot be
/// had.
pub open spec fn split_text(
    source: Seq<char>,
    prefix: Seq<char>,
    nodes: Seq<CstNode>,
    upto: int,
) -> Option<Seq<char>>
    decreases upto,
{
    if upto <= 0 || upto > nodes.len() {
        Some(Seq::empty())
    } else if nodes[upto - 1].kind@ != "variable_declarator"@ {
        split_text(source, prefix, nodes, upto - 1)
    } else {
        match (split_text(source, prefix, nodes, upto - 1), nodes[upto - 1].text_in(source)) {
            (Some(before), Some(text)) => Some(
                before + (if before.len() > 0 {
                    " "@
                } else {
                    Seq::<char>::empty()
                }) + prefix + text + ";"@,
            ),
            _ => None,
        }
    }
}

/// The text that replaces a declaration of several variables: one declaration
/// for each, all with what `declaration` has before its first declarator.
pub open spec fn split_declaration(source: Seq<char>, declaration: CstNode) -> Option<Seq<char>> {
    let nodes = declaration.children@;
    let first = first_of_kind(nodes, "variable_declarator"@, 0);
    if first >= nodes.len() {
        None
    } else {
        match text_at(
            source,
            TextRange { start: declaration.range.start, end: nodes[first].range.start },
        ) {
            Some(prefix) => split_text(source, prefix, nodes, nodes.len() as int),
            None => None,
        }
    }
}

/// The diagnostic for the declaration of several variables at `range`, with the
/// fix that puts `replacement` in its place, where there is one.
pub open spec fn in_statement_diagnostic(range: TextRange, replacement: Option<Seq<char>>)
    -> DiagnosticView {
    DiagnosticView {
        name: "MultipleInStatementViolation"@,
        body: "Each variable declaration must be in its own statement."@,
        fix_availability: FixAvailability::Always,
        range,
        fix: match replacement {
            Some(content) => Some(seq![EditView { range, content }]),
            None => None,
        },
    }
}

/// The diagnostic for a declaration at `range` that follows, on the same line, a
/// declaration that ends at `previous_end`: its fix puts a line break between
/// them.
pub open spec fn on_line_diagnostic(previous_end: u32, range: TextRange) -> DiagnosticView {
    DiagnosticView {
        name: "MultipleOnLineViolation"@,
        body: "Only one variable definition per line allowed."@,
        fix_availability: FixAvailability::Always,
        range,
        fix: Some(
            seq![
                EditView {
                    range: TextRange { start: previous_end, end: range.start },
                    content: "\n"@,
                },
            ],
        ),
    }
}

/// What is reported of a declaration that declares more than one variable.
pub open spec fn in_statement_findings(source: Seq<char>, node: CstNode) -> Seq<DiagnosticView> {
    if is_declaration(node) && count_declarators(node.children@, node.children@.len() as int)
        >= 2 {
        seq![in_statement_diagnostic(node.range, split_declaration(source, node))]
    } else {
        Seq::empty()
    }
}

/// What is reported of a declaration that begins on the line on which the
/// declaration before it ends.
pub open spec fn on_line_findings(source: Seq<char>, nodes: Seq<CstNode>, i: int) -> Seq<
    DiagnosticView,
> {
    match previous_declaration_end(nodes, i) {
        Some(end) => if is_declaration(nodes[i]) && no_newline_between(
            encode_utf8(source),
            end as int,
            nodes[i].range.start as int,
        ) {
            seq![on_line_diagnostic(end, nodes[i].range)]
        } else {
            Seq::empty()
        },
        None => Seq::empty(),
    }
}

/// What is reported of the nodes from `from` on, in their order.
pub open spec fn declarations_findings_from(source: Seq<char>, nodes: Seq<CstNode>, from: int)
    -> Seq<DiagnosticView>
    decreases nodes.len() - from,
{
    if from < 0 || from >= nodes.len() {
        Seq::empty()
    } else {
        in_statement_findings(source, nodes[from]) + on_line_findings(source, nodes, from)
            + declarations_findings_from(source, nodes, from + 1)
    }
}

/// What the rule reports at `node`: of each declaration among its children. The
/// header of a `for` loop may declare several variables.
pub open spec fn multiple_variable_declarations_findings(source: Seq<char>, node: CstNode) -> Seq<
    DiagnosticView,
> {
    if node.kind@ == "for_statement"@ {
        Seq::empty()
    } else {
        declarations_findings_from(source, node.children@, 0)
    }
}

impl MultipleVariableDeclarations {
    /// The number of variables that `declaration` declares.
    pub fn declarator_count(declaration: &CstNode) -> (r: usize)
        ensures
            r == count_declarators(declaration.children@, declaration.children@.len() as int),
    {
        let mut n: usize = 0;
        let mut i: usize = 0;
        while i < declaration.children.len()
            invariant
                i <= declaration.children.len(),
                n <= i,
                n == count_declarators(declaration.children@, i as int),
            decreases declaration.children.len() - i,
        {
            if declaration.children[i].kind_is("variable_declarator") {
                n += 1;
            }
            i += 1;
        }
        n
    }

    /// The text that declares each variable of `declaration` in a statement of
    /// its own.
    pub fn split(source: &str, declaration: &CstNode) -> (r: Option<String>)
        ensures
            match r {
                Some(text) => split_declaration(source@, *declaration) == Some(text@),
                None => split_declaration(source@, *declaration).is_none(),
            },
    {
        let first = match declaration.child_of_kind("variable_declarator") {
            Some(first) => first,
            None => {
                return None;
            },
        };
        let prefix = match slice_text(
            source,
            TextRange::new(declaration.range.start, first.range.start),
        ) {
            Some(prefix) => prefix,
            None => {
                return None;
            },
        };
        let mut text = String::new();
        let mut empty = true;
        let mut i: usize = 0;
        while i < declaration.children.len()
            invariant
                i <= declaration.children.len(),
                empty == (text@.len() == 0),
                split_declaration(source@, *declaration) == split_text(
                    source@,
                    prefix@,
                    declaration.children@,
                    declaration.children@.len() as int,
                ),
                split_text(source@, prefix@, declaration.children@, i as int) == Some(text@),
            decreases declaration.children.len() - i,
        {
            let child = &declaration.children[i];
            if child.kind_is("variable_declarator") {
                match child.text(source) {
                    Some(name) => {
                        if !empty {
                            text.append(" ");
                        }
                        text.append(prefix);
                        text.append(name);
                        text.append(";");
                        proof {
                            reveal_strlit(";");
                        }
                        empty = false;
                    },
                    None => {
                        proof {
                            lemma_split_text_stays_none(
                                source@,
                                prefix@,
                                declaration.children@,
                                i as int + 1,
                                declaration.children@.len() as int,
                            );
                        }
                        return None;
                    },
                }
            }
            i += 1;
        }
        Some(text)
    }
}

/// Once the text of one declarator cannot be had, there is no text for any
/// longer run of declarators either.
proof fn lemma_split_text_stays_none(
    source: Seq<char>,
    prefix: Seq<char>,
    nodes: Seq<CstNode>,
    from: int,
    upto: int,
)
    requires
        0 <= from <= upto <= nodes.len(),
        split_text(source, prefix, nodes, from).is_none(),
    ensures
        split_text(source, prefix, nodes, upto).is_none(),
    decreases upto - from,
{
    if from < upto {
        lemma_split_text_stays_none(source, prefix, nodes, from, upto - 1);
    }
}

impl Rule for MultipleVariableDeclarations {
    fn name(&self) -> (r: &'static str)
        ensures
            r@ == "MultipleVariableDeclarations"@,
    {
        "MultipleVariableDeclarations"
    }

    fn relevant_kinds(&self) -> (r: Option<Vec<&'static str>>)
        ensures
            r.is_none(),
    {
        None
    }

    fn is_relevant(&self, kind: &str) -> (r: bool)
        ensures
            r,
    {
        true
    }

    fn check(&self, ctx: &CheckContext, node: &CstNode) -> (r: Vec<Diagnostic>)
        ensures
            diagnostics_view(r@) == multiple_variable_declarations_findings(ctx.source@, *node),
    {
        let mut found = no_diagnostics();
        if node.kind_is("for_statement") {
            return found;
        }
        let source = ctx.source();
        let mut previous: Option<u32> = None;
        let mut i: usize = 0;
        while i < node.children.len()
            invariant
                i <= node.children.len(),
                source@ == ctx.source@,
                previous == previous_declaration_end(node.children@, i as int),
                diagnostics_view(found@) + declarations_findings_from(
                    ctx.source@,
                    node.children@,
                    i as int,
                ) == declarations_findings_from(ctx.source@, node.children@, 0),
            decreases node.children.len() - i,
        {
            let child = &node.children[i];
            let ghost before = diagnostics_view(found@);
            let ghost several = in_statement_findings(ctx.source@, *child);
            let ghost shared = on_line_findings(ctx.source@, node.children@, i as int);
            let ghost rest = declarations_findings_from(
                ctx.source@,
                node.children@,
                i as int + 1,
            );
            if child.kind_is("local_variable_declaration") || child.kind_is("field_declaration") {
                if MultipleVariableDeclarations::declarator_count(child) >= 2 {
                    let diagnostic = Diagnostic::new(&MultipleInStatementViolation, child.range);
                    let diagnostic = match MultipleVariableDeclarations::split(source, child) {
                        Some(text) => diagnostic.with_fix(child.range, text),
                        None => diagnostic,
                    };
                    push_diagnostic(&mut found, diagnostic);
                }
                assert(diagnostics_view(found@) =~= before + several);
                match previous {
                    Some(end) => {
                        if same_line(source, end, child.range.start) {
                            let diagnostic = Diagnostic::new(
                                &MultipleOnLineViolation,
                                child.range,
                            ).with_fix(
                                TextRange::new(end, child.range.start),
                                String::from_str("\n"),
                            );
                            push_diagnostic(&mut found, diagnostic);
                        }
                    },
                    None => {},
                }
                previous = Some(child.range.end);
            }
            assert(diagnostics_view(found@) =~= before + several + shared);
            assert((before + several + shared) + rest =~= before + (several + shared + rest));
            i += 1;
        }
        assert(diagnostics_view(found@) =~= declarations_findings_from(
            ctx.source@,
            node.children@,
            0,
        ));
        found
    }
}

} // verus!
