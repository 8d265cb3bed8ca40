//! Reports local variables that are given a value at most once and so could be
//! declared `final`.
//!
//! The analysis walks the body of a method, constructor or initializer once. It
//! keeps a stack of scopes; a declaration enters the innermost scope, an
//! assignment counts for the innermost scope that declares the name. The
//! alternatives of a branch each start from the state at which the branch was
//! entered, and meet again in the state of whichever assigned more often. An
//! assignment within a loop to a variable that was declared outside the loop may
//! run more than once, and disqualifies the variable at once. A scope holds one
//! candidate for each name; a name that is declared again takes the place of the
//! candidate before it. When a scope closes, it reports each of its variables
//! that was given a value at most once: by its initializer, by one assignment,
//! or not at all.

use crate::config::Properties;
use crate::cst::{first_in_field, first_of_kind, CstNode};
use crate::diagnostics::{
    diagnostics_view, no_diagnostics, Diagnostic, DiagnosticView, FixAvailability, Violation,
};
use crate::rule::{CheckContext, FromConfig, Rule};
use crate::rules::modifier::candidate::{
    candidates_view, lemma_last_named, lemma_last_named_in_range, CandidateState, CandidateView,
    ScopeData, ScopeView, VariableCandidate,
};
use crate::rules::modifier::common::{declared_with, is_declared_with};
use crate::text::{str_eq, TextRange};
use vstd::prelude::*;
use vstd::string::StringExecFns;

verus! {

/// Checks that local variables which are given a value at most once are declared
/// final.
#[derive(Clone, Copy, Debug, PartialEq, Eq, Structural)]
pub struct FinalLocalVariable {
    /// Whether the variable of a for-each loop is checked too.
    pub validate_enhanced_for_loop_variable: bool,
    /// Whether variables named `_` are checked too.
    pub validate_unnamed_variables: bool,
}

/// Violation for a variable that should be final.
#[derive(Clone, Debug)]
pub struct VariableShouldBeFinal {
    pub var_name: String,
}

/// The message that reports the variable `name`.
pub open spec fn final_message(name: Seq<char>) -> Seq<char> {
    "Variable '"@ + name + "' should be declared final."@
}

impl Violation for VariableShouldBeFinal {
    open spec fn name_text(&self) -> Seq<char> {
        "VariableShouldBeFinal"@
    }

    open spec fn message_text(&self) -> Seq<char> {
        final_message(self.var_name@)
    }

    open spec fn availability(&self) -> FixAvailability {
        FixAvailability::Never
    }

    fn rule_name(&self) -> (r: &'static str) {
        "VariableShouldBeFinal"
    }

    fn message(&self) -> (r: String) {
        let mut text = String::from_str("Variable '");
        text.append(self.var_name.as_str());
        text.append("' should be declared final.");
        text
    }

    fn fix_availability(&self) -> (r: FixAvailability) {
        FixAvailability::Never
    }
}

impl FromConfig for FinalLocalVariable {
    fn module_name() -> (r: &'static str)
        ensures
            r@ == "FinalLocalVariable"@,
    {
        "FinalLocalVariable"
    }

    fn from_config(properties: &Properties) -> (r: Self)
        ensures
            r.validate_enhanced_for_loop_variable == properties.flag(
                "validateEnhancedForLoopVariable"@,
                false,
            ),
            r.validate_unnamed_variables == properties.flag("validateUnnamedVariables"@, false),
    {
        let validate_enhanced_for_loop_variable = properties.get_flag(
            "validateEnhancedForLoopVariable",
            false,
        );
        let validate_unnamed_variables = properties.get_flag("validateUnnamedVariables", false);
        FinalLocalVariable { validate_enhanced_for_loop_variable, validate_unnamed_variables }
    }
}

/// The diagnostic that reports the candidate `c`.
pub open spec fn violation_for(c: CandidateView) -> DiagnosticView {
    DiagnosticView {
        name: "VariableShouldBeFinal"@,
        body: final_message(c.name),
        fix_availability: FixAvailability::Never,
        range: c.range,
        fix: None,
    }
}

/// The state of the analysis: the open scopes, outermost first, and what has been
/// reported so far.
pub struct EngineView {
    pub scopes: Seq<ScopeView>,
    pub diagnostics: Seq<DiagnosticView>,
}

impl EngineView {
    /// The state with a new, empty innermost scope.
    pub open spec fn push_scope(self, reporting: bool) -> EngineView {
        EngineView {
            scopes: self.scopes.push(ScopeView { variables: Seq::empty(), reporting }),
            ..self
        }
    }

    /// The state after the innermost scope has closed: its candidates that should
    /// be final are reported, in the order of their declaration.
    pub open spec fn pop_scope(self) -> EngineView {
        if self.scopes.len() == 0 {
            self
        } else {
            EngineView {
                scopes: self.scopes.drop_last(),
                diagnostics: self.diagnostics + self.scopes.last().finals().map_values(
                    |c: CandidateView| violation_for(c),
                ),
            }
        }
    }
}

/// The views of a stack of scopes.
pub open spec fn scopes_view(scopes: Seq<ScopeData>) -> Seq<ScopeView> {
    scopes.map_values(|s: ScopeData| s@)
}

/// The index of the innermost of the first `upto` scopes that declares `name`, or
/// -1 where none does.
pub open spec fn innermost_holder(scopes: Seq<ScopeView>, name: Seq<char>, upto: int) -> int
    decreases upto,
{
    if upto <= 0 || upto > scopes.len() {
        -1
    } else if scopes[upto - 1].holds(name) {
        upto - 1
    } else {
        innermost_holder(scopes, name, upto - 1)
    }
}

/// The scopes after an assignment to `name`: it counts for the innermost scope
/// that declares the name, and for none where no scope does. `floor` is the
/// number of scopes that were open when the innermost loop around the assignment
/// was entered: a variable of one of those scopes is assigned in a loop that it
/// was declared outside of, which disqualifies it.
pub open spec fn assign(scopes: Seq<ScopeView>, name: Seq<char>, floor: int) -> Seq<ScopeView> {
    let i = innermost_holder(scopes, name, scopes.len() as int);
    if i >= 0 {
        scopes.update(i, scopes[i].mark_assigned(name, i < floor))
    } else {
        scopes
    }
}

/// Whether a node of the kind `kind` is a loop.
pub open spec fn is_loop(kind: Seq<char>) -> bool {
    kind == "for_statement"@ || kind == "enhanced_for_statement"@ || kind == "while_statement"@
        || kind == "do_statement"@
}

/// The scopes after the declaration of `candidate`, which enters the innermost.
pub open spec fn declare(scopes: Seq<ScopeView>, candidate: CandidateView) -> Seq<ScopeView> {
    if scopes.len() == 0 {
        scopes
    } else {
        scopes.update(scopes.len() - 1, scopes.last().add(candidate))
    }
}

/// Where two alternatives of a branch meet again: the scopes of `ours`, each
/// candidate in the state of whichever alternative assigned it more often.
pub open spec fn join_scopes(ours: Seq<ScopeView>, theirs: Seq<ScopeView>) -> Seq<ScopeView> {
    Seq::new(
        ours.len(),
        |i: int|
            if i < theirs.len() {
                ours[i].joined(theirs[i])
            } else {
                ours[i]
            },
    )
}

/// Whether a node of the kind `kind` opens a scope of its own.
pub open spec fn opens_scope(kind: Seq<char>) -> bool {
    kind == "block"@ || kind == "for_statement"@ || kind == "enhanced_for_statement"@ || kind
        == "lambda_expression"@ || kind == "class_body"@
}

/// Whether `child` is one of the alternatives of its parent, of which at most one
/// runs: a branch of an `if`, a case of a `switch`, a handler of a `try`.
pub open spec fn is_alternative(parent_kind: Seq<char>, child: CstNode) -> bool {
    ||| (parent_kind == "if_statement"@ && (child.in_field("consequence"@) || child.in_field(
        "alternative"@,
    )))
    ||| (parent_kind == "switch_block"@ && (child.kind@ == "switch_block_statement_group"@
        || child.kind@ == "switch_rule"@))
    ||| ((parent_kind == "try_statement"@ || parent_kind == "try_with_resources_statement"@)
        && child.kind@ == "catch_clause"@)
}

/// The candidate that the declarator `declarator` declares. There is none where
/// the node is no declarator, has no name, or is named `_` while such names are
/// not checked.
pub open spec fn declarator_candidate(
    rule: FinalLocalVariable,
    source: Seq<char>,
    declarator: CstNode,
    excluded: bool,
) -> Option<CandidateView> {
    let children = declarator.children@;
    let n = first_in_field(children, "name"@, 0);
    if declarator.kind@ != "variable_declarator"@ || n >= children.len() {
        None
    } else {
        match children[n].text_in(source) {
            None => None,
            Some(name) => if !rule.validate_unnamed_variables && name == "_"@ {
                None
            } else {
                Some(
                    CandidateView {
                        name,
                        range: children[n].range,
                        has_initializer: first_in_field(children, "value"@, 0) < children.len(),
                        state: if excluded {
                            CandidateState::Disqualified
                        } else {
                            CandidateState::Untouched
                        },
                    },
                )
            },
        }
    }
}

/// The scopes after the declarators among `children`, from `from` on, have been
/// declared.
pub open spec fn declare_all(
    rule: FinalLocalVariable,
    source: Seq<char>,
    children: Seq<CstNode>,
    from: int,
    excluded: bool,
    scopes: Seq<ScopeView>,
) -> Seq<ScopeView>
    decreases children.len() - from,
{
    if from < 0 || from >= children.len() {
        scopes
    } else {
        let next = match declarator_candidate(rule, source, children[from], excluded) {
            Some(c) => declare(scopes, c),
            None => scopes,
        };
        declare_all(rule, source, children, from + 1, excluded, next)
    }
}

/// The candidate that a for-each loop declares: its loop variable, which has its
/// value from the loop. It is left out of the analysis unless the rule checks
/// such variables, and where it is declared final already.
pub open spec fn loop_variable(rule: FinalLocalVariable, source: Seq<char>, node: CstNode)
    -> Option<CandidateView> {
    let children = node.children@;
    let n = first_in_field(children, "name"@, 0);
    if n >= children.len() {
        None
    } else {
        match children[n].text_in(source) {
            None => None,
            Some(name) => if !rule.validate_unnamed_variables && name == "_"@ {
                None
            } else {
                Some(
                    CandidateView {
                        name,
                        range: children[n].range,
                        has_initializer: true,
                        state: if rule.validate_enhanced_for_loop_variable && !declared_with(
                            node,
                            "final"@,
                        ) {
                            CandidateState::Untouched
                        } else {
                            CandidateState::Disqualified
                        },
                    },
                )
            },
        }
    }
}

/// The name that an assignment or a compound assignment assigns to, where its
/// left side is a plain identifier.
pub open spec fn assignment_left(source: Seq<char>, node: CstNode) -> Option<Seq<char>> {
    let children = node.children@;
    let l = first_in_field(children, "left"@, 0);
    if l < children.len() && children[l].kind@ == "identifier"@ {
        children[l].text_in(source)
    } else {
        None
    }
}

/// The name that an increment or a decrement changes: its argument, where that is
/// a plain identifier, or else the first identifier among its children.
pub open spec fn update_argument(source: Seq<char>, node: CstNode) -> Option<Seq<char>> {
    let children = node.children@;
    let a = first_in_field(children, "argument"@, 0);
    let i = first_of_kind(children, "identifier"@, 0);
    if a < children.len() {
        if children[a].kind@ == "identifier"@ {
            children[a].text_in(source)
        } else {
            None
        }
    } else if i < children.len() {
        children[i].text_in(source)
    } else {
        None
    }
}

/// The name that an assignment, a compound assignment, an increment or a
/// decrement assigns to, where its target is a plain identifier.
pub open spec fn assignment_target(source: Seq<char>, node: CstNode) -> Option<Seq<char>> {
    if node.kind@ == "assignment_expression"@ {
        assignment_left(source, node)
    } else if node.kind@ == "update_expression"@ {
        update_argument(source, node)
    } else {
        None
    }
}

/// What the node itself does to the scopes, before its children are looked at.
pub open spec fn node_effect(
    rule: FinalLocalVariable,
    source: Seq<char>,
    node: CstNode,
    excluded: bool,
    floor: int,
    scopes: Seq<ScopeView>,
) -> Seq<ScopeView> {
    let kind = node.kind@;
    if kind == "local_variable_declaration"@ {
        if declared_with(node, "final"@) {
            scopes
        } else {
            declare_all(rule, source, node.children@, 0, excluded, scopes)
        }
    } else if kind == "assignment_expression"@ || kind == "update_expression"@ {
        match assignment_target(source, node) {
            Some(name) => assign(scopes, name, floor),
            None => scopes,
        }
    } else if kind == "enhanced_for_statement"@ {
        match loop_variable(rule, source, node) {
            Some(c) => declare(scopes, c),
            None => scopes,
        }
    } else {
        scopes
    }
}

/// The state after the walk over `node` and all that is below it.
///
/// `quiet` holds within the body of a class that is nested in the code under
/// analysis: its methods are analysed on their own, so their variables are
/// tracked here only to find the target of an assignment, and are not reported.
/// `excluded` holds for the declaration in the header of a `for` loop. `floor` is
/// the number of scopes that were open when the innermost loop around the node
/// was entered, and zero where there is no loop around it.
pub open spec fn visit_spec(
    rule: FinalLocalVariable,
    source: Seq<char>,
    node: CstNode,
    quiet: bool,
    excluded: bool,
    floor: int,
    st: EngineView,
) -> EngineView
    decreases node,
{
    let kind = node.kind@;
    let inner_quiet = quiet || kind == "class_body"@;
    let inner_floor = if is_loop(kind) {
        st.scopes.len() as int
    } else {
        floor
    };
    let entered = if opens_scope(kind) {
        st.push_scope(!inner_quiet)
    } else {
        st
    };
    let acted = EngineView {
        scopes: node_effect(rule, source, node, excluded, inner_floor, entered.scopes),
        ..entered
    };
    let walked = visit_children_spec(
        rule,
        source,
        kind,
        node.children@,
        0,
        inner_quiet,
        inner_floor,
        None,
        acted,
    );
    if opens_scope(kind) {
        walked.pop_scope()
    } else {
        walked
    }
}

/// The state after the walk over the children from `i` on. `entry` holds the
/// scopes at which the first alternative among the children before `i` started.
pub open spec fn visit_children_spec(
    rule: FinalLocalVariable,
    source: Seq<char>,
    parent_kind: Seq<char>,
    children: Seq<CstNode>,
    i: int,
    quiet: bool,
    floor: int,
    entry: Option<Seq<ScopeView>>,
    st: EngineView,
) -> EngineView
    decreases children, children.len() - i,
{
    if i < 0 || i >= children.len() {
        st
    } else if is_alternative(parent_kind, children[i]) {
        let e = match entry {
            Some(e) => e,
            None => st.scopes,
        };
        let start = EngineView { scopes: e, diagnostics: st.diagnostics }.push_scope(!quiet);
        let ran = visit_spec(rule, source, children[i], quiet, false, floor, start).pop_scope();
        let met = EngineView {
            scopes: join_scopes(st.scopes, ran.scopes),
            diagnostics: ran.diagnostics,
        };
        visit_children_spec(
            rule,
            source,
            parent_kind,
            children,
            i + 1,
            quiet,
            floor,
            Some(e),
            met,
        )
    } else {
        let excluded = parent_kind == "for_statement"@ && children[i].in_field("init"@);
        let next = visit_spec(rule, source, children[i], quiet, excluded, floor, st);
        visit_children_spec(
            rule,
            source,
            parent_kind,
            children,
            i + 1,
            quiet,
            floor,
            entry,
            next,
        )
    }
}

/// What the analysis of one body reports.
pub open spec fn analyze_body(rule: FinalLocalVariable, source: Seq<char>, body: CstNode) -> Seq<
    DiagnosticView,
> {
    let start = EngineView { scopes: Seq::empty(), diagnostics: Seq::empty() }.push_scope(true);
    visit_spec(rule, source, body, false, false, 0, start).pop_scope().diagnostics
}

/// What the analysis reports of the initializer blocks among `children`, from
/// `from` on.
pub open spec fn analyze_initializers(
    rule: FinalLocalVariable,
    source: Seq<char>,
    children: Seq<CstNode>,
    from: int,
) -> Seq<DiagnosticView>
    decreases children.len() - from,
{
    if from < 0 || from >= children.len() {
        Seq::empty()
    } else if children[from].kind@ == "block"@ {
        analyze_body(rule, source, children[from]) + analyze_initializers(
            rule,
            source,
            children,
            from + 1,
        )
    } else {
        analyze_initializers(rule, source, children, from + 1)
    }
}

/// What the rule reports at `node`: the analysis of the body of a method or
/// constructor, of the block of a static initializer, and of the initializer
/// blocks of a class body; nothing at any other node.
pub open spec fn final_local_variable_findings(
    rule: FinalLocalVariable,
    source: Seq<char>,
    node: CstNode,
) -> Seq<DiagnosticView> {
    let kind = node.kind@;
    let children = node.children@;
    if kind == "method_declaration"@ || kind == "constructor_declaration"@ {
        let b = first_in_field(children, "body"@, 0);
        if b < children.len() {
            analyze_body(rule, source, children[b])
        } else {
            Seq::empty()
        }
    } else if kind == "static_initializer"@ {
        let b = first_of_kind(children, "block"@, 0);
        if b < children.len() {
            analyze_body(rule, source, children[b])
        } else {
            Seq::empty()
        }
    } else if kind == "class_body"@ {
        analyze_initializers(rule, source, children, 0)
    } else {
        Seq::empty()
    }
}

/// Copies a stack of scopes.
pub fn clone_scopes(scopes: &Vec<ScopeData>) -> (r: Vec<ScopeData>)
    ensures
        scopes_view(r@) == scopes_view(scopes@),
{
    let mut copy: Vec<ScopeData> = Vec::new();
    let mut i: usize = 0;
    while i < scopes.len()
        invariant
            i <= scopes.len(),
            copy@.len() == i,
            forall|k: int| 0 <= k < i ==> (#[trigger] copy@[k])@ == scopes@[k]@,
        decreases scopes.len() - i,
    {
        let same = scopes[i].merged_with(&scopes[i]);
        assert(same@.variables =~= scopes@[i as int]@.variables);
        copy.push(same);
        i += 1;
    }
    assert(scopes_view(copy@) =~= scopes_view(scopes@));
    copy
}

/// Where two alternatives of a branch meet again.
pub fn merge_scopes(ours: &Vec<ScopeData>, theirs: &Vec<ScopeData>) -> (r: Vec<ScopeData>)
    ensures
        scopes_view(r@) == join_scopes(scopes_view(ours@), scopes_view(theirs@)),
{
    let mut met: Vec<ScopeData> = Vec::new();
    let mut i: usize = 0;
    while i < ours.len()
        invariant
            i <= ours.len(),
            met@.len() == i,
            forall|k: int|
                0 <= k < i ==> (#[trigger] met@[k])@ == join_scopes(
                    scopes_view(ours@),
                    scopes_view(theirs@),
                )[k],
        decreases ours.len() - i,
    {
        let scope = if i < theirs.len() {
            ours[i].merged_with(&theirs[i])
        } else {
            let same = ours[i].merged_with(&ours[i]);
            assert(same@.variables =~= ours@[i as int]@.variables);
            same
        };
        met.push(scope);
        i += 1;
    }
    assert(scopes_view(met@) =~= join_scopes(scopes_view(ours@), scopes_view(theirs@)));
    met
}

/// The walk over one body: the open scopes and what has been reported so far.
pub struct FinalLocalVariableVisitor {
    /// Stack of scopes, outermost first.
    pub scopes: Vec<ScopeData>,
    /// Diagnostics collected.
    pub diagnostics: Vec<Diagnostic>,
}

impl View for FinalLocalVariableVisitor {
    type V = EngineView;

    open spec fn view(&self) -> EngineView {
        EngineView {
            scopes: scopes_view(self.scopes@),
            diagnostics: diagnostics_view(self.diagnostics@),
        }
    }
}

impl FinalLocalVariableVisitor {
    /// A walk that has not begun: no scope open, nothing reported.
    pub fn new() -> (r: Self)
        ensures
            r@ == (EngineView { scopes: Seq::empty(), diagnostics: Seq::empty() }),
    {
        let r = FinalLocalVariableVisitor { scopes: Vec::new(), diagnostics: Vec::new() };
        assert(r@.scopes =~= Seq::empty());
        assert(r@.diagnostics =~= Seq::empty());
        r
    }

    /// Push a new scope.
    pub fn push_scope(&mut self, reporting: bool)
        ensures
            final(self)@ == old(self)@.push_scope(reporting),
    {
        self.scopes.push(ScopeData::new(reporting));
        assert(final(self)@.scopes =~= old(self)@.push_scope(reporting).scopes);
    }

    /// Pop a scope and report violations for variables that should be final.
    pub fn pop_scope(&mut self)
        ensures
            final(self)@ == old(self)@.pop_scope(),
    {
        match self.scopes.pop() {
            Some(scope) => {
                assert(self@.scopes =~= old(self)@.scopes.drop_last());
                let finals = scope.get_should_be_final();
                let ghost expected = old(self)@.scopes.last().finals().map_values(
                    |c: CandidateView| violation_for(c),
                );
                let mut i: usize = 0;
                while i < finals.len()
                    invariant
                        i <= finals.len(),
                        candidates_view(finals@) == old(self)@.scopes.last().finals(),
                        expected == old(self)@.scopes.last().finals().map_values(
                            |c: CandidateView| violation_for(c),
                        ),
                        self@.scopes == old(self)@.scopes.drop_last(),
                        self@.diagnostics == old(self)@.diagnostics + expected.subrange(
                            0,
                            i as int,
                        ),
                    decreases finals.len() - i,
                {
                    let ghost before = self@.diagnostics;
                    self.report_violation(finals[i].range, finals[i].name.as_str());
                    assert(candidates_view(finals@)[i as int] == finals@[i as int]@);
                    assert(self@.diagnostics =~= old(self)@.diagnostics + expected.subrange(
                        0,
                        i as int + 1,
                    ));
                    i += 1;
                }
                assert(expected.subrange(0, i as int) =~= expected);
            },
            None => {},
        }
    }

    /// Report a violation for a variable that should be final.
    pub fn report_violation(&mut self, ident_range: TextRange, var_name: &str)
        ensures
            final(self)@.scopes == old(self)@.scopes,
            final(self)@.diagnostics == old(self)@.diagnostics.push(
                violation_for(
                    CandidateView {
                        name: var_name@,
                        range: ident_range,
                        has_initializer: false,
                        state: CandidateState::Untouched,
                    },
                ),
            ),
    {
        let diagnostic = Diagnostic::new(
            &VariableShouldBeFinal { var_name: var_name.to_owned() },
            ident_range,
        );
        self.diagnostics.push(diagnostic);
        assert(final(self)@.diagnostics =~= old(self)@.diagnostics.push(diagnostic@));
    }

    /// Declares a variable in the innermost scope.
    pub fn declare(
        &mut self,
        name: String,
        ident_range: TextRange,
        has_initializer: bool,
        excluded: bool,
    )
        ensures
            final(self)@.diagnostics == old(self)@.diagnostics,
            final(self)@.scopes == declare(
                old(self)@.scopes,
                CandidateView {
                    name: name@,
                    range: ident_range,
                    has_initializer,
                    state: if excluded {
                        CandidateState::Disqualified
                    } else {
                        CandidateState::Untouched
                    },
                },
            ),
    {
        match self.scopes.pop() {
            Some(scope) => {
                let mut scope = scope;
                scope.add_variable(name, ident_range, has_initializer, excluded);
                self.scopes.push(scope);
                assert(final(self)@.scopes =~= old(self)@.scopes.update(
                    old(self)@.scopes.len() - 1,
                    scope@,
                ));
            },
            None => {
                assert(final(self)@.scopes =~= old(self)@.scopes);
            },
        }
    }

    /// Records an assignment to `name` in the innermost scope that declares it.
    /// `floor` is the number of scopes that were open when the innermost loop
    /// around the assignment was entered.
    pub fn mark_assigned(&mut self, name: &str, floor: usize)
        ensures
            final(self)@.diagnostics == old(self)@.diagnostics,
            final(self)@.scopes == assign(old(self)@.scopes, name@, floor as int),
    {
        let mut i: usize = self.scopes.len();
        while i > 0
            invariant
                i <= self.scopes.len(),
                *self == *old(self),
                innermost_holder(self@.scopes, name@, self@.scopes.len() as int)
                    == innermost_holder(self@.scopes, name@, i as int),
            decreases i,
        {
            if self.scopes[i - 1].contains(name) {
                let mut scope = self.scopes.remove(i - 1);
                scope.mark_assigned(name, i - 1 < floor);
                self.scopes.insert(i - 1, scope);
                assert(final(self)@.scopes =~= old(self)@.scopes.update(i - 1, scope@));
                return ;
            }
            i -= 1;
        }
    }

    /// Process a variable declaration.
    pub fn process_variable_declaration(
        &mut self,
        rule: &FinalLocalVariable,
        source: &str,
        node: &CstNode,
        excluded: bool,
    )
        ensures
            final(self)@.diagnostics == old(self)@.diagnostics,
            final(self)@.scopes == if declared_with(*node, "final"@) {
                old(self)@.scopes
            } else {
                declare_all(*rule, source@, node.children@, 0, excluded, old(self)@.scopes)
            },
    {
        if is_declared_with(node, "final") {
            return ;
        }
        let mut i: usize = 0;
        while i < node.children.len()
            invariant
                i <= node.children.len(),
                self@.diagnostics == old(self)@.diagnostics,
                declare_all(*rule, source@, node.children@, i as int, excluded, self@.scopes)
                    == declare_all(
                    *rule,
                    source@,
                    node.children@,
                    0,
                    excluded,
                    old(self)@.scopes,
                ),
            decreases node.children.len() - i,
        {
            let child = &node.children[i];
            if child.kind_is("variable_declarator") {
                match child.child_by_field_name("name") {
                    Some(name_node) => {
                        match name_node.text(source) {
                            Some(var_name) => {
                                if rule.validate_unnamed_variables || !str_eq(var_name, "_") {
                                    let has_initializer = child.child_by_field_name(
                                        "value",
                                    ).is_some();
                                    self.declare(
                                        var_name.to_owned(),
                                        name_node.range(),
                                        has_initializer,
                                        excluded,
                                    );
                                }
                            },
                            None => {},
                        }
                    },
                    None => {},
                }
            }
            i += 1;
        }
    }

    /// Declares the variable of a for-each loop.
    pub fn process_loop_variable(
        &mut self,
        rule: &FinalLocalVariable,
        source: &str,
        node: &CstNode,
    )
        ensures
            final(self)@.diagnostics == old(self)@.diagnostics,
            final(self)@.scopes == match loop_variable(*rule, source@, *node) {
                Some(c) => declare(old(self)@.scopes, c),
                None => old(self)@.scopes,
            },
    {
        match node.child_by_field_name("name") {
            Some(name_node) => {
                match name_node.text(source) {
                    Some(var_name) => {
                        if rule.validate_unnamed_variables || !str_eq(var_name, "_") {
                            let checked = rule.validate_enhanced_for_loop_variable
                                && !is_declared_with(node, "final");
                            self.declare(var_name.to_owned(), name_node.range(), true, !checked);
                        }
                    },
                    None => {},
                }
            },
            None => {},
        }
    }

    /// Process an assignment expression.
    pub fn process_assignment(&mut self, source: &str, node: &CstNode, floor: usize)
        ensures
            final(self)@.diagnostics == old(self)@.diagnostics,
            final(self)@.scopes == match assignment_left(source@, *node) {
                Some(name) => assign(old(self)@.scopes, name, floor as int),
                None => old(self)@.scopes,
            },
    {
        match node.child_by_field_name("left") {
            Some(left) => {
                if left.kind_is("identifier") {
                    match left.text(source) {
                        Some(var_name) => self.mark_assigned(var_name, floor),
                        None => {},
                    }
                }
            },
            None => {},
        }
    }

    /// Process an update expression (++, --).
    pub fn process_update_expression(&mut self, source: &str, node: &CstNode, floor: usize)
        ensures
            final(self)@.diagnostics == old(self)@.diagnostics,
            final(self)@.scopes == match update_argument(source@, *node) {
                Some(name) => assign(old(self)@.scopes, name, floor as int),
                None => old(self)@.scopes,
            },
    {
        match node.child_by_field_name("argument") {
            Some(expr) => {
                if expr.kind_is("identifier") {
                    match expr.text(source) {
                        Some(var_name) => self.mark_assigned(var_name, floor),
                        None => {},
                    }
                }
            },
            None => {
                match node.child_of_kind("identifier") {
                    Some(target) => {
                        match target.text(source) {
                            Some(var_name) => self.mark_assigned(var_name, floor),
                            None => {},
                        }
                    },
                    None => {},
                }
            },
        }
    }
}

impl FinalLocalVariableVisitor {
    /// Visit a node and process it.
    pub fn visit(
        &mut self,
        rule: &FinalLocalVariable,
        source: &str,
        node: &CstNode,
        quiet: bool,
        excluded: bool,
        floor: usize,
    )
        ensures
            final(self)@ == visit_spec(
                *rule,
                source@,
                *node,
                quiet,
                excluded,
                floor as int,
                old(self)@,
            ),
        decreases *node, 1nat,
    {
        let looping = node.kind_is("for_statement") || node.kind_is("enhanced_for_statement")
            || node.kind_is("while_statement") || node.kind_is("do_statement");
        let inner_floor = if looping {
            self.scopes.len()
        } else {
            floor
        };
        let scoped = node.kind_is("block") || node.kind_is("for_statement") || node.kind_is(
            "enhanced_for_statement",
        ) || node.kind_is("lambda_expression") || node.kind_is("class_body");
        let inner_quiet = quiet || node.kind_is("class_body");
        if scoped {
            self.push_scope(!inner_quiet);
        }
        if node.kind_is("local_variable_declaration") {
            self.process_variable_declaration(rule, source, node, excluded);
        } else if node.kind_is("assignment_expression") {
            self.process_assignment(source, node, inner_floor);
        } else if node.kind_is("update_expression") {
            proof {
                reveal_strlit("assignment_expression");
                reveal_strlit("update_expression");
                assert("assignment_expression"@.len() != "update_expression"@.len());
            }
            self.process_update_expression(source, node, inner_floor);
        } else if node.kind_is("enhanced_for_statement") {
            self.process_loop_variable(rule, source, node);
        }
        self.visit_children(rule, source, node, inner_quiet, inner_floor);
        if scoped {
            self.pop_scope();
        }
    }

    /// Visit all children of a node. The alternatives among them each start from
    /// the scopes at which the first of them started.
    pub fn visit_children(
        &mut self,
        rule: &FinalLocalVariable,
        source: &str,
        node: &CstNode,
        quiet: bool,
        floor: usize,
    )
        ensures
            final(self)@ == visit_children_spec(
                *rule,
                source@,
                node.kind@,
                node.children@,
                0,
                quiet,
                floor as int,
                None,
                old(self)@,
            ),
        decreases *node, 0nat,
    {
        let in_if = node.kind_is("if_statement");
        let in_switch = node.kind_is("switch_block");
        let in_try = node.kind_is("try_statement") || node.kind_is(
            "try_with_resources_statement",
        );
        let in_for = node.kind_is("for_statement");
        let mut entry: Option<Vec<ScopeData>> = None;
        let ghost mut entry_view: Option<Seq<ScopeView>> = None;
        let mut i: usize = 0;
        while i < node.children.len()
            invariant
                i <= node.children.len(),
                in_if == (node.kind@ == "if_statement"@),
                in_switch == (node.kind@ == "switch_block"@),
                in_try == (node.kind@ == "try_statement"@ || node.kind@
                    == "try_with_resources_statement"@),
                in_for == (node.kind@ == "for_statement"@),
                match entry {
                    Some(e) => entry_view == Some(scopes_view(e@)),
                    None => entry_view.is_none(),
                },
                visit_children_spec(
                    *rule,
                    source@,
                    node.kind@,
                    node.children@,
                    i as int,
                    quiet,
                    floor as int,
                    entry_view,
                    self@,
                ) == visit_children_spec(
                    *rule,
                    source@,
                    node.kind@,
                    node.children@,
                    0,
                    quiet,
                    floor as int,
                    None,
                    old(self)@,
                ),
            decreases node.children.len() - i,
        {
            let child = &node.children[i];
            let alternative = (in_if && (child.field_is("consequence") || child.field_is(
                "alternative",
            ))) || (in_switch && (child.kind_is("switch_block_statement_group") || child.kind_is(
                "switch_rule",
            ))) || (in_try && child.kind_is("catch_clause"));
            assert(alternative == is_alternative(node.kind@, *child));
            if alternative {
                let start = match &entry {
                    Some(e) => clone_scopes(e),
                    None => clone_scopes(&self.scopes),
                };
                if entry.is_none() {
                    entry = Some(clone_scopes(&self.scopes));
                    proof {
                        entry_view = Some(self@.scopes);
                    }
                }
                let mut before = start;
                core::mem::swap(&mut self.scopes, &mut before);
                self.push_scope(!quiet);
                self.visit(rule, source, child, quiet, false, floor);
                self.pop_scope();
                let met = merge_scopes(&before, &self.scopes);
                self.scopes = met;
            } else {
                let excluded = in_for && child.field_is("init");
                self.visit(rule, source, child, quiet, excluded, floor);
            }
            i += 1;
        }
    }
}

impl FinalLocalVariable {
    /// Analyses one body: the walk over it, within a scope of its own.
    pub fn analyze(&self, source: &str, body: &CstNode) -> (r: Vec<Diagnostic>)
        ensures
            diagnostics_view(r@) == analyze_body(*self, source@, *body),
    {
        let mut visitor = FinalLocalVariableVisitor::new();
        visitor.push_scope(true);
        visitor.visit(self, source, body, false, false, 0);
        visitor.pop_scope();
        visitor.diagnostics
    }

    /// The violations that the rule finds at `node`.
    pub fn findings(&self, source: &str, node: &CstNode) -> (r: Vec<Diagnostic>)
        ensures
            diagnostics_view(r@) == final_local_variable_findings(*self, source@, *node),
    {
        if node.kind_is("method_declaration") || node.kind_is("constructor_declaration") {
            match node.child_by_field_name("body") {
                Some(body) => self.analyze(source, body),
                None => no_diagnostics(),
            }
        } else if node.kind_is("static_initializer") {
            match node.child_of_kind("block") {
                Some(body) => self.analyze(source, body),
                None => no_diagnostics(),
            }
        } else if node.kind_is("class_body") {
            let mut found: Vec<Diagnostic> = no_diagnostics();
            let mut i: usize = node.children.len();
            while i > 0
                invariant
                    i <= node.children.len(),
                    diagnostics_view(found@) == analyze_initializers(
                        *self,
                        source@,
                        node.children@,
                        i as int,
                    ),
                decreases i,
            {
                i -= 1;
                if node.children[i].kind_is("block") {
                    let mut here = self.analyze(source, &node.children[i]);
                    let ghost first = diagnostics_view(here@);
                    let ghost rest = diagnostics_view(found@);
                    here.append(&mut found);
                    assert(diagnostics_view(here@) =~= first + rest);
                    found = here;
                }
            }
            found
        } else {
            no_diagnostics()
        }
    }
}

impl Rule for FinalLocalVariable {
    fn name(&self) -> (r: &'static str)
        ensures
            r@ == "FinalLocalVariable"@,
    {
        "FinalLocalVariable"
    }

    fn relevant_kinds(&self) -> (r: Option<Vec<&'static str>>)
        ensures
            r.is_none(),
    {
        None
    }

    fn is_relevant(&self, kind: &str) -> (r: bool)
        ensures
            r,
    {
        true
    }

    fn check(&self, ctx: &CheckContext, node: &CstNode) -> (r: Vec<Diagnostic>)
        ensures
            diagnostics_view(r@) == final_local_variable_findings(*self, ctx.source@, *node),
    {
        self.findings(ctx.source(), node)
    }
}

/// The name that `node` gives a variable, where it is a declarator or a
/// for-each loop.
pub open spec fn declared_name(source: Seq<char>, node: CstNode) -> Option<Seq<char>> {
    let n = first_in_field(node.children@, "name"@, 0);
    if (node.kind@ == "variable_declarator"@ || node.kind@ == "enhanced_for_statement"@) && n
        < node.children@.len() {
        node.children@[n].text_in(source)
    } else {
        None
    }
}

/// Whether a declarator or a for-each loop at `node` or below it names its
/// variable `name`.
pub open spec fn declares_name(source: Seq<char>, node: CstNode, name: Seq<char>) -> bool
    decreases node,
{
    declared_name(source, node) == Some(name) || declares_among(
        source,
        node.children@,
        0,
        name,
    )
}

/// Whether a declarator or a for-each loop at or below one of the nodes from
/// `from` on names its variable `name`.
pub open spec fn declares_among(
    source: Seq<char>,
    nodes: Seq<CstNode>,
    from: int,
    name: Seq<char>,
) -> bool
    decreases nodes, nodes.len() - from,
{
    if from < 0 || from >= nodes.len() {
        false
    } else {
        declares_name(source, nodes[from], name) || declares_among(source, nodes, from + 1, name)
    }
}

/// Whether `after` is the candidate `before`, assigned no less often.
pub open spec fn candidate_advanced(before: CandidateView, after: CandidateView) -> bool {
    &&& before.name == after.name
    &&& before.range == after.range
    &&& before.has_initializer == after.has_initializer
    &&& before.state.events() <= after.state.events()
}

/// Whether `after` holds, in the place of every candidate of `before`, a
/// candidate of the same name, and in the place of a candidate that is named
/// `watched` that same candidate, assigned no less often.
pub open spec fn scope_advanced(watched: Option<Seq<char>>, before: ScopeView, after: ScopeView)
    -> bool {
    &&& before.reporting == after.reporting
    &&& before.variables.len() <= after.variables.len()
    &&& forall|j: int|
        0 <= j < before.variables.len() ==> before.variables[j].name
            == (#[trigger] after.variables[j]).name && (watched == Some(before.variables[j].name)
            ==> candidate_advanced(before.variables[j], after.variables[j]))
}

/// Whether `after` has the scopes of `before`, each with a candidate of the same
/// name in every place, and with the candidates named `watched` assigned no less
/// often.
pub open spec fn scopes_advanced(
    watched: Option<Seq<char>>,
    before: Seq<ScopeView>,
    after: Seq<ScopeView>,
) -> bool {
    &&& before.len() == after.len()
    &&& forall|i: int|
        0 <= i < before.len() ==> scope_advanced(watched, before[i], #[trigger] after[i])
}

proof fn lemma_advanced_transitive(
    watched: Option<Seq<char>>,
    a: Seq<ScopeView>,
    b: Seq<ScopeView>,
    c: Seq<ScopeView>,
)
    requires
        scopes_advanced(watched, a, b),
        scopes_advanced(watched, b, c),
    ensures
        scopes_advanced(watched, a, c),
{
    assert forall|i: int| 0 <= i < a.len() implies scope_advanced(
        watched,
        a[i],
        #[trigger] c[i],
    ) by {
        assert(scope_advanced(watched, a[i], b[i]));
        assert(scope_advanced(watched, b[i], c[i]));
        assert forall|j: int| 0 <= j < a[i].variables.len() implies a[i].variables[j].name
            == (#[trigger] c[i].variables[j]).name && (watched == Some(a[i].variables[j].name)
            ==> candidate_advanced(a[i].variables[j], c[i].variables[j])) by {
            assert(a[i].variables[j].name == b[i].variables[j].name);
            assert(b[i].variables[j].name == c[i].variables[j].name);
        }
    }
}

/// An assignment takes nothing back of any candidate.
pub proof fn lemma_assign_advances(
    watched: Option<Seq<char>>,
    scopes: Seq<ScopeView>,
    name: Seq<char>,
    floor: int,
)
    ensures
        scopes_advanced(watched, scopes, assign(scopes, name, floor)),
{
    let after = assign(scopes, name, floor);
    lemma_innermost_holder_in_range(scopes, name, scopes.len() as int);
    assert(scopes.len() == after.len());
    assert forall|i: int| 0 <= i < scopes.len() implies scope_advanced(
        watched,
        scopes[i],
        #[trigger] after[i],
    ) by {
        lemma_last_named_in_range(scopes[i].variables, name, scopes[i].variables.len() as int);
        assert forall|j: int| 0 <= j < scopes[i].variables.len() implies candidate_advanced(
            scopes[i].variables[j],
            #[trigger] after[i].variables[j],
        ) by {}
    }
}

/// The index that `innermost_holder` gives is -1 or that of a scope.
pub proof fn lemma_innermost_holder_in_range(scopes: Seq<ScopeView>, name: Seq<char>, upto: int)
    ensures
        -1 <= innermost_holder(scopes, name, upto) < scopes.len(),
    decreases upto,
{
    if upto > 0 && upto <= scopes.len() {
        lemma_innermost_holder_in_range(scopes, name, upto - 1);
    }
}

proof fn lemma_declare_advances(
    watched: Option<Seq<char>>,
    scopes: Seq<ScopeView>,
    c: CandidateView,
)
    requires
        watched != Some(c.name),
    ensures
        scopes_advanced(watched, scopes, declare(scopes, c)),
{
    let after = declare(scopes, c);
    assert forall|i: int| 0 <= i < scopes.len() implies scope_advanced(
        watched,
        scopes[i],
        #[trigger] after[i],
    ) by {
        lemma_last_named(scopes[i].variables, c.name, scopes[i].variables.len() as int);
        assert forall|j: int| 0 <= j < scopes[i].variables.len() implies scopes[i].variables[j].name
            == (#[trigger] after[i].variables[j]).name && (watched == Some(
            scopes[i].variables[j].name,
        ) ==> candidate_advanced(scopes[i].variables[j], after[i].variables[j])) by {}
    }
}

proof fn lemma_declare_all_advances(
    watched: Option<Seq<char>>,
    rule: FinalLocalVariable,
    source: Seq<char>,
    children: Seq<CstNode>,
    from: int,
    excluded: bool,
    scopes: Seq<ScopeView>,
)
    requires
        match watched {
            Some(name) => !declares_among(source, children, from, name),
            None => true,
        },
    ensures
        scopes_advanced(
            watched,
            scopes,
            declare_all(rule, source, children, from, excluded, scopes),
        ),
    decreases children.len() - from,
{
    if 0 <= from < children.len() {
        let next = match declarator_candidate(rule, source, children[from], excluded) {
            Some(c) => declare(scopes, c),
            None => scopes,
        };
        match declarator_candidate(rule, source, children[from], excluded) {
            Some(c) => {
                assert(declared_name(source, children[from]) == Some(c.name));
                assert(declares_name(source, children[from], c.name));
                lemma_declare_advances(watched, scopes, c);
            },
            None => {},
        }
        lemma_declare_all_advances(watched, rule, source, children, from + 1, excluded, next);
        lemma_advanced_transitive(
            watched,
            scopes,
            next,
            declare_all(rule, source, children, from + 1, excluded, next),
        );
    }
}

proof fn lemma_node_effect_advances(
    watched: Option<Seq<char>>,
    rule: FinalLocalVariable,
    source: Seq<char>,
    node: CstNode,
    excluded: bool,
    floor: int,
    scopes: Seq<ScopeView>,
)
    requires
        match watched {
            Some(name) => !declares_name(source, node, name),
            None => true,
        },
    ensures
        scopes_advanced(watched, scopes, node_effect(rule, source, node, excluded, floor, scopes)),
{
    let kind = node.kind@;
    if kind == "local_variable_declaration"@ {
        lemma_declare_all_advances(watched, rule, source, node.children@, 0, excluded, scopes);
    } else if kind == "assignment_expression"@ || kind == "update_expression"@ {
        match assignment_target(source, node) {
            Some(name) => lemma_assign_advances(watched, scopes, name, floor),
            None => {},
        }
    } else if kind == "enhanced_for_statement"@ {
        match loop_variable(rule, source, node) {
            Some(c) => {
                assert(declared_name(source, node) == Some(c.name));
                lemma_declare_advances(watched, scopes, c);
            },
            None => {},
        }
    }
}

/// Where alternatives meet, nothing that was counted before them is taken back,
/// whatever the alternative did.
pub proof fn lemma_join_advances(
    watched: Option<Seq<char>>,
    ours: Seq<ScopeView>,
    theirs: Seq<ScopeView>,
)
    ensures
        scopes_advanced(watched, ours, join_scopes(ours, theirs)),
{
    let met = join_scopes(ours, theirs);
    assert forall|i: int| 0 <= i < ours.len() implies scope_advanced(
        watched,
        ours[i],
        #[trigger] met[i],
    ) by {
        assert forall|j: int| 0 <= j < ours[i].variables.len() implies candidate_advanced(
            ours[i].variables[j],
            #[trigger] met[i].variables[j],
        ) by {}
    }
}

/// The walk never takes an assignment back. After the walk over any node, the
/// scopes that were open before it are open still, and each holds a candidate of
/// the same name in every place. Unless the code that was walked over declares
/// the name `watched` again, each candidate of that name is the one that it
/// was, in the same state or a later one: a candidate that was disqualified, or
/// left out of the analysis, stays so.
pub proof fn lemma_visit_advances(
    watched: Option<Seq<char>>,
    rule: FinalLocalVariable,
    source: Seq<char>,
    node: CstNode,
    quiet: bool,
    excluded: bool,
    floor: int,
    st: EngineView,
)
    requires
        match watched {
            Some(name) => !declares_name(source, node, name),
            None => true,
        },
    ensures
        scopes_advanced(
            watched,
            st.scopes,
            visit_spec(rule, source, node, quiet, excluded, floor, st).scopes,
        ),
    decreases node,
{
    let kind = node.kind@;
    let inner_quiet = quiet || kind == "class_body"@;
    let inner_floor = if is_loop(kind) {
        st.scopes.len() as int
    } else {
        floor
    };
    let entered = if opens_scope(kind) {
        st.push_scope(!inner_quiet)
    } else {
        st
    };
    let acted = EngineView {
        scopes: node_effect(rule, source, node, excluded, inner_floor, entered.scopes),
        ..entered
    };
    let walked = visit_children_spec(
        rule,
        source,
        kind,
        node.children@,
        0,
        inner_quiet,
        inner_floor,
        None,
        acted,
    );
    lemma_node_effect_advances(
        watched,
        rule,
        source,
        node,
        excluded,
        inner_floor,
        entered.scopes,
    );
    lemma_visit_children_advance(
        watched,
        rule,
        source,
        kind,
        node.children@,
        0,
        inner_quiet,
        inner_floor,
        None,
        acted,
    );
    lemma_advanced_transitive(watched, entered.scopes, acted.scopes, walked.scopes);
    if opens_scope(kind) {
        let after = walked.pop_scope().scopes;
        assert forall|i: int| 0 <= i < st.scopes.len() implies scope_advanced(
            watched,
            st.scopes[i],
            #[trigger] after[i],
        ) by {
            assert(scope_advanced(watched, entered.scopes[i], walked.scopes[i]));
        }
    }
}

/// The walk over the children of a node never takes an assignment back.
pub proof fn lemma_visit_children_advance(
    watched: Option<Seq<char>>,
    rule: FinalLocalVariable,
    source: Seq<char>,
    parent_kind: Seq<char>,
    children: Seq<CstNode>,
    i: int,
    quiet: bool,
    floor: int,
    entry: Option<Seq<ScopeView>>,
    st: EngineView,
)
    requires
        match watched {
            Some(name) => !declares_among(source, children, i, name),
            None => true,
        },
    ensures
        scopes_advanced(
            watched,
            st.scopes,
            visit_children_spec(rule, source, parent_kind, children, i, quiet, floor, entry, st).scopes,
        ),
    decreases children, children.len() - i,
{
    if 0 <= i < children.len() {
        if is_alternative(parent_kind, children[i]) {
            let e = match entry {
                Some(e) => e,
                None => st.scopes,
            };
            let start = EngineView { scopes: e, diagnostics: st.diagnostics }.push_scope(!quiet);
            let ran = visit_spec(rule, source, children[i], quiet, false, floor, start).pop_scope();
            let met = EngineView {
                scopes: join_scopes(st.scopes, ran.scopes),
                diagnostics: ran.diagnostics,
            };
            lemma_join_advances(watched, st.scopes, ran.scopes);
            lemma_visit_children_advance(
                watched,
                rule,
                source,
                parent_kind,
                children,
                i + 1,
                quiet,
                floor,
                Some(e),
                met,
            );
            lemma_advanced_transitive(
                watched,
                st.scopes,
                met.scopes,
                visit_children_spec(
                    rule,
                    source,
                    parent_kind,
                    children,
                    i + 1,
                    quiet,
                    floor,
                    Some(e),
                    met,
                ).scopes,
            );
        } else {
            let excluded = parent_kind == "for_statement"@ && children[i].in_field("init"@);
            let next = visit_spec(rule, source, children[i], quiet, excluded, floor, st);
            lemma_visit_advances(watched, rule, source, children[i], quiet, excluded, floor, st);
            lemma_visit_children_advance(
                watched,
                rule,
                source,
                parent_kind,
                children,
                i + 1,
                quiet,
                floor,
                entry,
                next,
            );
            lemma_advanced_transitive(
                watched,
                st.scopes,
                next.scopes,
                visit_children_spec(
                    rule,
                    source,
                    parent_kind,
                    children,
                    i + 1,
                    quiet,
                    floor,
                    entry,
                    next,
                ).scopes,
            );
        }
    }
}

} // verus!
