//! What the finality analysis holds and reports stands in the source: every
//! candidate and every diagnostic lies on the name of its variable, and no scope
//! holds a name twice.

use crate::cst::{
    first_in_field, first_of_kind, lemma_first_in_field, lemma_first_of_kind, CstNode,
};
use crate::diagnostics::DiagnosticView;
use crate::rules::modifier::candidate::{
    finals_among, lemma_add_keeps_distinct, lemma_finals_should_be_final,
    lemma_join_keeps_distinct, lemma_last_named, lemma_last_named_in_range,
    lemma_mark_keeps_distinct, CandidateState, CandidateView, ScopeView,
};
use crate::rules::modifier::final_local_variable::{
    analyze_body, analyze_initializers, assign, assignment_target, candidate_advanced,
    declarator_candidate, declare, declare_all, declares_name, final_local_variable_findings,
    final_message, innermost_holder, is_alternative, is_loop, join_scopes, lemma_innermost_holder_in_range,
    lemma_visit_advances, loop_variable, node_effect, opens_scope, scope_advanced, violation_for,
    visit_children_spec, visit_spec, EngineView, FinalLocalVariable,
};
use crate::text::text_at;
use vstd::prelude::*;

verus! {

/// Whether the candidate's range selects its name in the source.
pub open spec fn candidate_grounded(source: Seq<char>, c: CandidateView) -> bool {
    text_at(source, c.range) == Some(c.name)
}

/// Whether every candidate of every scope stands in the source.
pub open spec fn scopes_grounded(source: Seq<char>, scopes: Seq<ScopeView>) -> bool {
    forall|i: int, j: int|
        0 <= i < scopes.len() && 0 <= j < scopes[i].variables.len() ==> candidate_grounded(
            source,
            #[trigger] scopes[i].variables[j],
        )
}

/// Whether the diagnostic lies on a name in the source, within its text, and says
/// of that name that it should be final.
pub open spec fn diagnostic_grounded(source: Seq<char>, d: DiagnosticView) -> bool {
    match text_at(source, d.range) {
        Some(name) => d.body == final_message(name) && d.fix.is_none() && d.name
            == "VariableShouldBeFinal"@,
        None => false,
    }
}

/// Whether every diagnostic lies on a name in the source.
pub open spec fn diagnostics_grounded(source: Seq<char>, diagnostics: Seq<DiagnosticView>) -> bool {
    forall|k: int|
        0 <= k < diagnostics.len() ==> diagnostic_grounded(source, #[trigger] diagnostics[k])
}

/// Whether no scope holds a name twice.
pub open spec fn scopes_distinct(scopes: Seq<ScopeView>) -> bool {
    forall|i: int| 0 <= i < scopes.len() ==> (#[trigger] scopes[i]).distinct()
}

/// Whether the scopes are in order: every candidate stands in the source, and no
/// scope holds a name twice.
pub open spec fn scopes_sound(source: Seq<char>, scopes: Seq<ScopeView>) -> bool {
    scopes_grounded(source, scopes) && scopes_distinct(scopes)
}

/// Whether all that the state holds stands in the source, with no name twice in
/// any scope.
pub open spec fn grounded(source: Seq<char>, st: EngineView) -> bool {
    scopes_sound(source, st.scopes) && diagnostics_grounded(source, st.diagnostics)
}

proof fn lemma_pop_grounded(source: Seq<char>, st: EngineView)
    requires
        grounded(source, st),
    ensures
        grounded(source, st.pop_scope()),
{
    if st.scopes.len() > 0 {
        let last = st.scopes.last();
        let after = st.pop_scope();
        assert forall|i: int, j: int|
            0 <= i < after.scopes.len() && 0 <= j
                < after.scopes[i].variables.len() implies candidate_grounded(
            source,
            #[trigger] after.scopes[i].variables[j],
        ) by {
            assert(after.scopes[i] == st.scopes[i]);
            assert(candidate_grounded(source, st.scopes[i].variables[j]));
        }
        assert forall|i: int| 0 <= i < after.scopes.len() implies (#[trigger] after.scopes[i]).distinct() by {
            assert(after.scopes[i] == st.scopes[i]);
        }
        assert forall|k: int| 0 <= k < after.diagnostics.len() implies diagnostic_grounded(
            source,
            #[trigger] after.diagnostics[k],
        ) by {
            if k < st.diagnostics.len() {
                assert(after.diagnostics[k] == st.diagnostics[k]);
            } else {
                let n = last.variables.len() as int;
                lemma_finals_should_be_final(last.variables, n);
                let f = last.finals()[k - st.diagnostics.len()];
                assert(f == finals_among(last.variables, n)[k - st.diagnostics.len()]);
                assert(last.variables.subrange(0, n).contains(f));
                let m = choose|m: int| 0 <= m < n && last.variables.subrange(0, n)[m] == f;
                assert(last.variables[m] == f);
                assert(candidate_grounded(source, st.scopes[st.scopes.len() - 1].variables[m]));
                assert(after.diagnostics[k] == violation_for(f));
            }
        }
    }
}

proof fn lemma_declare_grounded(source: Seq<char>, scopes: Seq<ScopeView>, c: CandidateView)
    requires
        scopes_sound(source, scopes),
        candidate_grounded(source, c),
    ensures
        scopes_sound(source, declare(scopes, c)),
{
    let after = declare(scopes, c);
    assert forall|i: int, j: int|
        0 <= i < after.len() && 0 <= j < after[i].variables.len() implies candidate_grounded(
        source,
        #[trigger] after[i].variables[j],
    ) by {
        lemma_last_named(scopes[i].variables, c.name, scopes[i].variables.len() as int);
        if after[i].variables[j] != c {
            assert(after[i].variables[j] == scopes[i].variables[j]);
        }
    }
    assert forall|i: int| 0 <= i < after.len() implies (#[trigger] after[i]).distinct() by {
        assert(scopes[i].distinct());
        lemma_add_keeps_distinct(scopes[i], c);
    }
}

proof fn lemma_declare_all_grounded(
    rule: FinalLocalVariable,
    source: Seq<char>,
    children: Seq<CstNode>,
    from: int,
    excluded: bool,
    scopes: Seq<ScopeView>,
)
    requires
        scopes_sound(source, scopes),
    ensures
        scopes_sound(source, declare_all(rule, source, children, from, excluded, scopes)),
    decreases children.len() - from,
{
    if 0 <= from < children.len() {
        let next = match declarator_candidate(rule, source, children[from], excluded) {
            Some(c) => declare(scopes, c),
            None => scopes,
        };
        match declarator_candidate(rule, source, children[from], excluded) {
            Some(c) => lemma_declare_grounded(source, scopes, c),
            None => {},
        }
        lemma_declare_all_grounded(rule, source, children, from + 1, excluded, next);
    }
}

proof fn lemma_assign_grounded(
    source: Seq<char>,
    scopes: Seq<ScopeView>,
    name: Seq<char>,
    floor: int,
)
    requires
        scopes_sound(source, scopes),
    ensures
        scopes_sound(source, assign(scopes, name, floor)),
{
    let after = assign(scopes, name, floor);
    lemma_innermost_holder_in_range(scopes, name, scopes.len() as int);
    assert forall|i: int, j: int|
        0 <= i < after.len() && 0 <= j < after[i].variables.len() implies candidate_grounded(
        source,
        #[trigger] after[i].variables[j],
    ) by {
        lemma_last_named_in_range(scopes[i].variables, name, scopes[i].variables.len() as int);
        assert(candidate_grounded(source, scopes[i].variables[j]));
    }
    assert forall|i: int| 0 <= i < after.len() implies (#[trigger] after[i]).distinct() by {
        assert(scopes[i].distinct());
        lemma_mark_keeps_distinct(
            scopes[i],
            name,
            innermost_holder(scopes, name, scopes.len() as int) < floor,
        );
    }
}

proof fn lemma_join_grounded(source: Seq<char>, ours: Seq<ScopeView>, theirs: Seq<ScopeView>)
    requires
        scopes_sound(source, ours),
    ensures
        scopes_sound(source, join_scopes(ours, theirs)),
{
    let met = join_scopes(ours, theirs);
    assert forall|i: int, j: int|
        0 <= i < met.len() && 0 <= j < met[i].variables.len() implies candidate_grounded(
        source,
        #[trigger] met[i].variables[j],
    ) by {
        assert(candidate_grounded(source, ours[i].variables[j]));
    }
    assert forall|i: int| 0 <= i < met.len() implies (#[trigger] met[i]).distinct() by {
        assert(ours[i].distinct());
        lemma_join_keeps_distinct(ours[i], theirs[i]);
    }
}

proof fn lemma_push_grounded(source: Seq<char>, st: EngineView, reporting: bool)
    requires
        grounded(source, st),
    ensures
        grounded(source, st.push_scope(reporting)),
{
    let after = st.push_scope(reporting);
    assert forall|i: int, j: int|
        0 <= i < after.scopes.len() && 0 <= j
            < after.scopes[i].variables.len() implies candidate_grounded(
        source,
        #[trigger] after.scopes[i].variables[j],
    ) by {
        assert(after.scopes[i] == st.scopes[i]);
        assert(candidate_grounded(source, st.scopes[i].variables[j]));
    }
    assert forall|i: int| 0 <= i < after.scopes.len() implies (#[trigger] after.scopes[i]).distinct() by {
        if i < st.scopes.len() {
            assert(after.scopes[i] == st.scopes[i]);
        }
    }
}

proof fn lemma_node_effect_grounded(
    rule: FinalLocalVariable,
    source: Seq<char>,
    node: CstNode,
    excluded: bool,
    floor: int,
    scopes: Seq<ScopeView>,
)
    requires
        scopes_sound(source, scopes),
    ensures
        scopes_sound(source, node_effect(rule, source, node, excluded, floor, scopes)),
{
    lemma_declare_all_grounded(rule, source, node.children@, 0, excluded, scopes);
    match assignment_target(source, node) {
        Some(name) => lemma_assign_grounded(source, scopes, name, floor),
        None => {},
    }
    match loop_variable(rule, source, node) {
        Some(c) => lemma_declare_grounded(source, scopes, c),
        None => {},
    }
}

/// The walk keeps the state in order: what it declares and what it reports lies
/// on names of the source, and every scope holds one candidate for each name.
pub proof fn lemma_visit_grounded(
    rule: FinalLocalVariable,
    source: Seq<char>,
    node: CstNode,
    quiet: bool,
    excluded: bool,
    floor: int,
    st: EngineView,
)
    requires
        grounded(source, st),
    ensures
        grounded(source, visit_spec(rule, source, node, quiet, excluded, floor, st)),
    decreases node,
{
    let kind = node.kind@;
    let inner_quiet = quiet || kind == "class_body"@;
    let inner_floor = if is_loop(kind) {
        st.scopes.len() as int
    } else {
        floor
    };
    let entered = if opens_scope(kind) {
        st.push_scope(!inner_quiet)
    } else {
        st
    };
    lemma_push_grounded(source, st, !inner_quiet);
    let acted = EngineView {
        scopes: node_effect(rule, source, node, excluded, inner_floor, entered.scopes),
        ..entered
    };
    lemma_node_effect_grounded(rule, source, node, excluded, inner_floor, entered.scopes);
    let walked = visit_children_spec(
        rule,
        source,
        kind,
        node.children@,
        0,
        inner_quiet,
        inner_floor,
        None,
        acted,
    );
    lemma_visit_children_grounded(
        rule,
        source,
        kind,
        node.children@,
        0,
        inner_quiet,
        inner_floor,
        None,
        acted,
    );
    lemma_pop_grounded(source, walked);
}

/// The walk over the children of a node keeps the state in the source.
pub proof fn lemma_visit_children_grounded(
    rule: FinalLocalVariable,
    source: Seq<char>,
    parent_kind: Seq<char>,
    children: Seq<CstNode>,
    i: int,
    quiet: bool,
    floor: int,
    entry: Option<Seq<ScopeView>>,
    st: EngineView,
)
    requires
        grounded(source, st),
        match entry {
            Some(e) => scopes_sound(source, e),
            None => true,
        },
    ensures
        grounded(
            source,
            visit_children_spec(rule, source, parent_kind, children, i, quiet, floor, entry, st),
        ),
    decreases children, children.len() - i,
{
    if 0 <= i < children.len() {
        if is_alternative(parent_kind, children[i]) {
            let e = match entry {
                Some(e) => e,
                None => st.scopes,
            };
            let begun = EngineView { scopes: e, diagnostics: st.diagnostics };
            let start = begun.push_scope(!quiet);
            lemma_push_grounded(source, begun, !quiet);
            let visited = visit_spec(rule, source, children[i], quiet, false, floor, start);
            lemma_visit_grounded(rule, source, children[i], quiet, false, floor, start);
            let ran = visited.pop_scope();
            lemma_pop_grounded(source, visited);
            let met = EngineView {
                scopes: join_scopes(st.scopes, ran.scopes),
                diagnostics: ran.diagnostics,
            };
            lemma_join_grounded(source, st.scopes, ran.scopes);
            lemma_visit_children_grounded(
                rule,
                source,
                parent_kind,
                children,
                i + 1,
                quiet,
                floor,
                Some(e),
                met,
            );
        } else {
            let excluded = parent_kind == "for_statement"@ && children[i].in_field("init"@);
            let next = visit_spec(rule, source, children[i], quiet, excluded, floor, st);
            lemma_visit_grounded(rule, source, children[i], quiet, excluded, floor, st);
            lemma_visit_children_grounded(
                rule,
                source,
                parent_kind,
                children,
                i + 1,
                quiet,
                floor,
                entry,
                next,
            );
        }
    }
}

proof fn lemma_analyze_body_grounded(rule: FinalLocalVariable, source: Seq<char>, body: CstNode)
    ensures
        diagnostics_grounded(source, analyze_body(rule, source, body)),
{
    let empty = EngineView { scopes: Seq::empty(), diagnostics: Seq::empty() };
    let start = empty.push_scope(true);
    lemma_push_grounded(source, empty, true);
    lemma_visit_grounded(rule, source, body, false, false, 0, start);
    lemma_pop_grounded(source, visit_spec(rule, source, body, false, false, 0, start));
}

proof fn lemma_analyze_initializers_grounded(
    rule: FinalLocalVariable,
    source: Seq<char>,
    children: Seq<CstNode>,
    from: int,
)
    ensures
        diagnostics_grounded(source, analyze_initializers(rule, source, children, from)),
    decreases children.len() - from,
{
    if 0 <= from < children.len() {
        lemma_analyze_initializers_grounded(rule, source, children, from + 1);
        if children[from].kind@ == "block"@ {
            lemma_analyze_body_grounded(rule, source, children[from]);
            let here = analyze_body(rule, source, children[from]);
            let rest = analyze_initializers(rule, source, children, from + 1);
            assert forall|k: int| 0 <= k < (here + rest).len() implies diagnostic_grounded(
                source,
                #[trigger] (here + rest)[k],
            ) by {
                if k < here.len() {
                    assert((here + rest)[k] == here[k]);
                } else {
                    assert((here + rest)[k] == rest[k - here.len()]);
                }
            }
        }
    }
}

/// Every diagnostic of the rule lies within the source, on the name of a
/// variable, names that variable in its message, and offers no fix.
pub proof fn lemma_findings_lie_on_names(rule: FinalLocalVariable, source: Seq<char>, node: CstNode)
    ensures
        diagnostics_grounded(source, final_local_variable_findings(rule, source, node)),
{
    let children = node.children@;
    lemma_first_in_field(children, "body"@, 0);
    lemma_first_of_kind(children, "block"@, 0);
    let b = first_in_field(children, "body"@, 0);
    if 0 <= b < children.len() {
        lemma_analyze_body_grounded(rule, source, children[b]);
    }
    let s = first_of_kind(children, "block"@, 0);
    if 0 <= s < children.len() {
        lemma_analyze_body_grounded(rule, source, children[s]);
    }
    lemma_analyze_initializers_grounded(rule, source, children, 0);
}

/// A variable that is disqualified or left out of the analysis stays so,
/// whatever the walk goes over afterwards, unless that code declares the name
/// again: the variables of the header of a `for` loop, which are disqualified
/// where they are declared, are never reported, however they are assigned.
pub proof fn lemma_disqualified_stays(
    rule: FinalLocalVariable,
    source: Seq<char>,
    node: CstNode,
    quiet: bool,
    excluded: bool,
    floor: int,
    st: EngineView,
    i: int,
    j: int,
)
    requires
        0 <= i < st.scopes.len(),
        0 <= j < st.scopes[i].variables.len(),
        st.scopes[i].variables[j].state == CandidateState::Disqualified,
        !declares_name(source, node, st.scopes[i].variables[j].name),
    ensures
        ({
            let after = visit_spec(rule, source, node, quiet, excluded, floor, st).scopes;
            &&& i < after.len()
            &&& j < after[i].variables.len()
            &&& after[i].variables[j].name == st.scopes[i].variables[j].name
            &&& after[i].variables[j].range == st.scopes[i].variables[j].range
            &&& after[i].variables[j].state == CandidateState::Disqualified
            &&& !after[i].variables[j].should_be_final()
        }),
{
    let watched = Some(st.scopes[i].variables[j].name);
    lemma_visit_advances(watched, rule, source, node, quiet, excluded, floor, st);
    let after = visit_spec(rule, source, node, quiet, excluded, floor, st).scopes;
    assert(scope_advanced(watched, st.scopes[i], after[i]));
    assert(candidate_advanced(st.scopes[i].variables[j], after[i].variables[j]));
}

/// What the header of a `for` loop declares is disqualified from the start, and
/// so is the variable of a for-each loop unless the rule checks such variables.
pub proof fn lemma_excluded_are_disqualified(
    rule: FinalLocalVariable,
    source: Seq<char>,
    node: CstNode,
)
    ensures
        match declarator_candidate(rule, source, node, true) {
            Some(c) => c.state == CandidateState::Disqualified && !c.should_be_final(),
            None => true,
        },
        match loop_variable(rule, source, node) {
            Some(c) => !rule.validate_enhanced_for_loop_variable ==> c.state
                == CandidateState::Disqualified && !c.should_be_final(),
            None => true,
        },
{
}

/// Only the declaration of a local variable and a for-each loop declare
/// candidates. No other node adds a variable to any scope: the parameters of a
/// lambda and of a catch clause never become candidates, whatever is done to
/// them.
pub proof fn lemma_only_declarations_declare(
    rule: FinalLocalVariable,
    source: Seq<char>,
    node: CstNode,
    excluded: bool,
    floor: int,
    scopes: Seq<ScopeView>,
)
    requires
        node.kind@ != "local_variable_declaration"@,
        node.kind@ != "enhanced_for_statement"@,
    ensures
        node_effect(rule, source, node, excluded, floor, scopes).len() == scopes.len(),
        forall|i: int|
            0 <= i < scopes.len() ==> (#[trigger] node_effect(
                rule,
                source,
                node,
                excluded,
                floor,
                scopes,
            )[i]).variables.len() == scopes[i].variables.len(),
{
    let after = node_effect(rule, source, node, excluded, floor, scopes);
    match assignment_target(source, node) {
        Some(name) => {
            lemma_innermost_holder_in_range(scopes, name, scopes.len() as int);
            assert forall|i: int| 0 <= i < scopes.len() implies (#[trigger] after[i]).variables.len()
                == scopes[i].variables.len() by {
                lemma_last_named_in_range(
                    scopes[i].variables,
                    name,
                    scopes[i].variables.len() as int,
                );
            }
        },
        None => {},
    }
}

} // verus!
