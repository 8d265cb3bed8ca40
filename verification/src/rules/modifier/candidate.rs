//! The candidates of the finality analysis: local variables that may turn out to
//! be given a value at most once, and the scopes that hold them.

use crate::text::{str_eq, TextRange};
use vstd::prelude::*;

verus! {

/// How many assignments a candidate has received since its declaration, on the
/// path on which it received the most.
#[derive(Clone, Copy, Debug, PartialEq, Eq, Structural)]
pub enum CandidateState {
    /// No assignment since the declaration.
    Untouched,
    /// Exactly one assignment on some path, and never more on any.
    SingleAssigned,
    /// Two or more assignments on some path, or left out of the analysis.
    Disqualified,
}

impl CandidateState {
    /// The number of assignments that the state stands for, two standing for
    /// "two or more".
    pub open spec fn events(self) -> nat {
        match self {
            CandidateState::Untouched => 0,
            CandidateState::SingleAssigned => 1,
            CandidateState::Disqualified => 2,
        }
    }

    /// The state after one more assignment.
    pub open spec fn assigned(self) -> CandidateState {
        match self {
            CandidateState::Untouched => CandidateState::SingleAssigned,
            _ => CandidateState::Disqualified,
        }
    }

    /// The state after an assignment that, where `repeating` holds, stands in a
    /// loop that the variable was declared outside of: it may run more than once,
    /// so it disqualifies at once.
    pub open spec fn assigned_in(self, repeating: bool) -> CandidateState {
        if repeating {
            CandidateState::Disqualified
        } else {
            self.assigned()
        }
    }

    /// The state where two alternatives of which only one runs meet again: that of
    /// the alternative which assigned more often.
    pub open spec fn join(self, other: CandidateState) -> CandidateState {
        if self.events() >= other.events() {
            self
        } else {
            other
        }
    }

    pub fn after_assignment(self, repeating: bool) -> (r: CandidateState)
        ensures
            r == self.assigned_in(repeating),
    {
        match self {
            CandidateState::Untouched => if repeating {
                CandidateState::Disqualified
            } else {
                CandidateState::SingleAssigned
            },
            _ => CandidateState::Disqualified,
        }
    }

    pub fn merged_with(self, other: CandidateState) -> (r: CandidateState)
        ensures
            r == self.join(other),
    {
        match (self, other) {
            (CandidateState::Disqualified, _) => CandidateState::Disqualified,
            (CandidateState::SingleAssigned, CandidateState::Disqualified) => {
                CandidateState::Disqualified
            },
            (CandidateState::SingleAssigned, _) => CandidateState::SingleAssigned,
            (CandidateState::Untouched, _) => other,
        }
    }
}

/// A local variable under analysis.
#[derive(Clone, Debug)]
pub struct VariableCandidate {
    /// The variable's name.
    pub name: String,
    /// Where the declaring identifier stands in the source.
    pub range: TextRange,
    /// Whether the declaration gives the variable a value.
    pub has_initializer: bool,
    /// The assignments seen since the declaration.
    pub state: CandidateState,
}

pub struct CandidateView {
    pub name: Seq<char>,
    pub range: TextRange,
    pub has_initializer: bool,
    pub state: CandidateState,
}

impl CandidateView {
    /// The number of times the variable is given a value on the path on which
    /// that happens most often: once by its initializer, if it has one, and once
    /// by each assignment. Two stands for "two or more".
    pub open spec fn value_actions(self) -> nat {
        (if self.has_initializer {
            1nat
        } else {
            0nat
        }) + self.state.events()
    }

    /// A variable should be declared final when it is given a value at most once
    /// on every path: by its initializer or by one assignment, or not at all.
    pub open spec fn should_be_final(self) -> bool {
        self.value_actions() <= 1
    }

    pub open spec fn assigned(self) -> CandidateView {
        CandidateView { state: self.state.assigned(), ..self }
    }

    pub open spec fn assigned_in(self, repeating: bool) -> CandidateView {
        CandidateView { state: self.state.assigned_in(repeating), ..self }
    }

    pub open spec fn joined(self, other: CandidateView) -> CandidateView {
        CandidateView { state: self.state.join(other.state), ..self }
    }
}

impl View for VariableCandidate {
    type V = CandidateView;

    open spec fn view(&self) -> CandidateView {
        CandidateView {
            name: self.name@,
            range: self.range,
            has_initializer: self.has_initializer,
            state: self.state,
        }
    }
}

impl VariableCandidate {
    /// Whether the variable is given a value at most once.
    pub fn should_be_final(&self) -> (r: bool)
        ensures
            r == self@.should_be_final(),
    {
        match self.state {
            CandidateState::Untouched => true,
            CandidateState::SingleAssigned => !self.has_initializer,
            CandidateState::Disqualified => false,
        }
    }

    /// A copy of the candidate in the state `state`.
    pub fn in_state(&self, state: CandidateState) -> (r: VariableCandidate)
        ensures
            r@ == (CandidateView { state, ..self@ }),
    {
        VariableCandidate {
            name: self.name.clone(),
            range: self.range,
            has_initializer: self.has_initializer,
            state,
        }
    }
}

/// The views of a list of candidates, in order.
pub open spec fn candidates_view(candidates: Seq<VariableCandidate>) -> Seq<CandidateView> {
    candidates.map_values(|c: VariableCandidate| c@)
}

/// The index of the last of the first `upto` candidates that is named `name`, or
/// -1 where none is.
pub open spec fn last_named(candidates: Seq<CandidateView>, name: Seq<char>, upto: int) -> int
    decreases upto,
{
    if upto <= 0 || upto > candidates.len() {
        -1
    } else if candidates[upto - 1].name == name {
        upto - 1
    } else {
        last_named(candidates, name, upto - 1)
    }
}

/// The candidates among the first `upto` that should be declared final, in the
/// order of their declaration.
pub open spec fn finals_among(candidates: Seq<CandidateView>, upto: int) -> Seq<CandidateView>
    decreases upto,
{
    if upto <= 0 || upto > candidates.len() {
        Seq::empty()
    } else if candidates[upto - 1].should_be_final() {
        finals_among(candidates, upto - 1).push(candidates[upto - 1])
    } else {
        finals_among(candidates, upto - 1)
    }
}

/// Where the alternatives `ours` and `theirs` of a branch meet again: each
/// candidate of `ours`, in the state of whichever alternative assigned it more
/// often.
pub open spec fn join_candidates(ours: Seq<CandidateView>, theirs: Seq<CandidateView>) -> Seq<
    CandidateView,
> {
    Seq::new(
        ours.len(),
        |j: int|
            if j < theirs.len() {
                ours[j].joined(theirs[j])
            } else {
                ours[j]
            },
    )
}

/// The variables declared in one scope (a method's body, a block, a loop): one
/// candidate for each name. A name that is declared again takes the place of the
/// candidate that the scope held for it.
#[derive(Clone, Debug)]
pub struct ScopeData {
    /// The candidates, in the order in which their names were first declared. No
    /// name occurs twice.
    pub variables: Vec<VariableCandidate>,
    /// Whether the scope's candidates are reported when it closes.
    pub reporting: bool,
}

pub struct ScopeView {
    pub variables: Seq<CandidateView>,
    pub reporting: bool,
}

impl ScopeView {
    /// No name occurs twice among the candidates.
    pub open spec fn distinct(self) -> bool {
        forall|i: int, j: int|
            0 <= i < j < self.variables.len() ==> self.variables[i].name
                != self.variables[j].name
    }

    /// Whether the scope declares a variable named `name`.
    pub open spec fn holds(self, name: Seq<char>) -> bool {
        last_named(self.variables, name, self.variables.len() as int) >= 0
    }

    /// The scope after an assignment to `name`: the candidate of that name moves
    /// on by one assignment, or is disqualified where the assignment is
    /// `repeating`; a scope without one stays as it is.
    pub open spec fn mark_assigned(self, name: Seq<char>, repeating: bool) -> ScopeView {
        let i = last_named(self.variables, name, self.variables.len() as int);
        if i >= 0 {
            ScopeView {
                variables: self.variables.update(i, self.variables[i].assigned_in(repeating)),
                ..self
            }
        } else {
            self
        }
    }

    /// The scope after the declaration of `candidate`: it takes the place of the
    /// candidate that the scope holds for its name, or stands after the others
    /// where the scope holds none.
    pub open spec fn add(self, candidate: CandidateView) -> ScopeView {
        let i = last_named(self.variables, candidate.name, self.variables.len() as int);
        if i >= 0 {
            ScopeView { variables: self.variables.update(i, candidate), ..self }
        } else {
            ScopeView { variables: self.variables.push(candidate), ..self }
        }
    }

    /// The candidates that the scope reports when it closes.
    pub open spec fn finals(self) -> Seq<CandidateView> {
        if self.reporting {
            finals_among(self.variables, self.variables.len() as int)
        } else {
            Seq::empty()
        }
    }

    pub open spec fn joined(self, other: ScopeView) -> ScopeView {
        ScopeView { variables: join_candidates(self.variables, other.variables), ..self }
    }
}

impl View for ScopeData {
    type V = ScopeView;

    open spec fn view(&self) -> ScopeView {
        ScopeView { variables: candidates_view(self.variables@), reporting: self.reporting }
    }
}

impl ScopeData {
    /// The scope holds no name twice.
    pub open spec fn wf(self) -> bool {
        self@.distinct()
    }

    /// An empty scope.
    pub fn new(reporting: bool) -> (r: ScopeData)
        ensures
            r@ == (ScopeView { variables: Seq::empty(), reporting }),
            r.wf(),
    {
        let r = ScopeData { variables: Vec::new(), reporting };
        assert(r@.variables =~= Seq::empty());
        r
    }

    /// Declares a variable in this scope. Where the scope holds a candidate of
    /// that name already, the new one takes its place. One that is `excluded` from
    /// the analysis is held as disqualified from the start.
    pub fn add_variable(
        &mut self,
        name: String,
        ident_range: TextRange,
        has_initializer: bool,
        excluded: bool,
    )
        ensures
            final(self)@ == old(self)@.add(
                CandidateView {
                    name: name@,
                    range: ident_range,
                    has_initializer,
                    state: if excluded {
                        CandidateState::Disqualified
                    } else {
                        CandidateState::Untouched
                    },
                },
            ),
            old(self).wf() ==> final(self).wf(),
    {
        let state = if excluded {
            CandidateState::Disqualified
        } else {
            CandidateState::Untouched
        };
        let ghost declared = CandidateView {
            name: name@,
            range: ident_range,
            has_initializer,
            state,
        };
        proof {
            lemma_add_keeps_distinct(old(self)@, declared);
        }
        let place = self.find(name.as_str());
        let candidate = VariableCandidate { name, range: ident_range, has_initializer, state };
        match place {
            Some(i) => {
                self.variables.set(i, candidate);
                assert(final(self)@.variables =~= old(self)@.variables.update(i as int, declared));
            },
            None => {
                self.variables.push(candidate);
                assert(final(self)@.variables =~= old(self)@.variables.push(declared));
            },
        }
    }

    /// The index of the candidate of `name` in this scope.
    pub fn find(&self, name: &str) -> (r: Option<usize>)
        ensures
            match r {
                Some(i) => i as int == last_named(
                    self@.variables,
                    name@,
                    self@.variables.len() as int,
                ) && i < self.variables@.len(),
                None => !self@.holds(name@),
            },
    {
        let mut i: usize = self.variables.len();
        while i > 0
            invariant
                i <= self.variables.len(),
                last_named(self@.variables, name@, self@.variables.len() as int) == last_named(
                    self@.variables,
                    name@,
                    i as int,
                ),
            decreases i,
        {
            if str_eq(self.variables[i - 1].name.as_str(), name) {
                return Some(i - 1);
            }
            i -= 1;
        }
        None
    }

    /// Whether this scope declares `name`.
    pub fn contains(&self, name: &str) -> (r: bool)
        ensures
            r == self@.holds(name@),
    {
        self.find(name).is_some()
    }

    /// Records an assignment to `name`, if this scope declares it. A `repeating`
    /// assignment stands in a loop that was entered after this scope was opened.
    pub fn mark_assigned(&mut self, name: &str, repeating: bool)
        ensures
            final(self)@ == old(self)@.mark_assigned(name@, repeating),
            old(self).wf() ==> final(self).wf(),
    {
        proof {
            lemma_mark_keeps_distinct(old(self)@, name@, repeating);
        }
        match self.find(name) {
            Some(i) => {
                let next = self.variables[i].in_state(
                    self.variables[i].state.after_assignment(repeating),
                );
                self.variables.set(i, next);
                assert(final(self)@.variables =~= old(self)@.variables.update(
                    i as int,
                    old(self)@.variables[i as int].assigned_in(repeating),
                ));
            },
            None => {},
        }
    }

    /// The variables of this scope that should be declared final, in the order of
    /// their declaration; none for a scope that does not report.
    pub fn get_should_be_final(&self) -> (r: Vec<VariableCandidate>)
        ensures
            candidates_view(r@) == self@.finals(),
    {
        let mut found: Vec<VariableCandidate> = Vec::new();
        if !self.reporting {
            assert(candidates_view(found@) =~= Seq::empty());
            return found;
        }
        let mut i: usize = 0;
        assert(candidates_view(found@) =~= finals_among(self@.variables, 0));
        while i < self.variables.len()
            invariant
                i <= self.variables.len(),
                candidates_view(found@) == finals_among(self@.variables, i as int),
            decreases self.variables.len() - i,
        {
            if self.variables[i].should_be_final() {
                let copy = self.variables[i].in_state(self.variables[i].state);
                found.push(copy);
                assert(candidates_view(found@) =~= finals_among(self@.variables, i as int).push(
                    self@.variables[i as int],
                ));
            }
            i += 1;
        }
        found
    }

    /// This scope where it meets `other` after a branch: each of its candidates in
    /// the state of whichever side assigned it more often.
    pub fn merged_with(&self, other: &ScopeData) -> (r: ScopeData)
        ensures
            r@ == self@.joined(other@),
            self.wf() ==> r.wf(),
    {
        proof {
            lemma_join_keeps_distinct(self@, other@);
        }
        let mut variables: Vec<VariableCandidate> = Vec::new();
        let mut j: usize = 0;
        while j < self.variables.len()
            invariant
                j <= self.variables.len(),
                variables@.len() == j,
                forall|k: int|
                    0 <= k < j ==> (#[trigger] variables@[k])@ == join_candidates(
                        self@.variables,
                        other@.variables,
                    )[k],
            decreases self.variables.len() - j,
        {
            let state = if j < other.variables.len() {
                self.variables[j].state.merged_with(other.variables[j].state)
            } else {
                self.variables[j].state
            };
            variables.push(self.variables[j].in_state(state));
            j += 1;
        }
        let r = ScopeData { variables, reporting: self.reporting };
        assert(r@.variables =~= join_candidates(self@.variables, other@.variables));
        r
    }
}

/// Declaring a candidate leaves the scope with one candidate for each name.
pub proof fn lemma_add_keeps_distinct(scope: ScopeView, candidate: CandidateView)
    ensures
        scope.distinct() ==> scope.add(candidate).distinct(),
{
    let n = scope.variables.len() as int;
    lemma_last_named(scope.variables, candidate.name, n);
}

/// An assignment leaves the scope with one candidate for each name.
pub proof fn lemma_mark_keeps_distinct(scope: ScopeView, name: Seq<char>, repeating: bool)
    ensures
        scope.distinct() ==> scope.mark_assigned(name, repeating).distinct(),
{
    lemma_last_named(scope.variables, name, scope.variables.len() as int);
}

/// Where alternatives meet, the scope is left with one candidate for each name.
pub proof fn lemma_join_keeps_distinct(ours: ScopeView, theirs: ScopeView)
    ensures
        ours.distinct() ==> ours.joined(theirs).distinct(),
{
}

/// A scope maps each name to one candidate. After the declaration of a
/// candidate the scope holds that candidate for its name, and for no other name
/// another candidate than before; it has grown by one exactly where it did not
/// hold the name.
pub proof fn lemma_declaration_replaces(scope: ScopeView, candidate: CandidateView)
    requires
        scope.distinct(),
    ensures
        scope.add(candidate).distinct(),
        scope.add(candidate).holds(candidate.name),
        scope.add(candidate).variables[last_named(
            scope.add(candidate).variables,
            candidate.name,
            scope.add(candidate).variables.len() as int,
        )] == candidate,
        scope.add(candidate).variables.len() == scope.variables.len() + if scope.holds(
            candidate.name,
        ) {
            0int
        } else {
            1int
        },
        forall|k: int|
            0 <= k < scope.variables.len() && scope.variables[k].name != candidate.name
                ==> #[trigger] scope.add(candidate).variables[k] == scope.variables[k],
        forall|k: int|
            0 <= k < scope.add(candidate).variables.len() ==> (#[trigger] scope.add(
                candidate,
            ).variables[k]) == candidate || (k < scope.variables.len() && scope.add(
                candidate,
            ).variables[k] == scope.variables[k]),
{
    let n = scope.variables.len() as int;
    let after = scope.add(candidate);
    lemma_add_keeps_distinct(scope, candidate);
    lemma_last_named(scope.variables, candidate.name, n);
    lemma_last_named(after.variables, candidate.name, after.variables.len() as int);
    let i = last_named(scope.variables, candidate.name, n);
    if i >= 0 {
        assert(after.variables[i].name == candidate.name);
    } else {
        assert(after.variables[n].name == candidate.name);
    }
}

/// A variable that is never assigned after its declaration is reported when its
/// scope closes, whether or not the declaration gave it a value.
pub proof fn lemma_untouched_is_reported(c: CandidateView)
    requires
        c.state == CandidateState::Untouched,
    ensures
        c.should_be_final(),
        (ScopeView { variables: seq![c], reporting: true }).finals() == seq![c],
        (ScopeView { variables: seq![c], reporting: false }).finals()
            == Seq::<CandidateView>::empty(),
{
    let vars = seq![c];
    reveal_with_fuel(finals_among, 2);
    assert(finals_among(vars, 0) =~= Seq::<CandidateView>::empty());
    assert(finals_among(vars, 1) =~= seq![c]);
}

/// An assignment to a variable that its declaration gave a value disqualifies
/// it, whatever happened to it before and whatever happens after.
pub proof fn lemma_reassignment_disqualifies(c: CandidateView, later: CandidateState)
    requires
        c.has_initializer,
    ensures
        !c.assigned().should_be_final(),
        !c.assigned().assigned().should_be_final(),
        !c.assigned().joined(CandidateView { state: later, ..c }).should_be_final(),
{
}

/// A variable declared without a value and assigned once in each of two
/// alternatives, of which only one runs, is given a value exactly once; one more
/// assignment after the alternatives have met disqualifies it; and so do two
/// assignments within one alternative.
pub proof fn lemma_exclusive_assignments_count_once(c: CandidateView)
    requires
        !c.has_initializer,
        c.state == CandidateState::Untouched,
    ensures
        c.assigned().joined(c.assigned()).should_be_final(),
        c.assigned().joined(c).should_be_final(),
        c.joined(c.assigned()).should_be_final(),
        !c.assigned().joined(c.assigned()).assigned().should_be_final(),
        !c.assigned().assigned().joined(c.assigned()).should_be_final(),
        !c.assigned().joined(c.assigned().assigned()).should_be_final(),
{
}

/// An assignment within a loop to a variable that was declared outside the loop
/// disqualifies the variable, whatever its state and whether or not its
/// declaration gave it a value; so does any assignment to a variable that its
/// declaration gave a value.
pub proof fn lemma_loop_assignment_disqualifies(c: CandidateView)
    ensures
        c.assigned_in(true).state == CandidateState::Disqualified,
        !c.assigned_in(true).should_be_final(),
        c.has_initializer ==> !c.assigned_in(false).should_be_final(),
{
}

/// Where alternatives meet, a candidate has the larger of the two counts: the
/// meeting never takes an assignment back, and the order of the alternatives
/// does not matter for the state.
pub proof fn lemma_join_is_maximum(a: CandidateState, b: CandidateState)
    ensures
        a.join(b).events() == if a.events() >= b.events() {
            a.events()
        } else {
            b.events()
        },
        a.join(b) == b.join(a),
        a.join(a) == a,
        a.assigned().events() > a.events() || a == CandidateState::Disqualified,
{
}

/// A disqualified candidate stays disqualified under every assignment and every
/// meeting of alternatives, and is never reported.
pub proof fn lemma_disqualified_is_final_state(c: CandidateView, other: CandidateView)
    requires
        c.state == CandidateState::Disqualified,
    ensures
        c.assigned().state == CandidateState::Disqualified,
        c.joined(other).state == CandidateState::Disqualified,
        other.joined(c).state == CandidateState::Disqualified,
        !c.should_be_final(),
{
}

/// What a scope reports are candidates of that scope which are given a value at
/// most once.
pub proof fn lemma_finals_should_be_final(candidates: Seq<CandidateView>, upto: int)
    requires
        0 <= upto <= candidates.len(),
    ensures
        forall|k: int|
            0 <= k < finals_among(candidates, upto).len() ==> (#[trigger] finals_among(
                candidates,
                upto,
            )[k]).should_be_final() && candidates.subrange(0, upto).contains(
                finals_among(candidates, upto)[k],
            ),
    decreases upto,
{
    if upto > 0 {
        lemma_finals_should_be_final(candidates, upto - 1);
        let before = finals_among(candidates, upto - 1);
        let all = finals_among(candidates, upto);
        assert forall|k: int| 0 <= k < all.len() implies (#[trigger] all[k]).should_be_final()
            && candidates.subrange(0, upto).contains(all[k]) by {
            if k < before.len() {
                let m = choose|m: int|
                    0 <= m < upto - 1 && #[trigger] candidates.subrange(0, upto - 1)[m]
                        == before[k];
                assert(candidates.subrange(0, upto)[m] == all[k]);
            } else {
                assert(candidates.subrange(0, upto)[upto - 1] == all[k]);
            }
        }
    }
}

/// The index that `last_named` gives is -1 or that of a candidate.
pub proof fn lemma_last_named_in_range(candidates: Seq<CandidateView>, name: Seq<char>, upto: int)
    ensures
        -1 <= last_named(candidates, name, upto) < candidates.len(),
    decreases upto,
{
    if upto > 0 && upto <= candidates.len() {
        lemma_last_named_in_range(candidates, name, upto - 1);
    }
}

/// The index that `last_named` gives is that of a candidate named `name`, after
/// which none of the first `upto` is named so; it is -1 exactly where none of
/// them is.
pub proof fn lemma_last_named(candidates: Seq<CandidateView>, name: Seq<char>, upto: int)
    requires
        0 <= upto <= candidates.len(),
    ensures
        -1 <= last_named(candidates, name, upto) < upto,
        last_named(candidates, name, upto) >= 0 ==> candidates[last_named(
            candidates,
            name,
            upto,
        )].name == name,
        forall|k: int|
            last_named(candidates, name, upto) < k < upto ==> (#[trigger] candidates[k]).name
                != name,
    decreases upto,
{
    if upto > 0 && candidates[upto - 1].name != name {
        lemma_last_named(candidates, name, upto - 1);
    }
}

} // verus!
