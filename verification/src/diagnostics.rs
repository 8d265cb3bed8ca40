//! The value types of a reported violation.

use crate::text::TextRange;
use vstd::prelude::*;

verus! {

/// Whether a kind of violation comes with an automatic fix.
#[derive(Clone, Copy, Debug, PartialEq, Eq, Structural)]
pub enum FixAvailability {
    /// A fix is offered for some occurrences.
    Sometimes,
    /// A fix is offered for every occurrence.
    Always,
    /// No fix is ever offered.
    Never,
}

/// One replacement of a byte range by new text.
#[derive(Clone, Debug)]
pub struct Edit {
    pub range: TextRange,
    pub content: String,
}

pub struct EditView {
    pub range: TextRange,
    pub content: Seq<char>,
}

impl View for Edit {
    type V = EditView;

    open spec fn view(&self) -> EditView {
        EditView { range: self.range, content: self.content@ }
    }
}

/// The edits that resolve one diagnostic.
#[derive(Clone, Debug)]
pub struct Fix {
    pub edits: Vec<Edit>,
}

impl View for Fix {
    type V = Seq<EditView>;

    open spec fn view(&self) -> Seq<EditView> {
        self.edits@.map_values(|e: Edit| e@)
    }
}

/// A kind of violation: the name it is reported under, its message, and whether
/// it can be fixed automatically.
pub trait Violation {
    spec fn name_text(&self) -> Seq<char>;

    spec fn message_text(&self) -> Seq<char>;

    spec fn availability(&self) -> FixAvailability;

    fn rule_name(&self) -> (r: &'static str)
        ensures
            r@ == self.name_text(),
    ;

    fn message(&self) -> (r: String)
        ensures
            r@ == self.message_text(),
    ;

    fn fix_availability(&self) -> (r: FixAvailability)
        ensures
            r == self.availability(),
    ;
}

/// What a diagnostic says: the violation's name and its message.
#[derive(Clone, Debug)]
pub struct DiagnosticKind {
    pub name: String,
    pub body: String,
    pub fix_availability: FixAvailability,
}

/// One reported violation.
#[derive(Clone, Debug)]
pub struct Diagnostic {
    pub kind: DiagnosticKind,
    pub range: TextRange,
    pub fix: Option<Fix>,
}

pub struct DiagnosticView {
    pub name: Seq<char>,
    pub body: Seq<char>,
    pub fix_availability: FixAvailability,
    pub range: TextRange,
    pub fix: Option<Seq<EditView>>,
}

impl View for Diagnostic {
    type V = DiagnosticView;

    open spec fn view(&self) -> DiagnosticView {
        DiagnosticView {
            name: self.kind.name@,
            body: self.kind.body@,
            fix_availability: self.kind.fix_availability,
            range: self.range,
            fix: match self.fix {
                Some(f) => Some(f@),
                None => None,
            },
        }
    }
}

/// The views of a list of diagnostics, in order.
pub open spec fn diagnostics_view(diagnostics: Seq<Diagnostic>) -> Seq<DiagnosticView> {
    diagnostics.map_values(|d: Diagnostic| d@)
}

/// The diagnostic that reports `violation` at `range`, without a fix.
pub open spec fn diagnostic_of<V: Violation>(violation: V, range: TextRange) -> DiagnosticView {
    DiagnosticView {
        name: violation.name_text(),
        body: violation.message_text(),
        fix_availability: violation.availability(),
        range,
        fix: None,
    }
}

/// An empty list of diagnostics.
pub fn no_diagnostics() -> (r: Vec<Diagnostic>)
    ensures
        r@.len() == 0,
        diagnostics_view(r@) == Seq::<DiagnosticView>::empty(),
{
    let r: Vec<Diagnostic> = Vec::new();
    assert(diagnostics_view(r@) =~= Seq::<DiagnosticView>::empty());
    r
}

/// Adds one diagnostic at the end of a list.
pub fn push_diagnostic(found: &mut Vec<Diagnostic>, diagnostic: Diagnostic)
    ensures
        diagnostics_view(final(found)@) == diagnostics_view(old(found)@).push(diagnostic@),
{
    found.push(diagnostic);
    assert(diagnostics_view(final(found)@) =~= diagnostics_view(old(found)@).push(diagnostic@));
}

/// Adds the diagnostics of `more` at the end of a list, in their order.
pub fn append_diagnostics(found: &mut Vec<Diagnostic>, more: Vec<Diagnostic>)
    ensures
        diagnostics_view(final(found)@) == diagnostics_view(old(found)@) + diagnostics_view(more@),
{
    let ghost added = more@;
    let mut more = more;
    found.append(&mut more);
    assert(diagnostics_view(final(found)@) =~= diagnostics_view(old(found)@) + diagnostics_view(
        added,
    ));
}

impl Diagnostic {
    /// Reports `violation` at `range`, without a fix.
    pub fn new<V: Violation>(violation: &V, range: TextRange) -> (r: Diagnostic)
        ensures
            r@ == diagnostic_of(*violation, range),
    {
        let name = violation.rule_name().to_owned();
        let body = violation.message();
        Diagnostic {
            kind: DiagnosticKind { name, body, fix_availability: violation.fix_availability() },
            range,
            fix: None,
        }
    }

    /// The same diagnostic, resolved by the one edit that replaces `range` with
    /// `content`.
    pub fn with_fix(self, range: TextRange, content: String) -> (r: Diagnostic)
        ensures
            r@ == (DiagnosticView {
                fix: Some(seq![EditView { range, content: content@ }]),
                ..self@
            }),
    {
        let mut edits: Vec<Edit> = Vec::new();
        edits.push(Edit { range, content });
        let fix = Fix { edits };
        proof {
            assert(fix@ =~= seq![EditView { range, content: content@ }]);
        }
        Diagnostic { kind: self.kind, range: self.range, fix: Some(fix) }
    }

    /// The offset at which the violation starts.
    pub fn start(&self) -> (r: u32)
        ensures
            r == self@.range.start,
    {
        self.range.start
    }
}

} // verus!
