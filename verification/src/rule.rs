//! What every rule offers, and what it is handed.

use crate::config::Properties;
use crate::cst::CstNode;
use crate::diagnostics::Diagnostic;
use vstd::prelude::*;

verus! {

/// What a rule is handed beside the node: the text of the source file.
pub struct CheckContext<'a> {
    pub source: &'a str,
}

impl<'a> CheckContext<'a> {
    pub fn new(source: &'a str) -> (r: CheckContext<'a>)
        ensures
            r.source@ == source@,
    {
        CheckContext { source }
    }

    pub fn source(&self) -> (r: &'a str)
        ensures
            r@ == self.source@,
    {
        self.source
    }
}

/// A rule that is built from the options of a configuration.
pub trait FromConfig: Sized {
    /// The name under which a configuration sets the rule's options.
    fn module_name() -> &'static str;

    /// The rule as `properties` configures it. Options that the rule does not
    /// know are passed over, and a value that it cannot read leaves the option at
    /// its default.
    fn from_config(properties: &Properties) -> Self;
}

/// A check that is run on the nodes of a syntax tree.
pub trait Rule {
    /// The name under which the rule reports.
    fn name(&self) -> &'static str;

    /// The kinds of node that the rule looks at; nothing for a rule that looks at
    /// every node.
    fn relevant_kinds(&self) -> Option<Vec<&'static str>>;

    /// Whether the rule looks at nodes of the kind `kind`: its filter holds the
    /// kind, or it has no filter.
    fn is_relevant(&self, kind: &str) -> bool;

    /// The violations that the rule finds at `node`.
    fn check(&self, ctx: &CheckContext, node: &CstNode) -> Vec<Diagnostic>;
}

} // verus!
