//! Checks that package names conform to a pattern.

use crate::config::Properties;
use crate::cst::CstNode;
use crate::diagnostics::{
    diagnostics_view, no_diagnostics, Diagnostic, DiagnosticView, FixAvailability, Violation,
};
use crate::pattern::{pattern_compiles, pattern_match, regex_compiles, regex_is_match};
use crate::rule::{CheckContext, FromConfig, Rule};
use crate::text::TextRange;
use vstd::prelude::*;
use vstd::string::StringExecFns;

verus! {

/// The pattern that package names are held to unless another is configured:
/// lower-case letters, then segments that are separated by dots.
pub open spec fn default_format() -> Seq<char> {
    "^[a-z]+(\\.[a-zA-Z_]\\w*)*$"@
}

/// Checks the name of the package against a pattern.
#[derive(Clone, Debug)]
pub struct PackageName {
    /// The pattern that a package name has to match.
    pub format_str: String,
}

/// Violation for package name not matching pattern.
#[derive(Clone, Debug)]
pub struct PackageNameInvalid {
    pub name: String,
    pub pattern: String,
}

/// The message that reports the package name `name` against `pattern`.
pub open spec fn package_name_message(name: Seq<char>, pattern: Seq<char>) -> Seq<char> {
    "Name '"@ + name + "' must match pattern '"@ + pattern + "'."@
}

impl Violation for PackageNameInvalid {
    open spec fn name_text(&self) -> Seq<char> {
        "PackageNameInvalid"@
    }

    open spec fn message_text(&self) -> Seq<char> {
        package_name_message(self.name@, self.pattern@)
    }

    open spec fn availability(&self) -> FixAvailability {
        FixAvailability::Never
    }

    fn rule_name(&self) -> (r: &'static str) {
        "PackageNameInvalid"
    }

    fn message(&self) -> (r: String) {
        let mut text = String::from_str("Name '");
        text.append(self.name.as_str());
        text.append("' must match pattern '");
        text.append(self.pattern.as_str());
        text.append("'.");
        text
    }

    fn fix_availability(&self) -> (r: FixAvailability) {
        FixAvailability::Never
    }
}

impl Default for PackageName {
    fn default() -> (r: Self)
        ensures
            r.format_str@ == default_format(),
    {
        PackageName { format_str: String::from_str("^[a-z]+(\\.[a-zA-Z_]\\w*)*$") }
    }
}

impl FromConfig for PackageName {
    fn module_name() -> (r: &'static str)
        ensures
            r@ == "PackageName"@,
    {
        "PackageName"
    }

    /// The configured `format` is taken where it is a pattern that compiles, the
    /// default pattern where none is configured or the one that is does not.
    fn from_config(properties: &Properties) -> (r: Self)
        ensures
            r.format_str@ == chosen_format(
                properties.value_of("format"@),
                match properties.value_of("format"@) {
                    Some(f) => regex_compiles(f),
                    None => false,
                },
            ),
    {
        match properties.get("format") {
            Some(format) => {
                let compiles = pattern_compiles(format);
                PackageName::with_format(Some(format), compiles)
            },
            None => PackageName::with_format(None, false),
        }
    }
}

/// The pattern that the rule works with: the configured one where there is one
/// and it compiles, else the default.
pub open spec fn chosen_format(configured: Option<Seq<char>>, compiles: bool) -> Seq<char> {
    match configured {
        Some(f) => if compiles {
            f
        } else {
            default_format()
        },
        None => default_format(),
    }
}

impl PackageName {
    /// The rule for the pattern `configured`, given whether that pattern
    /// compiles: it falls back to the default pattern where it does not, and where
    /// none is configured.
    pub fn with_format(configured: Option<&str>, compiles: bool) -> (r: PackageName)
        ensures
            r.format_str@ == chosen_format(
                match configured {
                    Some(f) => Some(f@),
                    None => None,
                },
                compiles,
            ),
    {
        match configured {
            Some(format) => {
                if compiles {
                    PackageName { format_str: String::from_str(format) }
                } else {
                    PackageName::default()
                }
            },
            None => PackageName::default(),
        }
    }
}

/// The index of the first node from `from` on that can name a package: a scoped
/// identifier or an identifier. The length of `nodes` where there is none.
pub open spec fn first_name_node(nodes: Seq<CstNode>, from: int) -> int
    decreases nodes.len() - from,
{
    if from < 0 || from >= nodes.len() {
        nodes.len() as int
    } else if nodes[from].kind@ == "scoped_identifier"@ || nodes[from].kind@ == "identifier"@ {
        from
    } else {
        first_name_node(nodes, from + 1)
    }
}

/// The name that a package declaration declares, and where it stands.
pub open spec fn declared_package(source: Seq<char>, node: CstNode) -> Option<
    (Seq<char>, TextRange),
> {
    let i = first_name_node(node.children@, 0);
    if i < node.children@.len() {
        match node.children@[i].text_in(source) {
            Some(name) => Some((name, node.children@[i].range)),
            None => None,
        }
    } else {
        None
    }
}

/// What the rule reports at `node`: the name of a package declaration that the
/// pattern does not match, at the name. Nothing where the pattern does not
/// compile.
pub open spec fn package_name_findings(format: Seq<char>, source: Seq<char>, node: CstNode) -> Seq<
    DiagnosticView,
> {
    if node.kind@ != "package_declaration"@ {
        Seq::empty()
    } else {
        match declared_package(source, node) {
            Some((name, range)) => package_name_verdict(
                format,
                name,
                range,
                if regex_compiles(format) {
                    Some(regex_is_match(format, name))
                } else {
                    None
                },
            ),
            None => Seq::empty(),
        }
    }
}

/// What is reported of the package name `name` at `range`, once it is known
/// whether the pattern `format` matches it.
pub open spec fn package_name_verdict(
    format: Seq<char>,
    name: Seq<char>,
    range: TextRange,
    matched: Option<bool>,
) -> Seq<DiagnosticView> {
    if matched == Some(false) {
        seq![
            DiagnosticView {
                name: "PackageNameInvalid"@,
                body: package_name_message(name, format),
                fix_availability: FixAvailability::Never,
                range,
                fix: None,
            },
        ]
    } else {
        Seq::empty()
    }
}

impl PackageName {
    /// Extract the package name and its range from a package declaration.
    pub fn extract_package_name<'a>(&self, ctx: &CheckContext<'a>, node: &CstNode) -> (r: Option<
        (&'a str, TextRange),
    >)
        ensures
            match r {
                Some((name, range)) => declared_package(ctx.source@, *node) == Some(
                    (name@, range),
                ),
                None => declared_package(ctx.source@, *node).is_none(),
            },
    {
        let mut i: usize = 0;
        while i < node.children.len()
            invariant
                i <= node.children.len(),
                first_name_node(node.children@, 0) == first_name_node(node.children@, i as int),
            decreases node.children.len() - i,
        {
            let child = &node.children[i];
            if child.kind_is("scoped_identifier") || child.kind_is("identifier") {
                return match child.text(ctx.source()) {
                    Some(name) => Some((name, child.range())),
                    None => None,
                };
            }
            i += 1;
        }
        None
    }

    /// What is reported of the package name `name` at `range`, given whether the
    /// pattern matched it: a violation where it did not, nothing where it did or
    /// where the pattern could not be used.
    pub fn verdict(&self, name: &str, range: TextRange, matched: Option<bool>) -> (r: Vec<
        Diagnostic,
    >)
        ensures
            diagnostics_view(r@) == package_name_verdict(self.format_str@, name@, range, matched),
    {
        match matched {
            Some(false) => {
                let violation = PackageNameInvalid {
                    name: String::from_str(name),
                    pattern: self.format_str.clone(),
                };
                let diagnostic = Diagnostic::new(&violation, range);
                let mut found: Vec<Diagnostic> = Vec::new();
                found.push(diagnostic);
                assert(diagnostics_view(found@) =~= seq![diagnostic@]);
                found
            },
            _ => no_diagnostics(),
        }
    }
}

impl Rule for PackageName {
    fn name(&self) -> (r: &'static str)
        ensures
            r@ == "PackageName"@,
    {
        "PackageName"
    }

    fn relevant_kinds(&self) -> (r: Option<Vec<&'static str>>)
        ensures
            match r {
                Some(kinds) => kinds@.map_values(|k: &'static str| k@) == seq!["package_declaration"@],
                None => false,
            },
    {
        let mut kinds: Vec<&'static str> = Vec::new();
        kinds.push("package_declaration");
        assert(kinds@.map_values(|k: &'static str| k@) =~= seq!["package_declaration"@]);
        Some(kinds)
    }

    fn is_relevant(&self, kind: &str) -> (r: bool)
        ensures
            r == (kind@ == "package_declaration"@),
    {
        crate::text::str_eq(kind, "package_declaration")
    }

    fn check(&self, ctx: &CheckContext, node: &CstNode) -> (r: Vec<Diagnostic>)
        ensures
            diagnostics_view(r@) == package_name_findings(self.format_str@, ctx.source@, *node),
    {
        if !node.kind_is("package_declaration") {
            return no_diagnostics();
        }
        match self.extract_package_name(ctx, node) {
            Some((name, range)) => {
                let matched = pattern_match(self.format_str.as_str(), name);
                self.verdict(name, range, matched)
            },
            None => no_diagnostics(),
        }
    }
}

} // verus!
