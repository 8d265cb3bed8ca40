//! Detects imports that are never used in the code.

use crate::config::Properties;
use crate::cst::CstNode;
use crate::diagnostics::{
    diagnostics_view, no_diagnostics, push_diagnostic, Diagnostic, DiagnosticView, EditView,
    FixAvailability, Violation,
};
use crate::rule::{CheckContext, FromConfig, Rule};
use crate::rules::imports::common::{collect_imports, collected_imports, ImportInfoView};
use crate::rules::imports::javadoc::{collect_javadoc_recursive, javadoc_in};
use crate::rules::imports::usages::{collect_type_usages, type_usages};
use crate::source_index::{line_starts, LineIndex};
use crate::text::str_eq;
use vstd::prelude::*;
use vstd::string::{StringExecFns, StringSliceAdditionalSpecFns};
use vstd::utf8::encode_utf8;

verus! {

/// Violation: import is unused.
#[derive(Clone, Debug)]
pub struct UnusedImportViolation {
    pub import_path: String,
}

/// The message that reports the unused import of `path`.
pub open spec fn unused_import_message(path: Seq<char>) -> Seq<char> {
    "Unused import - "@ + path + "."@
}

impl Violation for UnusedImportViolation {
    open spec fn name_text(&self) -> Seq<char> {
        "UnusedImportViolation"@
    }

    open spec fn message_text(&self) -> Seq<char> {
        unused_import_message(self.import_path@)
    }

    open spec fn availability(&self) -> FixAvailability {
        FixAvailability::Always
    }

    fn rule_name(&self) -> (r: &'static str) {
        "UnusedImportViolation"
    }

    fn message(&self) -> (r: String) {
        let mut text = String::from_str("Unused import - ");
        text.append(self.import_path.as_str());
        text.append(".");
        text
    }

    fn fix_availability(&self) -> (r: FixAvailability) {
        FixAvailability::Always
    }
}

/// Configuration for the rule on unused imports.
#[derive(Clone, Copy, Debug, PartialEq, Eq, Structural)]
pub struct UnusedImports {
    /// Whether to scan Javadoc comments for type references.
    pub process_javadoc: bool,
}

impl Default for UnusedImports {
    fn default() -> (r: Self)
        ensures
            r.process_javadoc,
    {
        UnusedImports { process_javadoc: true }
    }
}

impl FromConfig for UnusedImports {
    fn module_name() -> (r: &'static str)
        ensures
            r@ == "UnusedImports"@,
    {
        "UnusedImports"
    }

    fn from_config(properties: &Properties) -> (r: Self)
        ensures
            r.process_javadoc == properties.flag_unless_false("processJavadoc"@, true),
    {
        let process_javadoc = properties.get_flag_unless_false("processJavadoc", true);
        UnusedImports { process_javadoc }
    }
}

/// The diagnostic for the unused import `import`: its fix takes the declaration
/// out.
pub open spec fn unused_import_diagnostic(import: ImportInfoView) -> DiagnosticView {
    DiagnosticView {
        name: "UnusedImportViolation"@,
        body: unused_import_message(import.path),
        fix_availability: FixAvailability::Always,
        range: import.range,
        fix: Some(seq![EditView { range: import.range, content: Seq::<char>::empty() }]),
    }
}

/// Whether nothing uses the import: it imports one name, and that name is not
/// among the names in use. An import of all names of a package counts as used.
pub open spec fn is_unused(import: ImportInfoView, used: Seq<Seq<char>>) -> bool {
    match import.simple_name {
        Some(name) => !import.is_wildcard && !used.contains(name),
        None => false,
    }
}

/// The diagnostics for the unused imports among `imports` from `from` on, in
/// their order.
pub open spec fn unused_among(imports: Seq<ImportInfoView>, used: Seq<Seq<char>>, from: int)
    -> Seq<DiagnosticView>
    decreases imports.len() - from,
{
    if from < 0 || from >= imports.len() {
        Seq::empty()
    } else {
        (if is_unused(imports[from], used) {
            seq![unused_import_diagnostic(imports[from])]
        } else {
            Seq::empty()
        }) + unused_among(imports, used, from + 1)
    }
}

/// The names in use in a file: those that its code uses and, where the rule
/// reads documentation comments, those that they refer to.
pub open spec fn used_names(rule: UnusedImports, source: Seq<char>, root: CstNode) -> Seq<
    Seq<char>,
> {
    if rule.process_javadoc {
        javadoc_in(source, root, type_usages(source, root))
    } else {
        type_usages(source, root)
    }
}

/// What the rule reports at `node`: at the root of a program, each import of a
/// name that nothing in the file uses; nothing at any other node, and nothing of
/// a text too long for its offsets.
pub open spec fn unused_imports_findings(rule: UnusedImports, source: Seq<char>, node: CstNode)
    -> Seq<DiagnosticView> {
    let bytes = encode_utf8(source);
    if node.kind@ != "program"@ || bytes.len() > u32::MAX {
        Seq::empty()
    } else {
        unused_among(
            collected_imports(source, line_starts(bytes, bytes.len() as int), node),
            used_names(rule, source, node),
            0,
        )
    }
}

impl Rule for UnusedImports {
    fn name(&self) -> (r: &'static str)
        ensures
            r@ == "UnusedImports"@,
    {
        "UnusedImports"
    }

    fn relevant_kinds(&self) -> (r: Option<Vec<&'static str>>)
        ensures
            match r {
                Some(kinds) => kinds@.map_values(|k: &'static str| k@) == seq!["program"@],
                None => false,
            },
    {
        let mut kinds: Vec<&'static str> = Vec::new();
        kinds.push("program");
        assert(kinds@.map_values(|k: &'static str| k@) =~= seq!["program"@]);
        Some(kinds)
    }

    fn is_relevant(&self, kind: &str) -> (r: bool)
        ensures
            r == (kind@ == "program"@),
    {
        str_eq(kind, "program")
    }

    fn check(&self, ctx: &CheckContext, node: &CstNode) -> (r: Vec<Diagnostic>)
        ensures
            diagnostics_view(r@) == unused_imports_findings(*self, ctx.source@, *node),
    {
        let mut found = no_diagnostics();
        let source = ctx.source();
        // Only check at program level (once per file)
        if !node.kind_is("program") || source.as_bytes().len() > u32::MAX as usize {
            return found;
        }
        let line_index = LineIndex::from_source_text(source);
        let imports = collect_imports(node, source, &line_index);
        let mut used = collect_type_usages(node, source);
        if self.process_javadoc {
            collect_javadoc_recursive(node, source, &mut used);
        }
        let ghost all = collected_imports(ctx.source@, line_index.starts@, *node);
        let mut i: usize = 0;
        while i < imports.len()
            invariant
                i <= imports.len(),
                used@ == used_names(*self, ctx.source@, *node),
                all == crate::rules::imports::common::imports_view(imports@),
                diagnostics_view(found@) + unused_among(all, used@, i as int) == unused_among(
                    all,
                    used@,
                    0,
                ),
            decreases imports.len() - i,
        {
            let import = &imports[i];
            let ghost before = diagnostics_view(found@);
            let ghost here = if is_unused(all[i as int], used@) {
                seq![unused_import_diagnostic(all[i as int])]
            } else {
                Seq::empty()
            };
            let ghost rest = unused_among(all, used@, i as int + 1);
            assert(all[i as int] == import@);
            let unused = match &import.simple_name {
                Some(name) => !import.is_wildcard && !used.contains(name.as_str()),
                None => false,
            };
            if unused {
                let violation = UnusedImportViolation { import_path: import.path.clone() };
                let diagnostic = Diagnostic::new(&violation, import.range).with_fix(
                    import.range,
                    String::new(),
                );
                push_diagnostic(&mut found, diagnostic);
            }
            assert(diagnostics_view(found@) =~= before + here);
            assert((before + here) + rest =~= before + (here + rest));
            i += 1;
        }
        assert(diagnostics_view(found@) =~= unused_among(all, used@, 0));
        found
    }
}

} // verus!
