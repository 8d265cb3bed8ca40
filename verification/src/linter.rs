//! The registry of rules and the walk that runs them over a syntax tree.

use crate::cst::CstNode;
use crate::diagnostics::{diagnostics_view, Diagnostic, DiagnosticView, EditView, Fix};
use crate::source_index::{position_of, LineIndex};
use crate::rule::{CheckContext, Rule};
use crate::rules::coding::multiple_variable_declarations::multiple_variable_declarations_findings;
use crate::rules::coding::one_statement_per_line::one_statement_per_line_findings;
use crate::rules::coding::{MultipleVariableDeclarations, OneStatementPerLine};
use crate::rules::imports::unused_imports::unused_imports_findings;
use crate::rules::imports::UnusedImports;
use crate::rules::modifier::final_local_variable::final_local_variable_findings;
use crate::rules::modifier::FinalLocalVariable;
use crate::rules::naming::package_name::package_name_findings;
use crate::rules::naming::PackageName;
use vstd::prelude::*;
use vstd::string::StringExecFns;

verus! {

/// One of the rules that can be registered.
#[derive(Clone, Debug)]
pub enum AnyRule {
    FinalLocalVariable(FinalLocalVariable),
    MultipleVariableDeclarations(MultipleVariableDeclarations),
    OneStatementPerLine(OneStatementPerLine),
    PackageName(PackageName),
    UnusedImports(UnusedImports),
}

impl AnyRule {
    /// The kinds of node that the rule looks at; nothing for a rule that looks at
    /// every node.
    pub open spec fn filter(self) -> Option<Seq<Seq<char>>> {
        match self {
            AnyRule::PackageName(_) => Some(seq!["package_declaration"@]),
            AnyRule::UnusedImports(_) => Some(seq!["program"@]),
            _ => None,
        }
    }

    /// Whether the rule looks at nodes of the kind `kind`: its filter holds the
    /// kind, or it has no filter.
    pub open spec fn relevant(self, kind: Seq<char>) -> bool {
        match self.filter() {
            Some(kinds) => kinds.contains(kind),
            None => true,
        }
    }

    /// The kinds of node that the rule looks at; nothing for a rule that looks at
    /// every node.
    pub fn relevant_kinds(&self) -> (r: Option<Vec<&'static str>>)
        ensures
            match r {
                Some(kinds) => self.filter() == Some(kinds@.map_values(|k: &'static str| k@)),
                None => self.filter().is_none(),
            },
    {
        match self {
            AnyRule::FinalLocalVariable(rule) => rule.relevant_kinds(),
            AnyRule::MultipleVariableDeclarations(rule) => rule.relevant_kinds(),
            AnyRule::OneStatementPerLine(rule) => rule.relevant_kinds(),
            AnyRule::PackageName(rule) => rule.relevant_kinds(),
            AnyRule::UnusedImports(rule) => rule.relevant_kinds(),
        }
    }

    /// What the rule reports at `node`.
    pub open spec fn findings(self, source: Seq<char>, node: CstNode) -> Seq<DiagnosticView> {
        match self {
            AnyRule::FinalLocalVariable(rule) => final_local_variable_findings(rule, source, node),
            AnyRule::MultipleVariableDeclarations(_) => multiple_variable_declarations_findings(
                source,
                node,
            ),
            AnyRule::OneStatementPerLine(rule) => one_statement_per_line_findings(
                rule,
                source,
                node,
            ),
            AnyRule::PackageName(rule) => package_name_findings(rule.format_str@, source, node),
            AnyRule::UnusedImports(rule) => unused_imports_findings(rule, source, node),
        }
    }

    /// The name under which the rule reports.
    pub open spec fn name_text(self) -> Seq<char> {
        match self {
            AnyRule::FinalLocalVariable(_) => "FinalLocalVariable"@,
            AnyRule::MultipleVariableDeclarations(_) => "MultipleVariableDeclarations"@,
            AnyRule::OneStatementPerLine(_) => "OneStatementPerLine"@,
            AnyRule::PackageName(_) => "PackageName"@,
            AnyRule::UnusedImports(_) => "UnusedImports"@,
        }
    }

    /// The name under which the rule reports.
    pub fn name(&self) -> (r: &'static str)
        ensures
            r@ == self.name_text(),
    {
        match self {
            AnyRule::FinalLocalVariable(rule) => rule.name(),
            AnyRule::MultipleVariableDeclarations(rule) => rule.name(),
            AnyRule::OneStatementPerLine(rule) => rule.name(),
            AnyRule::PackageName(rule) => rule.name(),
            AnyRule::UnusedImports(rule) => rule.name(),
        }
    }

    /// Whether the rule looks at nodes of the kind `kind`.
    pub fn is_relevant(&self, kind: &str) -> (r: bool)
        ensures
            r == self.relevant(kind@),
    {
        proof {
            assert(seq!["package_declaration"@][0] == "package_declaration"@);
            assert(seq!["program"@][0] == "program"@);
        }
        match self {
            AnyRule::FinalLocalVariable(rule) => rule.is_relevant(kind),
            AnyRule::MultipleVariableDeclarations(rule) => rule.is_relevant(kind),
            AnyRule::OneStatementPerLine(rule) => rule.is_relevant(kind),
            AnyRule::PackageName(rule) => rule.is_relevant(kind),
            AnyRule::UnusedImports(rule) => rule.is_relevant(kind),
        }
    }

    /// The violations that the rule finds at `node`.
    pub fn check(&self, ctx: &CheckContext, node: &CstNode) -> (r: Vec<Diagnostic>)
        ensures
            diagnostics_view(r@) == self.findings(ctx.source@, *node),
    {
        match self {
            AnyRule::FinalLocalVariable(rule) => rule.check(ctx, node),
            AnyRule::MultipleVariableDeclarations(rule) => rule.check(ctx, node),
            AnyRule::OneStatementPerLine(rule) => rule.check(ctx, node),
            AnyRule::PackageName(rule) => rule.check(ctx, node),
            AnyRule::UnusedImports(rule) => rule.check(ctx, node),
        }
    }
}

/// A diagnostic together with the place of its rule in the registry.
#[derive(Clone, Debug)]
pub struct Finding {
    pub rule_index: usize,
    pub diagnostic: Diagnostic,
}

pub struct FindingView {
    pub rule_index: usize,
    pub diagnostic: DiagnosticView,
}

impl View for Finding {
    type V = FindingView;

    open spec fn view(&self) -> FindingView {
        FindingView { rule_index: self.rule_index, diagnostic: self.diagnostic@ }
    }
}

/// The views of a list of findings, in order.
pub open spec fn findings_view(findings: Seq<Finding>) -> Seq<FindingView> {
    findings.map_values(|f: Finding| f@)
}

/// The diagnostics of the rule at `rule_index`, marked as its.
pub open spec fn tagged(diagnostics: Seq<DiagnosticView>, rule_index: usize) -> Seq<FindingView> {
    diagnostics.map_values(|d: DiagnosticView| FindingView { rule_index, diagnostic: d })
}

/// What the rules from `from` on report at `node`, in the order of the registry.
/// A rule is asked only about the kinds of node that it looks at.
pub open spec fn node_findings(rules: Seq<AnyRule>, source: Seq<char>, node: CstNode, from: int)
    -> Seq<FindingView>
    decreases rules.len() - from,
{
    if from < 0 || from >= rules.len() {
        Seq::empty()
    } else {
        (if rules[from].relevant(node.kind@) {
            tagged(rules[from].findings(source, node), from as usize)
        } else {
            Seq::empty()
        }) + node_findings(rules, source, node, from + 1)
    }
}

/// What the rules report on the tree below `node`: at the node itself first, then
/// on its children from first to last.
pub open spec fn tree_findings(rules: Seq<AnyRule>, source: Seq<char>, node: CstNode) -> Seq<
    FindingView,
>
    decreases node,
{
    node_findings(rules, source, node, 0) + forest_findings(rules, source, node.children@, 0)
}

/// What the rules report on the trees from `from` on.
pub open spec fn forest_findings(
    rules: Seq<AnyRule>,
    source: Seq<char>,
    nodes: Seq<CstNode>,
    from: int,
) -> Seq<FindingView>
    decreases nodes, nodes.len() - from,
{
    if from < 0 || from >= nodes.len() {
        Seq::empty()
    } else {
        tree_findings(rules, source, nodes[from]) + forest_findings(
            rules,
            source,
            nodes,
            from + 1,
        )
    }
}

/// Whether `a` may stand before `b` in the output: it starts earlier, or at the
/// same offset and its rule was registered no later.
pub open spec fn in_order(a: FindingView, b: FindingView) -> bool {
    a.diagnostic.range.start < b.diagnostic.range.start || (a.diagnostic.range.start
        == b.diagnostic.range.start && a.rule_index <= b.rule_index)
}

/// Whether every finding of `findings` may stand before all that follow it.
pub open spec fn is_ordered(findings: Seq<FindingView>) -> bool {
    forall|i: int, j: int| 0 <= i < j < findings.len() ==> in_order(findings[i], findings[j])
}

/// The first place from `from` on at which `f` may stand before what is there.
pub open spec fn place_for(sorted: Seq<FindingView>, f: FindingView, from: int) -> int
    decreases sorted.len() - from,
{
    if from < 0 || from >= sorted.len() {
        sorted.len() as int
    } else if in_order(f, sorted[from]) {
        from
    } else {
        place_for(sorted, f, from + 1)
    }
}

/// The findings in the order of the output: by the offset at which they start,
/// then by the place of their rule in the registry; findings that agree in both
/// stay in the order in which they were found.
pub open spec fn sort_findings(findings: Seq<FindingView>) -> Seq<FindingView>
    decreases findings.len(),
{
    if findings.len() == 0 {
        Seq::empty()
    } else {
        let rest = sort_findings(findings.drop_first());
        rest.insert(place_for(rest, findings[0], 0), findings[0])
    }
}

/// Whether `a` may stand before `b` in the output.
pub fn stands_before(a: &Finding, b: &Finding) -> (r: bool)
    ensures
        r == in_order(a@, b@),
{
    a.diagnostic.range.start < b.diagnostic.range.start || (a.diagnostic.range.start
        == b.diagnostic.range.start && a.rule_index <= b.rule_index)
}

/// Puts findings into the order of the output.
pub fn sort(findings: Vec<Finding>) -> (r: Vec<Finding>)
    ensures
        findings_view(r@) == sort_findings(findings_view(findings@)),
{
    let ghost all = findings_view(findings@);
    let mut rest = findings;
    let mut out: Vec<Finding> = Vec::new();
    assert(all.subrange(all.len() as int, all.len() as int) =~= Seq::empty());
    assert(findings_view(out@) =~= Seq::empty());
    assert(findings_view(rest@) =~= all.subrange(0, all.len() as int));
    while rest.len() > 0
        invariant
            rest@.len() <= all.len(),
            findings_view(rest@) == all.subrange(0, rest@.len() as int),
            findings_view(out@) == sort_findings(all.subrange(rest@.len() as int, all.len() as int)),
        decreases rest.len(),
    {
        let ghost k = rest@.len() as int;
        let ghost done = findings_view(out@);
        let ghost held = rest@;
        let f = rest.pop().unwrap();
        assert(findings_view(held)[k - 1] == held[k - 1]@);
        assert(f@ == all[k - 1]);
        assert(findings_view(rest@) =~= all.subrange(0, k - 1));
        let mut p: usize = 0;
        while p < out.len() && !stands_before(&f, &out[p])
            invariant
                p <= out.len(),
                done == findings_view(out@),
                place_for(done, f@, 0) == place_for(done, f@, p as int),
            decreases out.len() - p,
        {
            p += 1;
        }
        out.insert(p, f);
        proof {
            let tail = all.subrange(k - 1, all.len() as int);
            assert(tail.drop_first() =~= all.subrange(k, all.len() as int));
            assert(tail[0] == all[k - 1]);
            assert(findings_view(out@) =~= done.insert(p as int, f@));
        }
    }
    assert(all.subrange(0, all.len() as int) =~= all);
    out
}

/// Adds `diagnostics` to `found`, in their order, as findings of the rule at
/// `rule_index`.
pub fn tag_into(found: &mut Vec<Finding>, diagnostics: Vec<Diagnostic>, rule_index: usize)
    ensures
        findings_view(final(found)@) == findings_view(old(found)@) + tagged(
            diagnostics_view(diagnostics@),
            rule_index,
        ),
{
    let ghost all = diagnostics@;
    let mut rest = diagnostics;
    let mut moved: Vec<Diagnostic> = Vec::new();
    // Taken from the end and put back from the end, the diagnostics keep their order.
    while rest.len() > 0
        invariant
            rest@.len() <= all.len(),
            rest@ == all.subrange(0, rest@.len() as int),
            moved@.len() + rest@.len() == all.len(),
            forall|k: int| 0 <= k < moved@.len() ==> moved@[k] == all[all.len() - 1 - k],
        decreases rest.len(),
    {
        let ghost n = rest@.len() as int;
        let d = rest.pop().unwrap();
        assert(rest@ =~= all.subrange(0, n - 1));
        moved.push(d);
    }
    while moved.len() > 0
        invariant
            moved@.len() <= all.len(),
            forall|k: int| 0 <= k < moved@.len() ==> moved@[k] == all[all.len() - 1 - k],
            found@.len() == old(found)@.len() + all.len() - moved@.len(),
            forall|k: int| 0 <= k < old(found)@.len() ==> found@[k] == old(found)@[k],
            forall|k: int|
                0 <= k < all.len() - moved@.len() ==> (#[trigger] found@[old(found)@.len() + k])
                    == (Finding { rule_index, diagnostic: all[k] }),
        decreases moved.len(),
    {
        let d = moved.pop().unwrap();
        found.push(Finding { rule_index, diagnostic: d });
    }
    let ghost n = old(found)@.len() as int;
    let ghost expected = findings_view(old(found)@) + tagged(diagnostics_view(all), rule_index);
    assert(findings_view(found@).len() == expected.len());
    assert forall|i: int| 0 <= i < expected.len() implies findings_view(found@)[i]
        == expected[i] by {
        if i >= n {
            assert(found@[n + (i - n)] == (Finding { rule_index, diagnostic: all[i - n] }));
        }
    }
    assert(findings_view(found@) =~= expected);
}

/// Runs the rules at `node` and on all that is below it, and adds what they find
/// to `found`.
pub fn walk(rules: &Vec<AnyRule>, ctx: &CheckContext, node: &CstNode, found: &mut Vec<Finding>)
    ensures
        findings_view(final(found)@) == findings_view(old(found)@) + tree_findings(
            rules@,
            ctx.source@,
            *node,
        ),
    decreases *node,
{
    let ghost start = findings_view(found@);
    let mut r: usize = 0;
    assert(findings_view(found@) =~= start + Seq::empty());
    let ghost mut here: Seq<FindingView> = Seq::empty();
    while r < rules.len()
        invariant
            r <= rules.len(),
            findings_view(found@) == start + here,
            here + node_findings(rules@, ctx.source@, *node, r as int) == node_findings(
                rules@,
                ctx.source@,
                *node,
                0,
            ),
        decreases rules.len() - r,
    {
        let ghost rest = node_findings(rules@, ctx.source@, *node, r as int + 1);
        let ghost mut added: Seq<FindingView> = Seq::empty();
        if rules[r].is_relevant(node.kind()) {
            let diagnostics = rules[r].check(ctx, node);
            proof {
                added = tagged(diagnostics_view(diagnostics@), r);
            }
            tag_into(found, diagnostics, r);
        }
        proof {
            assert(findings_view(found@) =~= start + (here + added));
            assert((here + added) + rest =~= here + (added + rest));
            here = here + added;
        }
        r += 1;
    }
    assert(here =~= node_findings(rules@, ctx.source@, *node, 0));
    let ghost at_node = findings_view(found@);
    let mut i: usize = 0;
    let ghost mut below: Seq<FindingView> = Seq::empty();
    assert(findings_view(found@) =~= at_node + below);
    while i < node.children.len()
        invariant
            i <= node.children.len(),
            findings_view(found@) == at_node + below,
            below + forest_findings(rules@, ctx.source@, node.children@, i as int)
                == forest_findings(rules@, ctx.source@, node.children@, 0),
        decreases node.children.len() - i,
    {
        let ghost one = tree_findings(rules@, ctx.source@, node.children@[i as int]);
        let ghost rest = forest_findings(rules@, ctx.source@, node.children@, i as int + 1);
        walk(rules, ctx, &node.children[i], found);
        proof {
            assert(findings_view(found@) =~= at_node + (below + one));
            assert((below + one) + rest =~= below + (one + rest));
            below = below + one;
        }
        i += 1;
    }
    assert(below =~= forest_findings(rules@, ctx.source@, node.children@, 0));
    assert(findings_view(found@) =~= start + (here + below));
}

/// Runs the registered rules over the tree below `root`, once, and gives what
/// they find in the order of the output.
pub fn check_tree(rules: &Vec<AnyRule>, source: &str, root: &CstNode) -> (r: Vec<Finding>)
    ensures
        findings_view(r@) == sort_findings(tree_findings(rules@, source@, *root)),
{
    let ctx = CheckContext::new(source);
    let mut found: Vec<Finding> = Vec::new();
    assert(findings_view(found@) =~= Seq::empty());
    walk(rules, &ctx, root, &mut found);
    assert(findings_view(found@) =~= tree_findings(rules@, source@, *root));
    sort(found)
}

/// What comes of the check of one file.
#[derive(Clone, Debug)]
pub enum FileReport {
    /// No tree could be had of the file: nothing is reported of it.
    Unanalyzable,
    /// What the rules found, in the order of the output.
    Analyzed(Vec<Finding>),
}

/// Checks one file: where the parser gave no tree, the file is unanalyzable and
/// nothing is reported; else the rules run over the tree.
pub fn check_file(rules: &Vec<AnyRule>, source: &str, tree: Option<&CstNode>) -> (r: FileReport)
    ensures
        match r {
            FileReport::Unanalyzable => tree.is_none(),
            FileReport::Analyzed(found) => match tree {
                Some(root) => findings_view(found@) == sort_findings(
                    tree_findings(rules@, source@, *root),
                ),
                None => false,
            },
        },
{
    match tree {
        Some(root) => FileReport::Analyzed(check_tree(rules, source, root)),
        None => FileReport::Unanalyzable,
    }
}

/// The place that `place_for` gives lies after every finding that has to stand
/// before `f`, and before one that `f` may stand before.
proof fn lemma_place_for(sorted: Seq<FindingView>, f: FindingView, from: int)
    requires
        0 <= from <= sorted.len(),
    ensures
        from <= place_for(sorted, f, from) <= sorted.len(),
        forall|k: int| from <= k < place_for(sorted, f, from) ==> !in_order(f, sorted[k]),
        place_for(sorted, f, from) < sorted.len() ==> in_order(
            f,
            sorted[place_for(sorted, f, from)],
        ),
    decreases sorted.len() - from,
{
    if from < sorted.len() && !in_order(f, sorted[from]) {
        lemma_place_for(sorted, f, from + 1);
    }
}

/// The order of the output is total and the same on every run: what
/// `check_tree` returns is in ascending order of the offset at which a finding
/// starts, and, among findings that start at one offset, of the place of their
/// rule in the registry.
pub proof fn lemma_sort_is_ordered(findings: Seq<FindingView>)
    ensures
        sort_findings(findings).len() == findings.len(),
        is_ordered(sort_findings(findings)),
    decreases findings.len(),
{
    if findings.len() > 0 {
        let f = findings[0];
        let rest = sort_findings(findings.drop_first());
        lemma_sort_is_ordered(findings.drop_first());
        lemma_place_for(rest, f, 0);
        let p = place_for(rest, f, 0);
        let out = rest.insert(p, f);
        assert forall|i: int, j: int| 0 <= i < j < out.len() implies in_order(out[i], out[j]) by {
            if j < p {
                assert(in_order(rest[i], rest[j]));
            } else if j == p {
                assert(!in_order(f, rest[i]));
            } else if i < p {
                assert(in_order(rest[i], rest[j - 1]));
            } else if i == p {
                if j - 1 > p {
                    assert(in_order(rest[p], rest[j - 1]));
                }
            } else {
                assert(in_order(rest[i - 1], rest[j - 1]));
            }
        }
    }
}

/// Putting findings in order neither drops nor adds nor changes one: the output
/// holds each finding as often as the walk found it.
pub proof fn lemma_sort_is_permutation(findings: Seq<FindingView>)
    ensures
        sort_findings(findings).to_multiset() =~= findings.to_multiset(),
    decreases findings.len(),
{
    broadcast use vstd::seq_lib::group_to_multiset_ensures;

    if findings.len() > 0 {
        let f = findings[0];
        let rest = sort_findings(findings.drop_first());
        lemma_sort_is_permutation(findings.drop_first());
        lemma_sort_is_ordered(findings.drop_first());
        lemma_place_for(rest, f, 0);
        let p = place_for(rest, f, 0);
        let out = rest.insert(p, f);
        assert(out.remove(p) =~= rest);
        assert(out[p] == f);
        assert(findings.remove(0) =~= findings.drop_first());
        assert(out.to_multiset().remove(f) =~= findings.to_multiset().remove(f));
        assert(out.contains(f));
        assert(findings.contains(f));
        assert forall|x: FindingView| out.to_multiset().count(x) == findings.to_multiset().count(
            x,
        ) by {
            assert(out.to_multiset().remove(f).count(x) == findings.to_multiset().remove(f).count(
                x,
            ));
        }
    }
}

/// Two runs over the same tree with the same rules give the same findings in
/// the same order, and so do two checks of one node by one rule: what a run
/// returns is determined by the rules, the source and the tree alone.
pub proof fn lemma_runs_agree(
    rules: Seq<AnyRule>,
    source: Seq<char>,
    root: CstNode,
    first: Seq<FindingView>,
    second: Seq<FindingView>,
    rule: AnyRule,
    first_check: Seq<DiagnosticView>,
    second_check: Seq<DiagnosticView>,
)
    requires
        first == sort_findings(tree_findings(rules, source, root)),
        second == sort_findings(tree_findings(rules, source, root)),
        first_check == rule.findings(source, root),
        second_check == rule.findings(source, root),
    ensures
        first == second,
        first.to_multiset() == second.to_multiset(),
        first_check == second_check,
{
}

/// Every finding of the output stands before all that follow it, and the output
/// holds exactly what the walk over the tree found.
pub proof fn lemma_output_order(rules: Seq<AnyRule>, source: Seq<char>, root: CstNode)
    ensures
        is_ordered(sort_findings(tree_findings(rules, source, root))),
        sort_findings(tree_findings(rules, source, root)).to_multiset() =~= tree_findings(
            rules,
            source,
            root,
        ).to_multiset(),
{
    lemma_sort_is_ordered(tree_findings(rules, source, root));
    lemma_sort_is_permutation(tree_findings(rules, source, root));
}

/// A finding as it is handed on: the name of its rule, its message, where it
/// starts and ends by line and column, both counted from one, and its fix.
#[derive(Clone, Debug)]
pub struct OutputRecord {
    pub rule_name: String,
    pub message: String,
    pub line: u64,
    pub column: u64,
    pub end_line: u64,
    pub end_column: u64,
    pub fix: Option<Fix>,
}

pub struct OutputRecordView {
    pub rule_name: Seq<char>,
    pub message: Seq<char>,
    pub line: u64,
    pub column: u64,
    pub end_line: u64,
    pub end_column: u64,
    pub fix: Option<Seq<EditView>>,
}

impl View for OutputRecord {
    type V = OutputRecordView;

    open spec fn view(&self) -> OutputRecordView {
        OutputRecordView {
            rule_name: self.rule_name@,
            message: self.message@,
            line: self.line,
            column: self.column,
            end_line: self.end_line,
            end_column: self.end_column,
            fix: match self.fix {
                Some(f) => Some(f@),
                None => None,
            },
        }
    }
}

/// The record of `finding`: its rule is the one at its place in `rules`, and has
/// no name where there is none at that place; its lines and columns are those of
/// its offsets in a text whose lines begin at `starts`.
pub open spec fn record_of(finding: FindingView, rules: Seq<AnyRule>, starts: Seq<u32>)
    -> OutputRecordView {
    let start = position_of(starts, finding.diagnostic.range.start);
    let end = position_of(starts, finding.diagnostic.range.end);
    OutputRecordView {
        rule_name: if finding.rule_index < rules.len() {
            rules[finding.rule_index as int].name_text()
        } else {
            Seq::<char>::empty()
        },
        message: finding.diagnostic.body,
        line: start.line,
        column: start.column,
        end_line: end.line,
        end_column: end.column,
        fix: finding.diagnostic.fix,
    }
}

/// Turns a finding into the record that is handed on.
pub fn to_record(finding: Finding, rules: &Vec<AnyRule>, index: &LineIndex) -> (r: OutputRecord)
    ensures
        r@ == record_of(finding@, rules@, index.starts@),
{
    let rule_name = if finding.rule_index < rules.len() {
        String::from_str(rules[finding.rule_index].name())
    } else {
        String::new()
    };
    let start = index.line_column(finding.diagnostic.range.start);
    let end = index.line_column(finding.diagnostic.range.end);
    OutputRecord {
        rule_name,
        message: finding.diagnostic.kind.body,
        line: start.line,
        column: start.column,
        end_line: end.line,
        end_column: end.column,
        fix: finding.diagnostic.fix,
    }
}

} // verus!
