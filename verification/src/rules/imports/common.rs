//! What the rules on imports share: the imports of a file, its package, and the
//! names that its code and its documentation use.

use crate::cst::{first_of_kind, CstNode};
use crate::rules::modifier::common::has_child_of_kind;
use crate::rules::naming::package_name::first_name_node;
use crate::source_index::{position_of, LineIndex};
use crate::text::{slice_between, text_between, TextRange};
use vstd::prelude::*;
use vstd::string::{StringExecFns, StringSliceAdditionalSpecFns};
use vstd::utf8::encode_utf8;

verus! {

/// Represents a parsed import statement.
#[derive(Clone, Debug)]
pub struct ImportInfo {
    /// Full import path, e.g., "java.util.List" or "java.util.*"
    pub path: String,
    /// Simple name for non-wildcard imports, e.g., "List"
    pub simple_name: Option<String>,
    /// Whether this is a static import
    pub is_static: bool,
    /// Whether this ends with .*
    pub is_wildcard: bool,
    /// Source range for the import declaration
    pub range: TextRange,
    /// Line number (1-indexed) for duplicate detection
    pub line: u64,
}

pub struct ImportInfoView {
    pub path: Seq<char>,
    pub simple_name: Option<Seq<char>>,
    pub is_static: bool,
    pub is_wildcard: bool,
    pub range: TextRange,
    pub line: u64,
}

impl View for ImportInfo {
    type V = ImportInfoView;

    open spec fn view(&self) -> ImportInfoView {
        ImportInfoView {
            path: self.path@,
            simple_name: match self.simple_name {
                Some(n) => Some(n@),
                None => None,
            },
            is_static: self.is_static,
            is_wildcard: self.is_wildcard,
            range: self.range,
            line: self.line,
        }
    }
}

/// The views of a list of imports, in order.
pub open spec fn imports_view(imports: Seq<ImportInfo>) -> Seq<ImportInfoView> {
    imports.map_values(|i: ImportInfo| i@)
}

/// The index of the last of the first `upto` bytes that is `byte`, or -1 where
/// none is.
pub open spec fn last_byte(bytes: Seq<u8>, byte: u8, upto: int) -> int
    decreases upto,
{
    if upto <= 0 || upto > bytes.len() {
        -1
    } else if bytes[upto - 1] == byte {
        upto - 1
    } else {
        last_byte(bytes, byte, upto - 1)
    }
}

/// The index of the first byte from `from` on that is `byte`, or the length of
/// `bytes` where none is.
pub open spec fn first_byte(bytes: Seq<u8>, byte: u8, from: int) -> int
    decreases bytes.len() - from,
{
    if from < 0 || from >= bytes.len() {
        bytes.len() as int
    } else if bytes[from] == byte {
        from
    } else {
        first_byte(bytes, byte, from + 1)
    }
}

/// Finds the last `byte` in `text`.
pub fn find_last_byte(text: &str, byte: u8) -> (r: Option<usize>)
    ensures
        match r {
            Some(i) => i == last_byte(text.spec_bytes(), byte, text.spec_bytes().len() as int)
                && i < text.spec_bytes().len(),
            None => last_byte(text.spec_bytes(), byte, text.spec_bytes().len() as int) == -1,
        },
{
    let bytes = text.as_bytes();
    let mut i: usize = bytes.len();
    while i > 0
        invariant
            i <= bytes.len(),
            bytes@ == text.spec_bytes(),
            last_byte(bytes@, byte, bytes@.len() as int) == last_byte(bytes@, byte, i as int),
        decreases i,
    {
        if bytes[i - 1] == byte {
            return Some(i - 1);
        }
        i -= 1;
    }
    None
}

/// Finds the first `byte` in `text`.
pub fn find_first_byte(text: &str, byte: u8) -> (r: usize)
    ensures
        r == first_byte(text.spec_bytes(), byte, 0),
        r <= text.spec_bytes().len(),
{
    let bytes = text.as_bytes();
    let mut i: usize = 0;
    while i < bytes.len()
        invariant
            i <= bytes.len(),
            bytes@ == text.spec_bytes(),
            first_byte(bytes@, byte, 0) == first_byte(bytes@, byte, i as int),
        decreases bytes.len() - i,
    {
        if bytes[i] == byte {
            return i;
        }
        i += 1;
    }
    i
}

/// The package part of an import path: all of it before the last dot, where it
/// has one; for a wildcard import, all of it but the two characters at its end.
pub open spec fn package_of(path: Seq<char>, is_wildcard: bool) -> Option<Seq<char>> {
    let bytes = encode_utf8(path);
    if is_wildcard {
        text_between(path, 0, bytes.len() - 2)
    } else {
        let dot = last_byte(bytes, 46u8, bytes.len() as int);
        if dot >= 0 {
            text_between(path, 0, dot)
        } else {
            None
        }
    }
}

/// The simple name that an import path ends in: what follows its last dot, or all
/// of it where it has none.
pub open spec fn simple_name_of(path: Seq<char>) -> Option<Seq<char>> {
    let bytes = encode_utf8(path);
    text_between(path, last_byte(bytes, 46u8, bytes.len() as int) + 1, bytes.len() as int)
}

impl ImportInfo {
    /// Get the package part of the import path (everything before the last dot).
    pub fn package(&self) -> (r: Option<&str>)
        ensures
            match r {
                Some(p) => package_of(self.path@, self.is_wildcard) == Some(p@),
                None => package_of(self.path@, self.is_wildcard).is_none(),
            },
    {
        let path = self.path.as_str();
        if self.is_wildcard {
            let n = path.as_bytes().len();
            if n < 2 {
                None
            } else {
                slice_between(path, 0, n - 2)
            }
        } else {
            match find_last_byte(path, 46u8) {
                Some(dot) => slice_between(path, 0, dot),
                None => None,
            }
        }
    }
}

/// How many names the first `upto` nodes of an import declaration hold, and those
/// names joined by dots. Nothing where the text of a name cannot be had.
pub open spec fn import_names(source: Seq<char>, nodes: Seq<CstNode>, upto: int) -> Option<
    (nat, Seq<char>),
>
    decreases upto,
{
    if upto <= 0 || upto > nodes.len() {
        Some((0nat, Seq::<char>::empty()))
    } else {
        match import_names(source, nodes, upto - 1) {
            None => None,
            Some((count, path)) => if nodes[upto - 1].kind@ == "identifier"@ || nodes[upto
                - 1].kind@ == "scoped_identifier"@ {
                match nodes[upto - 1].text_in(source) {
                    Some(text) => Some(
                        (
                            count + 1,
                            if count == 0 {
                                text
                            } else {
                                path + "."@ + text
                            },
                        ),
                    ),
                    None => None,
                }
            } else {
                Some((count, path))
            },
        }
    }
}

/// What an import declaration imports. Nothing where it names nothing, or where
/// the text of a name cannot be had.
pub open spec fn parsed_import(source: Seq<char>, starts: Seq<u32>, node: CstNode) -> Option<
    ImportInfoView,
> {
    let is_wildcard = has_child_of_kind(node, "asterisk"@);
    match import_names(source, node.children@, node.children@.len() as int) {
        Some((count, names)) => if count == 0 {
            None
        } else {
            let path = if is_wildcard {
                names + ".*"@
            } else {
                names
            };
            Some(
                ImportInfoView {
                    path,
                    simple_name: if is_wildcard {
                        None
                    } else {
                        simple_name_of(path)
                    },
                    is_static: has_child_of_kind(node, "static"@),
                    is_wildcard,
                    range: node.range,
                    line: position_of(starts, node.range.start).line,
                },
            )
        },
        None => None,
    }
}

/// Reads one import declaration.
pub fn parse_import_declaration(node: &CstNode, source: &str, line_index: &LineIndex) -> (r:
    Option<ImportInfo>)
    ensures
        match r {
            Some(info) => parsed_import(source@, line_index.starts@, *node) == Some(info@),
            None => parsed_import(source@, line_index.starts@, *node).is_none(),
        },
{
    let line = line_index.line_column(node.range.start).line;
    let is_static = node.child_of_kind("static").is_some();
    let is_wildcard = node.child_of_kind("asterisk").is_some();
    let mut path = String::new();
    let mut count: usize = 0;
    let mut i: usize = 0;
    while i < node.children.len()
        invariant
            i <= node.children.len(),
            count <= i,
            count == 0 ==> path@.len() == 0,
            import_names(source@, node.children@, i as int) == Some((count as nat, path@)),
        decreases node.children.len() - i,
    {
        let child = &node.children[i];
        if child.kind_is("identifier") || child.kind_is("scoped_identifier") {
            match child.text(source) {
                Some(text) => {
                    let ghost before = path@;
                    if count > 0 {
                        path.append(".");
                    }
                    path.append(text);
                    assert(path@ =~= if count == 0 {
                        text@
                    } else {
                        before + "."@ + text@
                    });
                    count += 1;
                },
                None => {
                    proof {
                        lemma_import_names_stay_none(
                            source@,
                            node.children@,
                            i as int + 1,
                            node.children@.len() as int,
                        );
                    }
                    return None;
                },
            }
        }
        i += 1;
    }
    if count == 0 {
        return None;
    }
    if is_wildcard {
        path.append(".*");
    }
    let simple_name = if is_wildcard {
        None
    } else {
        let p = path.as_str();
        let n = p.as_bytes().len();
        let from = match find_last_byte(p, 46u8) {
            Some(dot) => dot + 1,
            None => 0,
        };
        match slice_between(p, from, n) {
            Some(name) => Some(String::from_str(name)),
            None => None,
        }
    };
    Some(ImportInfo { path, simple_name, is_static, is_wildcard, range: node.range, line })
}

/// Once the text of one name cannot be had, there are no names for any longer
/// run of nodes either.
proof fn lemma_import_names_stay_none(source: Seq<char>, nodes: Seq<CstNode>, from: int, upto: int)
    requires
        0 <= from <= upto <= nodes.len(),
        import_names(source, nodes, from).is_none(),
    ensures
        import_names(source, nodes, upto).is_none(),
    decreases upto - from,
{
    if from < upto {
        lemma_import_names_stay_none(source, nodes, from, upto - 1);
    }
}

/// The import that `node` declares, if it is an import declaration that can be
/// read.
pub open spec fn import_at(source: Seq<char>, starts: Seq<u32>, node: CstNode) -> Seq<
    ImportInfoView,
> {
    if node.kind@ == "import_declaration"@ {
        match parsed_import(source, starts, node) {
            Some(info) => seq![info],
            None => Seq::empty(),
        }
    } else {
        Seq::empty()
    }
}

/// The imports that the nodes from `from` on declare, in their order.
pub open spec fn imports_among(
    source: Seq<char>,
    starts: Seq<u32>,
    nodes: Seq<CstNode>,
    from: int,
) -> Seq<ImportInfoView>
    decreases nodes.len() - from,
{
    if from < 0 || from >= nodes.len() {
        Seq::empty()
    } else {
        import_at(source, starts, nodes[from]) + imports_among(source, starts, nodes, from + 1)
    }
}

/// The imports of a file: the import that `root` itself declares, and, where it
/// is the root of a program, those that its children declare. Class bodies are
/// not looked into.
pub open spec fn collected_imports(source: Seq<char>, starts: Seq<u32>, root: CstNode) -> Seq<
    ImportInfoView,
> {
    import_at(source, starts, root) + if root.kind@ == "program"@ {
        imports_among(source, starts, root.children@, 0)
    } else {
        Seq::empty()
    }
}

/// Adds the import that `node` declares to `imports`, if it declares one.
fn collect_import_at(
    node: &CstNode,
    source: &str,
    line_index: &LineIndex,
    imports: &mut Vec<ImportInfo>,
)
    ensures
        imports_view(final(imports)@) == imports_view(old(imports)@) + import_at(
            source@,
            line_index.starts@,
            *node,
        ),
{
    if node.kind_is("import_declaration") {
        match parse_import_declaration(node, source, line_index) {
            Some(info) => {
                imports.push(info);
                assert(imports_view(final(imports)@) =~= imports_view(old(imports)@) + seq![
                    info@,
                ]);
                return ;
            },
            None => {},
        }
    }
    assert(imports_view(final(imports)@) =~= imports_view(old(imports)@) + Seq::empty());
}

/// Adds the imports below `node` to `imports`.
pub fn collect_imports_recursive(
    node: &CstNode,
    source: &str,
    line_index: &LineIndex,
    imports: &mut Vec<ImportInfo>,
)
    ensures
        imports_view(final(imports)@) == imports_view(old(imports)@) + collected_imports(
            source@,
            line_index.starts@,
            *node,
        ),
{
    collect_import_at(node, source, line_index, imports);
    let ghost at_node = imports_view(imports@);
    let ghost mut below: Seq<ImportInfoView> = Seq::empty();
    assert(at_node =~= at_node + below);
    // Only the children of the program are looked at, not what is in class bodies.
    if node.kind_is("program") {
        let mut i: usize = 0;
        while i < node.children.len()
            invariant
                i <= node.children.len(),
                imports_view(imports@) == at_node + below,
                below + imports_among(source@, line_index.starts@, node.children@, i as int)
                    == imports_among(source@, line_index.starts@, node.children@, 0),
            decreases node.children.len() - i,
        {
            let ghost one = import_at(source@, line_index.starts@, node.children@[i as int]);
            let ghost rest = imports_among(
                source@,
                line_index.starts@,
                node.children@,
                i as int + 1,
            );
            collect_import_at(&node.children[i], source, line_index, imports);
            proof {
                assert(imports_view(imports@) =~= at_node + (below + one));
                assert((below + one) + rest =~= below + (one + rest));
                below = below + one;
            }
            i += 1;
        }
        assert(below =~= imports_among(source@, line_index.starts@, node.children@, 0));
    }
    assert(imports_view(imports@) =~= imports_view(old(imports)@) + collected_imports(
        source@,
        line_index.starts@,
        *node,
    ));
}

/// Collect all import declarations from the source.
pub fn collect_imports(root: &CstNode, source: &str, line_index: &LineIndex) -> (r: Vec<
    ImportInfo,
>)
    ensures
        imports_view(r@) == collected_imports(source@, line_index.starts@, *root),
{
    let mut imports: Vec<ImportInfo> = Vec::new();
    assert(imports_view(imports@) =~= Seq::empty());
    collect_imports_recursive(root, source, line_index, &mut imports);
    assert(imports_view(imports@) =~= collected_imports(source@, line_index.starts@, *root));
    imports
}

/// The name that a package declaration declares: the text of its first name.
pub open spec fn package_path(source: Seq<char>, node: CstNode) -> Option<Seq<char>> {
    let i = first_name_node(node.children@, 0);
    if i < node.children@.len() {
        node.children@[i].text_in(source)
    } else {
        None
    }
}

/// The package of a file: the name that the first package declaration among the
/// children of `root` declares.
pub open spec fn package_name_of(source: Seq<char>, root: CstNode) -> Option<Seq<char>> {
    let p = first_of_kind(root.children@, "package_declaration"@, 0);
    if p < root.children@.len() {
        package_path(source, root.children@[p])
    } else {
        None
    }
}

/// The name that the package declaration `node` declares.
pub fn extract_package_path(node: &CstNode, source: &str) -> (r: Option<String>)
    ensures
        match r {
            Some(name) => package_path(source@, *node) == Some(name@),
            None => package_path(source@, *node).is_none(),
        },
{
    let mut i: usize = 0;
    while i < node.children.len()
        invariant
            i <= node.children.len(),
            first_name_node(node.children@, 0) == first_name_node(node.children@, i as int),
        decreases node.children.len() - i,
    {
        let child = &node.children[i];
        if child.kind_is("scoped_identifier") || child.kind_is("identifier") {
            return match child.text(source) {
                Some(name) => Some(String::from_str(name)),
                None => None,
            };
        }
        i += 1;
    }
    None
}

/// Extract the package name from the source file.
pub fn get_package_name(root: &CstNode, source: &str) -> (r: Option<String>)
    ensures
        match r {
            Some(name) => package_name_of(source@, *root) == Some(name@),
            None => package_name_of(source@, *root).is_none(),
        },
{
    match root.child_of_kind("package_declaration") {
        Some(declaration) => extract_package_path(declaration, source),
        None => None,
    }
}

} // verus!
