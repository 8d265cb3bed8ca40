//! The names that the code of a file uses.

use crate::cst::{first_in_field, first_of_kind, CstNode};
use crate::names::{with_name, NameSet};
use crate::rules::naming::package_name::first_name_node;
use vstd::prelude::*;
use vstd::string::StrSliceExecFns;

verus! {

/// Whether `char::is_uppercase` holds of `c`: whether the character has the
/// Unicode property `Uppercase`.
pub uninterp spec fn char_is_uppercase(c: char) -> bool;

/// Asks `char::is_uppercase` of the standard library.
#[verifier::external_body]
pub(crate) fn is_uppercase(c: char) -> (r: bool)
    ensures
        r == char_is_uppercase(c),
{
    c.is_uppercase()
}

/// Whether `text` begins with an upper-case character, as the names of types do
/// by convention.
pub open spec fn starts_uppercase(text: Seq<char>) -> bool {
    text.len() > 0 && char_is_uppercase(text[0])
}

/// Whether `text` begins with an upper-case character.
pub fn begins_uppercase(text: &str) -> (r: bool)
    ensures
        r == starts_uppercase(text@),
{
    if text.is_empty() {
        false
    } else {
        is_uppercase(text.get_char(0))
    }
}

/// Whether a node of the kind `kind` declares the name that stands in its field
/// `name`: a type, a method, a constructor, a variable, a parameter or an enum
/// constant.
pub open spec fn declares_its_name(kind: Seq<char>) -> bool {
    ||| kind == "class_declaration"@
    ||| kind == "interface_declaration"@
    ||| kind == "enum_declaration"@
    ||| kind == "record_declaration"@
    ||| kind == "annotation_type_declaration"@
    ||| kind == "method_declaration"@
    ||| kind == "constructor_declaration"@
    ||| kind == "variable_declarator"@
    ||| kind == "formal_parameter"@
    ||| kind == "catch_formal_parameter"@
    ||| kind == "enum_constant"@
}

/// Whether everything below a node of the kind `kind` is declared rather than
/// used: the names of an import, of a package declaration, and of the parameters
/// of a lambda that are written without types.
pub open spec fn declares_all_below(kind: Seq<char>) -> bool {
    kind == "import_declaration"@ || kind == "package_declaration"@ || kind
        == "inferred_parameters"@
}

/// Whether the identifiers at and below the child at `i` of `parent` are declared
/// rather than used, given whether those at `parent` are.
pub open spec fn defining_below(parent: CstNode, i: int, defining: bool) -> bool {
    defining || declares_all_below(parent.kind@) || (declares_its_name(parent.kind@) && i
        == first_in_field(parent.children@, "name"@, 0))
}

/// Whether the child at `i` of `parent` is the name of a method that is called on
/// an object: such a name is no usage of its own.
pub open spec fn is_qualified_method_name(parent: CstNode, i: int) -> bool {
    parent.kind@ == "method_invocation"@ && i == first_in_field(parent.children@, "name"@, 0)
        && first_in_field(parent.children@, "object"@, 0) < parent.children@.len()
}

/// The names with the text of `node` added, where that text can be had.
pub open spec fn with_text(source: Seq<char>, node: CstNode, names: Seq<Seq<char>>) -> Seq<
    Seq<char>,
> {
    match node.text_in(source) {
        Some(text) => with_name(names, text),
        None => names,
    }
}

/// The names with the text of `node` added, where `node` is an identifier that
/// begins with an upper-case character.
pub open spec fn with_type_like(source: Seq<char>, node: CstNode, names: Seq<Seq<char>>) -> Seq<
    Seq<char>,
> {
    match node.text_in(source) {
        Some(text) => if node.kind@ == "identifier"@ && starts_uppercase(text) {
            with_name(names, text)
        } else {
            names
        },
        None => names,
    }
}

/// The names with what `node` itself uses added to them:
/// a type identifier; the first type of a scoped type; the name of an annotation,
/// or the first part of its qualified name; the type that a method is called on
/// or a field is read of, or the name of a method that is called on nothing; and
/// an identifier in an expression, unless `skip` holds.
pub open spec fn usages_at(source: Seq<char>, node: CstNode, skip: bool, names: Seq<Seq<char>>)
    -> Seq<Seq<char>> {
    let kind = node.kind@;
    let children = node.children@;
    if kind == "type_identifier"@ {
        with_text(source, node, names)
    } else if kind == "scoped_type_identifier"@ {
        let t = first_of_kind(children, "type_identifier"@, 0);
        if t < children.len() {
            with_text(source, children[t], names)
        } else {
            names
        }
    } else if kind == "marker_annotation"@ || kind == "annotation"@ {
        let n = first_name_node(children, 0);
        if n >= children.len() {
            names
        } else if children[n].kind@ == "scoped_identifier"@ {
            if children[n].children@.len() > 0 {
                with_text(source, children[n].children@[0], names)
            } else {
                names
            }
        } else {
            with_text(source, children[n], names)
        }
    } else if kind == "method_invocation"@ {
        let o = first_in_field(children, "object"@, 0);
        let n = first_in_field(children, "name"@, 0);
        if o < children.len() {
            with_type_like(source, children[o], names)
        } else if n < children.len() {
            with_text(source, children[n], names)
        } else {
            names
        }
    } else if kind == "field_access"@ {
        let o = first_in_field(children, "object"@, 0);
        if o < children.len() {
            with_type_like(source, children[o], names)
        } else {
            names
        }
    } else if kind == "identifier"@ {
        if skip {
            names
        } else {
            with_text(source, node, names)
        }
    } else {
        names
    }
}

/// The names with all that is used at `node` and below it added to them, in the
/// order of the walk. `defining` holds where the identifiers here are declared
/// rather than used; `skip` where the node itself, if it is an identifier, is no
/// usage.
pub open spec fn usages_in(
    source: Seq<char>,
    node: CstNode,
    defining: bool,
    skip: bool,
    names: Seq<Seq<char>>,
) -> Seq<Seq<char>>
    decreases node,
{
    usages_among(
        source,
        node,
        node.children@,
        0,
        defining,
        usages_at(source, node, defining || skip, names),
    )
}

/// The names with all that is used at and below the children of `parent` from
/// `i` on added to them.
pub open spec fn usages_among(
    source: Seq<char>,
    parent: CstNode,
    children: Seq<CstNode>,
    i: int,
    defining: bool,
    names: Seq<Seq<char>>,
) -> Seq<Seq<char>>
    decreases children, children.len() - i,
{
    if i < 0 || i >= children.len() {
        names
    } else {
        usages_among(
            source,
            parent,
            children,
            i + 1,
            defining,
            usages_in(
                source,
                children[i],
                defining_below(parent, i, defining),
                is_qualified_method_name(parent, i),
                names,
            ),
        )
    }
}

/// The names that the tree below `root` uses: the set of `usages_in`, begun with
/// no name. The root itself has no place in an expression and is no usage.
pub open spec fn type_usages(source: Seq<char>, root: CstNode) -> Seq<Seq<char>> {
    usages_in(source, root, false, true, Seq::empty())
}

/// Adds the text of `node` to `usages`.
fn add_text(node: &CstNode, source: &str, usages: &mut NameSet)
    ensures
        final(usages)@ == with_text(source@, *node, old(usages)@),
        old(usages).wf() ==> final(usages).wf(),
{
    match node.text(source) {
        Some(text) => usages.insert(text),
        None => {},
    }
}

/// Adds the text of `node` to `usages` where it is an identifier that begins
/// with an upper-case character.
fn add_type_like(node: &CstNode, source: &str, usages: &mut NameSet)
    ensures
        final(usages)@ == with_type_like(source@, *node, old(usages)@),
        old(usages).wf() ==> final(usages).wf(),
{
    match node.text(source) {
        Some(text) => {
            if node.kind_is("identifier") && begins_uppercase(text) {
                usages.insert(text);
            }
        },
        None => {},
    }
}

/// The first child of `node` that is a scoped identifier or an identifier.
fn first_name_child(node: &CstNode) -> (r: Option<&CstNode>)
    ensures
        match r {
            Some(c) => {
                let i = first_name_node(node.children@, 0);
                0 <= i < node.children@.len() && *c == node.children@[i]
            },
            None => first_name_node(node.children@, 0) == node.children@.len(),
        },
{
    let mut i: usize = 0;
    while i < node.children.len()
        invariant
            i <= node.children.len(),
            first_name_node(node.children@, 0) == first_name_node(node.children@, i as int),
        decreases node.children.len() - i,
    {
        if node.children[i].kind_is("scoped_identifier") || node.children[i].kind_is(
            "identifier",
        ) {
            return Some(&node.children[i]);
        }
        i += 1;
    }
    None
}

/// Adds what `node` itself uses to `usages`.
pub fn collect_usages_at(node: &CstNode, source: &str, skip: bool, usages: &mut NameSet)
    ensures
        final(usages)@ == usages_at(source@, *node, skip, old(usages)@),
        old(usages).wf() ==> final(usages).wf(),
{
    if node.kind_is("type_identifier") {
        add_text(node, source, usages);
    } else if node.kind_is("scoped_type_identifier") {
        match node.child_of_kind("type_identifier") {
            Some(first) => add_text(first, source, usages),
            None => {},
        }
    } else if node.kind_is("marker_annotation") || node.kind_is("annotation") {
        match first_name_child(node) {
            Some(name) => {
                if name.kind_is("scoped_identifier") {
                    if name.children.len() > 0 {
                        add_text(&name.children[0], source, usages);
                    }
                } else {
                    add_text(name, source, usages);
                }
            },
            None => {},
        }
    } else if node.kind_is("method_invocation") {
        match node.child_by_field_name("object") {
            Some(object) => add_type_like(object, source, usages),
            None => {
                match node.child_by_field_name("name") {
                    Some(name) => add_text(name, source, usages),
                    None => {},
                }
            },
        }
    } else if node.kind_is("field_access") {
        match node.child_by_field_name("object") {
            Some(object) => add_type_like(object, source, usages),
            None => {},
        }
    } else if node.kind_is("identifier") {
        if !skip {
            add_text(node, source, usages);
        }
    }
}

/// Whether a node of the kind of `node` declares the name in its field `name`.
fn declares_name(node: &CstNode) -> (r: bool)
    ensures
        r == declares_its_name(node.kind@),
{
    node.kind_is("class_declaration") || node.kind_is("interface_declaration") || node.kind_is(
        "enum_declaration",
    ) || node.kind_is("record_declaration") || node.kind_is("annotation_type_declaration")
        || node.kind_is("method_declaration") || node.kind_is("constructor_declaration")
        || node.kind_is("variable_declarator") || node.kind_is("formal_parameter")
        || node.kind_is("catch_formal_parameter") || node.kind_is("enum_constant")
}

/// The index of the first child of `node` in the field `name`, or the number of
/// its children where there is none.
fn field_index(node: &CstNode, name: &str) -> (r: usize)
    ensures
        r == first_in_field(node.children@, name@, 0),
        r <= node.children@.len(),
{
    let mut i: usize = 0;
    while i < node.children.len()
        invariant
            i <= node.children.len(),
            first_in_field(node.children@, name@, 0) == first_in_field(
                node.children@,
                name@,
                i as int,
            ),
        decreases node.children.len() - i,
    {
        if node.children[i].field_is(name) {
            return i;
        }
        i += 1;
    }
    i
}

/// Adds all that is used at `node` and below it to `usages`.
pub fn collect_usages_recursive(
    node: &CstNode,
    source: &str,
    defining: bool,
    skip: bool,
    usages: &mut NameSet,
)
    ensures
        final(usages)@ == usages_in(source@, *node, defining, skip, old(usages)@),
        old(usages).wf() ==> final(usages).wf(),
    decreases *node,
{
    collect_usages_at(node, source, defining || skip, usages);
    let all_below = node.kind_is("import_declaration") || node.kind_is("package_declaration")
        || node.kind_is("inferred_parameters");
    let names_child = declares_name(node);
    let name_at = field_index(node, "name");
    let qualified = node.kind_is("method_invocation") && field_index(node, "object")
        < node.children.len();
    let mut i: usize = 0;
    while i < node.children.len()
        invariant
            i <= node.children.len(),
            all_below == declares_all_below(node.kind@),
            names_child == declares_its_name(node.kind@),
            name_at == first_in_field(node.children@, "name"@, 0),
            qualified == (node.kind@ == "method_invocation"@ && first_in_field(
                node.children@,
                "object"@,
                0,
            ) < node.children@.len()),
            old(usages).wf() ==> usages.wf(),
            usages_among(source@, *node, node.children@, i as int, defining, usages@)
                == usages_in(source@, *node, defining, skip, old(usages)@),
        decreases node.children.len() - i,
    {
        let below = defining || all_below || (names_child && i == name_at);
        let method_name = qualified && i == name_at;
        collect_usages_recursive(&node.children[i], source, below, method_name, usages);
        i += 1;
    }
}

/// Collect all type identifiers used in the source code: type identifiers in
/// declarations, casts and generics; annotation names; the targets of calls and
/// of field reads that look like types; and the identifiers of expressions.
pub fn collect_type_usages(root: &CstNode, source: &str) -> (r: NameSet)
    ensures
        r@ == type_usages(source@, *root),
        r.wf(),
{
    let mut usages = NameSet::new();
    collect_usages_recursive(root, source, false, true, &mut usages);
    usages
}

} // verus!
