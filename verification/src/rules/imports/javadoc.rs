//! The types that the documentation comments of a file refer to.

use crate::cst::CstNode;
use crate::names::{with_name, NameSet};
use crate::pattern::{
    captures_view, groups_view, pattern_captures, regex_captures, regex_compiles,
};
use crate::rules::imports::common::{find_first_byte, first_byte};
use crate::text::{slice_between, text_between};
use vstd::prelude::*;
use vstd::string::StringSliceAdditionalSpecFns;
use vstd::utf8::encode_utf8;

verus! {

/// The pattern of `{@link Type}`, `{@link Type#method(Param)}` and
/// `{@linkplain Type text}`: its first group is the type, its second the
/// parameters of the method.
pub open spec fn link_pattern() -> Seq<char> {
    "\\{@(?:link|linkplain)\\s+(?:([A-Z][A-Za-z0-9_]*))?(?:#[^}(]*(?:\\(([^)]*)\\))?)?[^}]*\\}"@
}

/// The pattern of `@see reference`: its first group is the reference, with the
/// parameters of a method where it has them.
pub open spec fn see_pattern() -> Seq<char> {
    "@see\\s+([^\\s(]+(?:\\([^)]*\\))?)"@
}

/// The pattern of `@throws Type` and `@exception Type`: its first group is the
/// type, which may be qualified.
pub open spec fn throws_pattern() -> Seq<char> {
    "@(?:throws|exception)\\s+([A-Z][A-Za-z0-9_.]*)"@
}

/// The pattern of a name that begins with a capital letter; its first group is
/// the name.
pub open spec fn type_name_pattern() -> Seq<char> {
    "([A-Z][A-Za-z0-9_]*)"@
}

/// The group at `i` of one match: its text, or nothing where the match has no
/// such group or the group took no part in it.
pub open spec fn group_at(groups: Seq<Option<Seq<char>>>, i: int) -> Option<Seq<char>> {
    if 0 <= i < groups.len() {
        groups[i]
    } else {
        None
    }
}

/// The matches of `pattern` in `text`; none where the pattern does not compile.
pub open spec fn matches_of(pattern: Seq<char>, text: Seq<char>) -> Seq<Seq<Option<Seq<char>>>> {
    if regex_compiles(pattern) {
        regex_captures(pattern, text)
    } else {
        Seq::empty()
    }
}

/// The names with the first group of each of the first `upto` matches added.
pub open spec fn with_first_groups(
    matches: Seq<Seq<Option<Seq<char>>>>,
    upto: int,
    names: Seq<Seq<char>>,
) -> Seq<Seq<char>>
    decreases upto,
{
    if upto <= 0 || upto > matches.len() {
        names
    } else {
        let before = with_first_groups(matches, upto - 1, names);
        match group_at(matches[upto - 1], 1) {
            Some(name) => with_name(before, name),
            None => before,
        }
    }
}

/// The names with every name in `text` that begins with a capital letter added.
pub open spec fn with_type_names(text: Seq<char>, names: Seq<Seq<char>>) -> Seq<Seq<char>> {
    let matches = matches_of(type_name_pattern(), text);
    with_first_groups(matches, matches.len() as int, names)
}

/// The names with what the first `upto` links refer to added: the type of each
/// link, and the types among the parameters of its method.
pub open spec fn with_links(
    matches: Seq<Seq<Option<Seq<char>>>>,
    upto: int,
    names: Seq<Seq<char>>,
) -> Seq<Seq<char>>
    decreases upto,
{
    if upto <= 0 || upto > matches.len() {
        names
    } else {
        let before = with_links(matches, upto - 1, names);
        let typed = match group_at(matches[upto - 1], 1) {
            Some(name) => with_name(before, name),
            None => before,
        };
        match group_at(matches[upto - 1], 2) {
            Some(parameters) => with_type_names(parameters, typed),
            None => typed,
        }
    }
}

/// The names with what the first `upto` `@see` tags refer to added: every name
/// in the reference that begins with a capital letter.
pub open spec fn with_sees(
    matches: Seq<Seq<Option<Seq<char>>>>,
    upto: int,
    names: Seq<Seq<char>>,
) -> Seq<Seq<char>>
    decreases upto,
{
    if upto <= 0 || upto > matches.len() {
        names
    } else {
        let before = with_sees(matches, upto - 1, names);
        match group_at(matches[upto - 1], 1) {
            Some(reference) => with_type_names(reference, before),
            None => before,
        }
    }
}

/// What stands before the first dot of `name`; all of it where it has none.
pub open spec fn before_first_dot(name: Seq<char>) -> Seq<char> {
    match text_between(name, 0, first_byte(encode_utf8(name), 46u8, 0)) {
        Some(head) => head,
        None => name,
    }
}

/// The names with what the first `upto` `@throws` tags name added: the type, or
/// the first part of a qualified name.
pub open spec fn with_throws(
    matches: Seq<Seq<Option<Seq<char>>>>,
    upto: int,
    names: Seq<Seq<char>>,
) -> Seq<Seq<char>>
    decreases upto,
{
    if upto <= 0 || upto > matches.len() {
        names
    } else {
        let before = with_throws(matches, upto - 1, names);
        match group_at(matches[upto - 1], 1) {
            Some(name) => with_name(before, before_first_dot(name)),
            None => before,
        }
    }
}

/// The names with the types that the documentation comment `javadoc` refers to
/// added: those of its links first, then those of its `@see` tags, then those of
/// its `@throws` and `@exception` tags.
pub open spec fn with_javadoc_types(javadoc: Seq<char>, names: Seq<Seq<char>>) -> Seq<Seq<char>> {
    let links = matches_of(link_pattern(), javadoc);
    let sees = matches_of(see_pattern(), javadoc);
    let throws = matches_of(throws_pattern(), javadoc);
    with_throws(
        throws,
        throws.len() as int,
        with_sees(sees, sees.len() as int, with_links(links, links.len() as int, names)),
    )
}

/// The text of the group at `i` of one match.
pub fn group<'a>(groups: &'a Vec<Option<String>>, i: usize) -> (r: Option<&'a str>)
    ensures
        match r {
            Some(text) => group_at(groups_view(groups@), i as int) == Some(text@),
            None => group_at(groups_view(groups@), i as int).is_none(),
        },
{
    if i < groups.len() {
        match &groups[i] {
            Some(text) => Some(text.as_str()),
            None => None,
        }
    } else {
        None
    }
}

/// Adds the first group of each match to `references`.
pub fn add_first_groups(matches: &Vec<Vec<Option<String>>>, references: &mut NameSet)
    ensures
        final(references)@ == with_first_groups(
            captures_view(matches@),
            matches@.len() as int,
            old(references)@,
        ),
        old(references).wf() ==> final(references).wf(),
{
    let mut i: usize = 0;
    while i < matches.len()
        invariant
            i <= matches.len(),
            old(references).wf() ==> references.wf(),
            references@ == with_first_groups(captures_view(matches@), i as int, old(references)@),
        decreases matches.len() - i,
    {
        match group(&matches[i], 1) {
            Some(name) => references.insert(name),
            None => {},
        }
        i += 1;
    }
}

/// Adds every name in `text` that begins with a capital letter to `references`.
pub fn add_type_names(text: &str, references: &mut NameSet)
    ensures
        final(references)@ == with_type_names(text@, old(references)@),
        old(references).wf() ==> final(references).wf(),
{
    match pattern_captures("([A-Z][A-Za-z0-9_]*)", text) {
        Some(matches) => add_first_groups(&matches, references),
        None => {},
    }
}

/// Adds what the links `matches` refer to.
pub fn add_links(matches: &Vec<Vec<Option<String>>>, references: &mut NameSet)
    ensures
        final(references)@ == with_links(
            captures_view(matches@),
            matches@.len() as int,
            old(references)@,
        ),
        old(references).wf() ==> final(references).wf(),
{
    let mut i: usize = 0;
    while i < matches.len()
        invariant
            i <= matches.len(),
            old(references).wf() ==> references.wf(),
            references@ == with_links(captures_view(matches@), i as int, old(references)@),
        decreases matches.len() - i,
    {
        match group(&matches[i], 1) {
            Some(name) => references.insert(name),
            None => {},
        }
        match group(&matches[i], 2) {
            Some(parameters) => add_type_names(parameters, references),
            None => {},
        }
        i += 1;
    }
}

/// Adds what the `@see` tags `matches` refer to.
pub fn add_sees(matches: &Vec<Vec<Option<String>>>, references: &mut NameSet)
    ensures
        final(references)@ == with_sees(
            captures_view(matches@),
            matches@.len() as int,
            old(references)@,
        ),
        old(references).wf() ==> final(references).wf(),
{
    let mut i: usize = 0;
    while i < matches.len()
        invariant
            i <= matches.len(),
            old(references).wf() ==> references.wf(),
            references@ == with_sees(captures_view(matches@), i as int, old(references)@),
        decreases matches.len() - i,
    {
        match group(&matches[i], 1) {
            Some(reference) => add_type_names(reference, references),
            None => {},
        }
        i += 1;
    }
}

/// What stands before the first dot of `name`.
pub fn first_segment(name: &str) -> (r: &str)
    ensures
        r@ == before_first_dot(name@),
{
    let dot = find_first_byte(name, 46u8);
    match slice_between(name, 0, dot) {
        Some(head) => head,
        None => name,
    }
}

/// Adds what the `@throws` tags `matches` name.
pub fn add_throws(matches: &Vec<Vec<Option<String>>>, references: &mut NameSet)
    ensures
        final(references)@ == with_throws(
            captures_view(matches@),
            matches@.len() as int,
            old(references)@,
        ),
        old(references).wf() ==> final(references).wf(),
{
    let mut i: usize = 0;
    while i < matches.len()
        invariant
            i <= matches.len(),
            old(references).wf() ==> references.wf(),
            references@ == with_throws(captures_view(matches@), i as int, old(references)@),
        decreases matches.len() - i,
    {
        match group(&matches[i], 1) {
            Some(name) => references.insert(first_segment(name)),
            None => {},
        }
        i += 1;
    }
}

/// Adds the types that the documentation comment `javadoc` refers to.
pub fn parse_javadoc_types(javadoc: &str, references: &mut NameSet)
    ensures
        final(references)@ == with_javadoc_types(javadoc@, old(references)@),
        old(references).wf() ==> final(references).wf(),
{
    match pattern_captures(
        "\\{@(?:link|linkplain)\\s+(?:([A-Z][A-Za-z0-9_]*))?(?:#[^}(]*(?:\\(([^)]*)\\))?)?[^}]*\\}",
        javadoc,
    ) {
        Some(links) => add_links(&links, references),
        None => {},
    }
    match pattern_captures("@see\\s+([^\\s(]+(?:\\([^)]*\\))?)", javadoc) {
        Some(sees) => add_sees(&sees, references),
        None => {},
    }
    match pattern_captures("@(?:throws|exception)\\s+([A-Z][A-Za-z0-9_.]*)", javadoc) {
        Some(throws) => add_throws(&throws, references),
        None => {},
    }
}

/// Whether `bytes` begin as a documentation comment does: with a slash and two
/// asterisks.
pub open spec fn opens_javadoc(bytes: Seq<u8>) -> bool {
    bytes.len() >= 3 && bytes[0] == 47u8 && bytes[1] == 42u8 && bytes[2] == 42u8
}

/// The names with what the documentation comment at `node` refers to added, if
/// `node` is one.
pub open spec fn javadoc_at(source: Seq<char>, node: CstNode, names: Seq<Seq<char>>) -> Seq<
    Seq<char>,
> {
    if node.kind@ == "block_comment"@ {
        match node.text_in(source) {
            Some(text) => if opens_javadoc(encode_utf8(text)) {
                with_javadoc_types(text, names)
            } else {
                names
            },
            None => names,
        }
    } else {
        names
    }
}

/// The names with what the documentation comments at `node` and below it refer
/// to added, in the order of the walk.
pub open spec fn javadoc_in(source: Seq<char>, node: CstNode, names: Seq<Seq<char>>) -> Seq<
    Seq<char>,
>
    decreases node,
{
    javadoc_among(source, node.children@, 0, javadoc_at(source, node, names))
}

/// The names with what the documentation comments at and below the nodes from
/// `i` on refer to added.
pub open spec fn javadoc_among(
    source: Seq<char>,
    nodes: Seq<CstNode>,
    i: int,
    names: Seq<Seq<char>>,
) -> Seq<Seq<char>>
    decreases nodes, nodes.len() - i,
{
    if i < 0 || i >= nodes.len() {
        names
    } else {
        javadoc_among(source, nodes, i + 1, javadoc_in(source, nodes[i], names))
    }
}

/// Adds what the documentation comments at `node` and below it refer to.
pub fn collect_javadoc_recursive(node: &CstNode, source: &str, references: &mut NameSet)
    ensures
        final(references)@ == javadoc_in(source@, *node, old(references)@),
        old(references).wf() ==> final(references).wf(),
    decreases *node,
{
    if node.kind_is("block_comment") {
        match node.text(source) {
            Some(text) => {
                let bytes = text.as_bytes();
                if bytes.len() >= 3 && bytes[0] == 47u8 && bytes[1] == 42u8 && bytes[2] == 42u8 {
                    parse_javadoc_types(text, references);
                }
            },
            None => {},
        }
    }
    let mut i: usize = 0;
    while i < node.children.len()
        invariant
            i <= node.children.len(),
            old(references).wf() ==> references.wf(),
            javadoc_among(source@, node.children@, i as int, references@) == javadoc_in(
                source@,
                *node,
                old(references)@,
            ),
        decreases node.children.len() - i,
    {
        collect_javadoc_recursive(&node.children[i], source, references);
        i += 1;
    }
}

/// Extract type references from Javadoc comments: `{@link Type}`,
/// `{@link Type#method(Param)}`, `{@linkplain Type text}`, `@see Type`,
/// `@throws Type` and `@exception Type`.
pub fn collect_javadoc_references(root: &CstNode, source: &str) -> (r: NameSet)
    ensures
        r@ == javadoc_in(source@, *root, Seq::empty()),
        r.wf(),
{
    let mut references = NameSet::new();
    collect_javadoc_recursive(root, source, &mut references);
    references
}

} // verus!
