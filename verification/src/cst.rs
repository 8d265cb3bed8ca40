//! The concrete syntax tree that the rules read.

use crate::text::{slice_text, str_eq, text_at, TextRange};
use vstd::prelude::*;

verus! {

/// A node of a concrete syntax tree: its kind, the field of its parent that it
/// fills, the bytes of the source that it covers, and its children in source order.
#[derive(Debug)]
pub struct CstNode {
    pub kind: String,
    pub field: Option<String>,
    pub range: TextRange,
    pub children: Vec<CstNode>,
}

/// The index of the first node from `from` on that fills the field `name`, or the
/// length of `nodes` where none does.
pub open spec fn first_in_field(nodes: Seq<CstNode>, name: Seq<char>, from: int) -> int
    decreases nodes.len() - from,
{
    if from < 0 || from >= nodes.len() {
        nodes.len() as int
    } else if nodes[from].in_field(name) {
        from
    } else {
        first_in_field(nodes, name, from + 1)
    }
}

/// The index of the first node from `from` on that has the kind `kind`, or the
/// length of `nodes` where none has.
pub open spec fn first_of_kind(nodes: Seq<CstNode>, kind: Seq<char>, from: int) -> int
    decreases nodes.len() - from,
{
    if from < 0 || from >= nodes.len() {
        nodes.len() as int
    } else if nodes[from].kind@ == kind {
        from
    } else {
        first_of_kind(nodes, kind, from + 1)
    }
}

impl CstNode {
    /// Whether the node fills the field `name` of its parent.
    pub open spec fn in_field(self, name: Seq<char>) -> bool {
        match self.field {
            Some(f) => f@ == name,
            None => false,
        }
    }

    /// The text that the node covers in `source`.
    pub open spec fn text_in(self, source: Seq<char>) -> Option<Seq<char>> {
        text_at(source, self.range)
    }

    pub fn new(kind: &str, field: Option<&str>, range: TextRange, children: Vec<CstNode>) -> (r:
        CstNode)
        ensures
            r.kind@ == kind@,
            match field {
                Some(f) => r.in_field(f@),
                None => r.field.is_none(),
            },
            r.range == range,
            r.children == children,
    {
        let field = match field {
            Some(f) => Some(f.to_owned()),
            None => None,
        };
        CstNode { kind: kind.to_owned(), field, range, children }
    }

    pub fn kind(&self) -> (r: &str)
        ensures
            r@ == self.kind@,
    {
        self.kind.as_str()
    }

    pub fn kind_is(&self, kind: &str) -> (r: bool)
        ensures
            r == (self.kind@ == kind@),
    {
        str_eq(self.kind.as_str(), kind)
    }

    pub fn field_is(&self, name: &str) -> (r: bool)
        ensures
            r == self.in_field(name@),
    {
        match &self.field {
            Some(f) => str_eq(f.as_str(), name),
            None => false,
        }
    }

    pub fn range(&self) -> (r: TextRange)
        ensures
            r == self.range,
    {
        self.range
    }

    pub fn start_byte(&self) -> (r: u32)
        ensures
            r == self.range.start,
    {
        self.range.start
    }

    pub fn end_byte(&self) -> (r: u32)
        ensures
            r == self.range.end,
    {
        self.range.end
    }

    pub fn children(&self) -> (r: &Vec<CstNode>)
        ensures
            *r == self.children,
    {
        &self.children
    }

    /// The first child that fills the field `name`.
    pub fn child_by_field_name(&self, name: &str) -> (r: Option<&CstNode>)
        ensures
            match r {
                Some(c) => {
                    let i = first_in_field(self.children@, name@, 0);
                    0 <= i < self.children@.len() && *c == self.children@[i]
                },
                None => first_in_field(self.children@, name@, 0) == self.children@.len(),
            },
    {
        let mut i: usize = 0;
        while i < self.children.len()
            invariant
                i <= self.children.len(),
                first_in_field(self.children@, name@, 0) == first_in_field(
                    self.children@,
                    name@,
                    i as int,
                ),
            decreases self.children.len() - i,
        {
            if self.children[i].field_is(name) {
                return Some(&self.children[i]);
            }
            i += 1;
        }
        None
    }

    /// The first child of the kind `kind`.
    pub fn child_of_kind(&self, kind: &str) -> (r: Option<&CstNode>)
        ensures
            match r {
                Some(c) => {
                    let i = first_of_kind(self.children@, kind@, 0);
                    0 <= i < self.children@.len() && *c == self.children@[i]
                },
                None => first_of_kind(self.children@, kind@, 0) == self.children@.len(),
            },
    {
        let mut i: usize = 0;
        while i < self.children.len()
            invariant
                i <= self.children.len(),
                first_of_kind(self.children@, kind@, 0) == first_of_kind(
                    self.children@,
                    kind@,
                    i as int,
                ),
            decreases self.children.len() - i,
        {
            if self.children[i].kind_is(kind) {
                return Some(&self.children[i]);
            }
            i += 1;
        }
        None
    }

    /// The text that the node covers in `source`, or nothing where its range does
    /// not select whole characters of `source`.
    pub fn text<'a>(&self, source: &'a str) -> (r: Option<&'a str>)
        ensures
            match r {
                Some(t) => self.text_in(source@) == Some(t@),
                None => self.text_in(source@).is_none(),
            },
    {
        slice_text(source, self.range)
    }
}

/// The index that `first_in_field` gives is that of a node in the field, at or
/// after `from`, or the length of `nodes`.
pub proof fn lemma_first_in_field(nodes: Seq<CstNode>, name: Seq<char>, from: int)
    requires
        0 <= from <= nodes.len(),
    ensures
        from <= first_in_field(nodes, name, from) <= nodes.len(),
        first_in_field(nodes, name, from) < nodes.len() ==> nodes[first_in_field(
            nodes,
            name,
            from,
        )].in_field(name),
    decreases nodes.len() - from,
{
    if from < nodes.len() && !nodes[from].in_field(name) {
        lemma_first_in_field(nodes, name, from + 1);
    }
}

/// The index that `first_of_kind` gives is that of a node of the kind, at or
/// after `from`, or the length of `nodes`.
pub proof fn lemma_first_of_kind(nodes: Seq<CstNode>, kind: Seq<char>, from: int)
    requires
        0 <= from <= nodes.len(),
    ensures
        from <= first_of_kind(nodes, kind, from) <= nodes.len(),
        first_of_kind(nodes, kind, from) < nodes.len() ==> nodes[first_of_kind(
            nodes,
            kind,
            from,
        )].kind@ == kind,
    decreases nodes.len() - from,
{
    if from < nodes.len() && nodes[from].kind@ != kind {
        lemma_first_of_kind(nodes, kind, from + 1);
    }
}

} // verus!
