//! What the rules on modifiers share.

use crate::cst::{first_of_kind, CstNode};
use vstd::prelude::*;

verus! {

/// Whether `node` has a child of the kind `kind`.
pub open spec fn has_child_of_kind(node: CstNode, kind: Seq<char>) -> bool {
    first_of_kind(node.children@, kind, 0) < node.children@.len()
}

/// Whether one of the nodes from `from` on is the modifier `modifier` itself, or
/// a list of modifiers that holds it.
pub open spec fn modifier_among(nodes: Seq<CstNode>, modifier: Seq<char>, from: int) -> bool
    decreases nodes.len() - from,
{
    if from < 0 || from >= nodes.len() {
        false
    } else if nodes[from].kind@ == "modifiers"@ {
        has_child_of_kind(nodes[from], modifier) || modifier_among(nodes, modifier, from + 1)
    } else {
        nodes[from].kind@ == modifier || modifier_among(nodes, modifier, from + 1)
    }
}

/// Whether a declaration carries the modifier `modifier`: as a child of its own,
/// or within one of its lists of modifiers.
pub open spec fn declared_with(node: CstNode, modifier: Seq<char>) -> bool {
    modifier_among(node.children@, modifier, 0)
}

/// Whether the list of modifiers `modifiers` holds `modifier`.
pub fn has_modifier(modifiers: &CstNode, modifier: &str) -> (r: bool)
    ensures
        r == has_child_of_kind(*modifiers, modifier@),
{
    modifiers.child_of_kind(modifier).is_some()
}

/// Whether the declaration `node` carries the modifier `modifier`.
pub fn is_declared_with(node: &CstNode, modifier: &str) -> (r: bool)
    ensures
        r == declared_with(*node, modifier@),
{
    let mut i: usize = 0;
    while i < node.children.len()
        invariant
            i <= node.children.len(),
            declared_with(*node, modifier@) == modifier_among(
                node.children@,
                modifier@,
                i as int,
            ),
        decreases node.children.len() - i,
    {
        let child = &node.children[i];
        if child.kind_is("modifiers") {
            if has_modifier(child, modifier) {
                return true;
            }
        } else if child.kind_is(modifier) {
            return true;
        }
        i += 1;
    }
    false
}

/// A declaration carries a modifier exactly where one of its children is that
/// modifier, or is a list of modifiers that holds it.
pub proof fn lemma_modifier_among(nodes: Seq<CstNode>, modifier: Seq<char>, from: int)
    requires
        0 <= from,
    ensures
        modifier_among(nodes, modifier, from) <==> exists|k: int|
            from <= k < nodes.len() && carries(#[trigger] nodes[k], modifier),
    decreases nodes.len() - from,
{
    if from < nodes.len() {
        lemma_modifier_among(nodes, modifier, from + 1);
        if carries(nodes[from], modifier) {
        } else if modifier_among(nodes, modifier, from) {
            let k = choose|k: int|
                from + 1 <= k < nodes.len() && carries(#[trigger] nodes[k], modifier);
            assert(carries(nodes[k], modifier));
        } else {
            assert forall|k: int| from <= k < nodes.len() implies !carries(
                #[trigger] nodes[k],
                modifier,
            ) by {
                if k > from {
                    assert(!modifier_among(nodes, modifier, from + 1));
                }
            }
        }
    }
}

/// Whether `node` is the modifier `modifier`, or a list of modifiers that holds
/// it.
pub open spec fn carries(node: CstNode, modifier: Seq<char>) -> bool {
    if node.kind@ == "modifiers"@ {
        has_child_of_kind(node, modifier)
    } else {
        node.kind@ == modifier
    }
}

} // verus!
