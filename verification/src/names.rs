//! A set of names, kept in the order in which they were first added.

use crate::text::str_eq;
use vstd::prelude::*;
use vstd::string::StringExecFns;

verus! {

/// A set of names. No name occurs twice; the names stand in the order in which
/// they were first added, so that the set is walked in the same order on every
/// run.
#[derive(Clone, Debug)]
pub struct NameSet {
    pub names: Vec<String>,
}

/// The names `names` with `name` added, unless it is among them already.
pub open spec fn with_name(names: Seq<Seq<char>>, name: Seq<char>) -> Seq<Seq<char>> {
    if names.contains(name) {
        names
    } else {
        names.push(name)
    }
}

impl View for NameSet {
    type V = Seq<Seq<char>>;

    open spec fn view(&self) -> Seq<Seq<char>> {
        self.names@.map_values(|n: String| n@)
    }
}

impl NameSet {
    /// No name occurs twice.
    pub open spec fn wf(self) -> bool {
        self@.no_duplicates()
    }

    /// The empty set.
    pub fn new() -> (r: NameSet)
        ensures
            r@ == Seq::<Seq<char>>::empty(),
            r.wf(),
    {
        let r = NameSet { names: Vec::new() };
        assert(r@ =~= Seq::<Seq<char>>::empty());
        r
    }

    /// The number of names.
    pub fn len(&self) -> (r: usize)
        ensures
            r == self@.len(),
    {
        self.names.len()
    }

    /// Whether `name` is in the set.
    pub fn contains(&self, name: &str) -> (r: bool)
        ensures
            r == self@.contains(name@),
    {
        let mut i: usize = 0;
        while i < self.names.len()
            invariant
                i <= self.names.len(),
                forall|k: int| 0 <= k < i ==> self@[k] != name@,
            decreases self.names.len() - i,
        {
            if str_eq(self.names[i].as_str(), name) {
                assert(self@[i as int] == name@);
                return true;
            }
            i += 1;
        }
        false
    }

    /// Adds `name` to the set.
    pub fn insert(&mut self, name: &str)
        ensures
            final(self)@ == with_name(old(self)@, name@),
            old(self).wf() ==> final(self).wf(),
    {
        if !self.contains(name) {
            self.names.push(String::from_str(name));
            assert(final(self)@ =~= old(self)@.push(name@));
        }
    }
}

/// Adding a name to a set in which no name occurs twice leaves it so, and the
/// name is in it afterwards, with all that were in it before.
pub proof fn lemma_with_name(names: Seq<Seq<char>>, name: Seq<char>)
    requires
        names.no_duplicates(),
    ensures
        with_name(names, name).no_duplicates(),
        with_name(names, name).contains(name),
        forall|other: Seq<char>| names.contains(other) ==> with_name(names, name).contains(other),
        forall|other: Seq<char>|
            with_name(names, name).contains(other) ==> other == name || names.contains(other),
{
    let after = with_name(names, name);
    if !names.contains(name) {
        assert(after[names.len() as int] == name);
        assert forall|other: Seq<char>| names.contains(other) implies after.contains(other) by {
            let k = choose|k: int| 0 <= k < names.len() && names[k] == other;
            assert(after[k] == other);
        }
    }
}

} // verus!
