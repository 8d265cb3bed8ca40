//! The options that a rule is built from.

use crate::text::str_eq;
use vstd::prelude::*;

verus! {

/// One option: a key and the value set for it.
#[derive(Clone, Debug)]
pub struct Property {
    pub key: String,
    pub value: String,
}

/// The options of one rule, by key. A key that is set again takes the later value.
#[derive(Clone, Debug)]
pub struct Properties {
    pub entries: Vec<Property>,
}

/// The value of the last of the first `upto` entries whose key is `key`.
pub open spec fn value_among(entries: Seq<Property>, key: Seq<char>, upto: int) -> Option<
    Seq<char>,
>
    decreases upto,
{
    if upto <= 0 || upto > entries.len() {
        None
    } else if entries[upto - 1].key@ == key {
        Some(entries[upto - 1].value@)
    } else {
        value_among(entries, key, upto - 1)
    }
}

impl Properties {
    /// The value set for `key`, if any.
    pub open spec fn value_of(self, key: Seq<char>) -> Option<Seq<char>> {
        value_among(self.entries@, key, self.entries@.len() as int)
    }

    /// Whether the option `key` is switched on: set to `true`, where it is set at
    /// all, and `default` where it is not. Any other value switches it off.
    pub open spec fn flag(self, key: Seq<char>, default: bool) -> bool {
        match self.value_of(key) {
            Some(v) => v == "true"@,
            None => default,
        }
    }

    /// Whether the option `key` is left on: anything but `false`, where it is set
    /// at all, and `default` where it is not.
    pub open spec fn flag_unless_false(self, key: Seq<char>, default: bool) -> bool {
        match self.value_of(key) {
            Some(v) => v != "false"@,
            None => default,
        }
    }

    /// No option set.
    pub fn new() -> (r: Properties)
        ensures
            forall|key: Seq<char>| r.value_of(key).is_none(),
    {
        Properties { entries: Vec::new() }
    }

    /// Sets `key` to `value`.
    pub fn insert(&mut self, key: &str, value: &str)
        ensures
            forall|k: Seq<char>| #[trigger]
                final(self).value_of(k) == if k == key@ {
                    Some(value@)
                } else {
                    old(self).value_of(k)
                },
    {
        self.entries.push(Property { key: key.to_owned(), value: value.to_owned() });
        assert forall|k: Seq<char>| #[trigger]
            final(self).value_of(k) == if k == key@ {
                Some(value@)
            } else {
                old(self).value_of(k)
            } by {
            let n = old(self).entries@.len() as int;
            if k != key@ {
                lemma_value_among_prefix(final(self).entries@, old(self).entries@, k, n);
            }
        }
    }

    /// The value set for `key`, if any.
    pub fn get(&self, key: &str) -> (r: Option<&str>)
        ensures
            match r {
                Some(v) => self.value_of(key@) == Some(v@),
                None => self.value_of(key@).is_none(),
            },
    {
        let mut i: usize = self.entries.len();
        while i > 0
            invariant
                i <= self.entries.len(),
                self.value_of(key@) == value_among(self.entries@, key@, i as int),
            decreases i,
        {
            if str_eq(self.entries[i - 1].key.as_str(), key) {
                return Some(self.entries[i - 1].value.as_str());
            }
            i -= 1;
        }
        None
    }

    /// Reads the switch `key`: on where it is set to `true`, off where it is set
    /// to anything else, `default` where it is not set.
    pub fn get_flag(&self, key: &str, default: bool) -> (r: bool)
        ensures
            r == self.flag(key@, default),
    {
        match self.get(key) {
            Some(v) => str_eq(v, "true"),
            None => default,
        }
    }

    /// Reads the switch `key`: off only where it is set to `false`, `default`
    /// where it is not set.
    pub fn get_flag_unless_false(&self, key: &str, default: bool) -> (r: bool)
        ensures
            r == self.flag_unless_false(key@, default),
    {
        match self.get(key) {
            Some(v) => !str_eq(v, "false"),
            None => default,
        }
    }
}

/// Entries that agree on their first `upto` places give the same values there.
proof fn lemma_value_among_prefix(a: Seq<Property>, b: Seq<Property>, key: Seq<char>, upto: int)
    requires
        0 <= upto <= a.len(),
        upto <= b.len(),
        forall|i: int| 0 <= i < upto ==> a[i] == b[i],
    ensures
        value_among(a, key, upto) == value_among(b, key, upto),
    decreases upto,
{
    if upto > 0 {
        lemma_value_among_prefix(a, b, key, upto - 1);
    }
}

} // verus!
