//! A flat mapping from names to bindings, the building block of every scope
//! and of the function table.

use vstd::prelude::*;
use crate::text::same_text;

verus! {

/// A finite map from names to values, stored as a list of bindings.
///
/// When a name occurs more than once, the binding closest to the end is the
/// one that counts; `insert` overwrites in place, so tables built through the
/// public interface never hold a name twice.
#[derive(Debug)]
pub struct Table<V> {
    entries: Vec<(String, V)>,
}

/// The value that a list of bindings gives to `name`: that of the last
/// binding with this name, if there is one.
pub open spec fn binding_of<V>(entries: Seq<(String, V)>, name: Seq<char>) -> Option<V>
    decreases entries.len(),
{
    if entries.len() == 0 {
        None
    } else if entries.last().0@ == name {
        Some(entries.last().1)
    } else {
        binding_of(entries.drop_last(), name)
    }
}

/// The map that a list of bindings stands for.
pub open spec fn map_of<V>(entries: Seq<(String, V)>) -> Map<Seq<char>, V> {
    Map::new(
        |name: Seq<char>| binding_of(entries, name) is Some,
        |name: Seq<char>| binding_of(entries, name)->0,
    )
}

/// No binding after position `i` carries `name`.
pub open spec fn last_occurrence<V>(entries: Seq<(String, V)>, name: Seq<char>, i: int) -> bool {
    &&& 0 <= i < entries.len()
    &&& entries[i].0@ == name
    &&& forall|k: int| i < k < entries.len() ==> entries[k].0@ != name
}

pub proof fn lemma_binding_at_last_occurrence<V>(
    entries: Seq<(String, V)>,
    name: Seq<char>,
    i: int,
)
    requires
        last_occurrence(entries, name, i),
    ensures
        binding_of(entries, name) == Some(entries[i].1),
    decreases entries.len(),
{
    if i < entries.len() - 1 {
        lemma_binding_at_last_occurrence(entries.drop_last(), name, i);
    }
}

pub proof fn lemma_binding_absent<V>(entries: Seq<(String, V)>, name: Seq<char>)
    requires
        forall|k: int| 0 <= k < entries.len() ==> entries[k].0@ != name,
    ensures
        binding_of(entries, name) is None,
    decreases entries.len(),
{
    if entries.len() > 0 {
        lemma_binding_absent(entries.drop_last(), name);
    }
}

/// Replacing the value of a binding leaves every other name as it was.
pub proof fn lemma_binding_after_update<V>(
    entries: Seq<(String, V)>,
    i: int,
    replacement: (String, V),
    other: Seq<char>,
)
    requires
        0 <= i < entries.len(),
        replacement.0@ == entries[i].0@,
        other != entries[i].0@,
    ensures
        binding_of(entries.update(i, replacement), other) == binding_of(entries, other),
    decreases entries.len(),
{
    let updated = entries.update(i, replacement);
    if i < entries.len() - 1 {
        assert(updated.drop_last() =~= entries.drop_last().update(i, replacement));
        lemma_binding_after_update(entries.drop_last(), i, replacement, other);
    } else {
        assert(updated.drop_last() =~= entries.drop_last());
    }
}

impl<V> View for Table<V> {
    type V = Map<Seq<char>, V>;

    closed spec fn view(&self) -> Map<Seq<char>, V> {
        map_of(self.entries@)
    }
}

impl<V> Table<V> {
    /// The empty table.
    pub fn new() -> (table: Table<V>)
        ensures
            table@ == Map::<Seq<char>, V>::empty(),
    {
        let table = Table { entries: Vec::new() };
        assert(table@ =~= Map::<Seq<char>, V>::empty());
        table
    }

    /// The position of the binding that counts for `name`.
    fn position(&self, name: &str) -> (found: Option<usize>)
        ensures
            match found {
                Some(i) => last_occurrence(self.entries@, name@, i as int),
                None => forall|k: int| 0 <= k < self.entries.len() ==> self.entries@[k].0@ != name@,
            },
    {
        let mut i: usize = self.entries.len();
        while i > 0
            invariant
                i <= self.entries.len(),
                forall|k: int| i <= k < self.entries.len() ==> self.entries@[k].0@ != name@,
            decreases i,
        {
            i -= 1;
            if same_text(self.entries[i].0.as_str(), name) {
                return Some(i);
            }
        }
        None
    }

    /// Whether `name` is bound.
    pub fn contains(&self, name: &str) -> (found: bool)
        ensures
            found == self@.contains_key(name@),
    {
        let at = self.position(name);
        proof {
            match at {
                Some(i) => lemma_binding_at_last_occurrence(self.entries@, name@, i as int),
                None => lemma_binding_absent(self.entries@, name@),
            }
        }
        at.is_some()
    }

    /// The value bound to `name`, if any.
    pub fn get(&self, name: &str) -> (found: Option<&V>)
        ensures
            match found {
                Some(value) => self@.contains_key(name@) && *value == self@[name@],
                None => !self@.contains_key(name@),
            },
    {
        match self.position(name) {
            Some(i) => {
                proof {
                    lemma_binding_at_last_occurrence(self.entries@, name@, i as int);
                }
                Some(&self.entries[i].1)
            },
            None => {
                proof {
                    lemma_binding_absent(self.entries@, name@);
                }
                None
            },
        }
    }

    /// Binds `name` to `value`, replacing an earlier binding of the same name.
    pub fn insert(&mut self, name: String, value: V)
        ensures
            final(self)@ == old(self)@.insert(name@, value),
    {
        let ghost before = self.entries@;
        match self.position(name.as_str()) {
            Some(i) => {
                let ghost key = name@;
                self.entries[i] = (name, value);
                proof {
                    let after = self.entries@;
                    lemma_binding_at_last_occurrence(after, key, i as int);
                    assert forall|other: Seq<char>| other != key implies binding_of(after, other)
                        == binding_of(before, other) by {
                        lemma_binding_after_update(before, i as int, after[i as int], other);
                        assert(after =~= before.update(i as int, after[i as int]));
                    }
                    assert(map_of(after) =~= map_of(before).insert(key, value));
                }
            },
            None => {
                let ghost key = name@;
                self.entries.push((name, value));
                proof {
                    let after = self.entries@;
                    assert(after.drop_last() =~= before);
                    assert(map_of(after) =~= map_of(before).insert(key, value));
                }
            },
        }
    }
}

} // verus!
