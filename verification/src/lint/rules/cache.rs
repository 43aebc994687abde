//! What the rules remember of the whole plan.

use vstd::prelude::*;

use crate::schema::spec::{names_of, Spec};

verus! {

/// The names that a list of strings holds, in order.
pub open spec fn names_view(names: Seq<String>) -> Seq<Seq<char>> {
    names.map_values(|name: String| name@)
}

/// How often a name occurs in a list of names.
pub open spec fn occurrences(names: Seq<Seq<char>>, name: Seq<char>) -> nat
    decreases names.len(),
{
    if names.len() == 0 {
        0
    } else {
        occurrences(names.drop_last(), name) + if names.last() == name {
            1nat
        } else {
            0nat
        }
    }
}

/// What every rule may read: the names of the sources that any file of the
/// plan declares, file after file.
#[derive(Debug)]
pub struct CommonCache {
    pub sources: Vec<String>,
}

/// What a rule reads while it checks a file: the shared cache and its own.
pub struct RuleCache<'a, T> {
    pub common: &'a CommonCache,
    pub rule: &'a T,
}

/// Appends the names of a table's entries to a list of names.
pub fn extend_names<T>(names: &mut Vec<String>, table: &Option<Vec<(String, T)>>)
    ensures
        names_view(final(names)@) == names_view(old(names)@) + names_of(*table),
{
    match table {
        None => {
            assert(names_view(names@) + names_of(*table) =~= names_view(names@));
        },
        Some(entries) => {
            let mut i: usize = 0;
            while i < entries.len()
                invariant
                    i <= entries.len(),
                    *table == Some(*entries),
                    names_view(names@) == names_view(old(names)@) + names_of(*table).take(i as int),
                decreases entries.len() - i,
            {
                let ghost before = names@;
                names.push(entries[i].0.clone());
                proof {
                    let all = names_of(*table);
                    assert(all.take(i as int + 1) =~= all.take(i as int).push(all[i as int]));
                    assert(names_view(names@) =~= names_view(before).push(entries[i as int].0@));
                }
                i = i + 1;
            }
            assert(names_of(*table).take(i as int) =~= names_of(*table));
        },
    }
}

/// Counts how often a name occurs in a list of names.
pub fn count_name(names: &Vec<String>, name: &String) -> (out: usize)
    ensures
        out == occurrences(names_view(names@), name@),
{
    let mut out: usize = 0;
    let mut i: usize = 0;
    while i < names.len()
        invariant
            i <= names.len(),
            out <= i,
            out == occurrences(names_view(names@).take(i as int), name@),
        decreases names.len() - i,
    {
        proof {
            let all = names_view(names@);
            assert(all.take(i as int + 1).drop_last() =~= all.take(i as int));
            assert(all.take(i as int + 1).last() == names[i as int]@);
        }
        if names[i] == *name {
            out = out + 1;
        }
        i = i + 1;
    }
    assert(names_view(names@).take(i as int) =~= names_view(names@));
    out
}

/// Tells whether a list of names holds a name.
pub fn has_name(names: &Vec<String>, name: &String) -> (out: bool)
    ensures
        out == names_view(names@).contains(name@),
{
    let mut i: usize = 0;
    while i < names.len()
        invariant
            i <= names.len(),
            forall|k: int| 0 <= k < i ==> names_view(names@)[k] != name@,
        decreases names.len() - i,
    {
        if names[i] == *name {
            assert(names_view(names@)[i as int] == name@);
            return true;
        }
        i = i + 1;
    }
    false
}

impl CommonCache {
    /// The names of the sources seen so far.
    pub open spec fn names(&self) -> Seq<Seq<char>> {
        names_view(self.sources@)
    }

    /// The cache before any file is folded in.
    pub fn new() -> (out: Self)
        ensures
            out.names() == Seq::<Seq<char>>::empty(),
    {
        let out = CommonCache { sources: Vec::new() };
        assert(out.names() =~= Seq::<Seq<char>>::empty());
        out
    }

    /// Folds one file in: its source names come after those already there.
    pub fn pre_compute(&mut self, spec: &Spec)
        ensures
            final(self).names() == old(self).names() + spec.source_names(),
    {
        extend_names(&mut self.sources, &spec.sources);
    }
}

} // verus!
