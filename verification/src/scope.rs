//! The scope manager: variable tables with unique names, modelled as finite
//! maps, and the copy-out merge that propagates mutations of pre-existing
//! variables from a nested execution context back to its parent.

use vstd::prelude::*;
use vstd::pervasive::VecAdditionalExecFns;
use crate::value::Value;
use crate::value::ValModel;
use crate::value::copy_value;

verus! {

/// A variable table: ordered (name, value) entries with unique names.
#[derive(Debug)]
pub struct VarTable {
    pub entries: Vec<(String, Value)>,
}

/// No two entries share a name.
pub open spec fn distinct_keys(es: Seq<(String, Value)>) -> bool {
    forall|i: int, j: int| 0 <= i < j < es.len() ==> es[i].0@ != es[j].0@
}

/// The finite map modelled by a sequence of entries; later entries take
/// precedence (with unique names the order is immaterial).
pub open spec fn table_map(es: Seq<(String, Value)>) -> Map<Seq<char>, ValModel>
    decreases es.len(),
{
    if es.len() == 0 {
        Map::empty()
    } else {
        table_map(es.drop_last()).insert(es.last().0@, es.last().1.model())
    }
}

/// A key is in the table's map exactly when some entry carries it.
pub proof fn lemma_table_map_contains(es: Seq<(String, Value)>, k: Seq<char>)
    ensures
        table_map(es).contains_key(k) <==> exists|i: int| 0 <= i < es.len() && es[i].0@ == k,
    decreases es.len(),
{
    if es.len() > 0 {
        lemma_table_map_contains(es.drop_last(), k);
        if es.last().0@ == k {
            assert(es[es.len() - 1].0@ == k);
        } else if table_map(es).contains_key(k) {
            let i = choose|i: int| 0 <= i < es.drop_last().len() && es.drop_last()[i].0@ == k;
            assert(es[i].0@ == k);
        } else if exists|i: int| 0 <= i < es.len() && es[i].0@ == k {
            let i = choose|i: int| 0 <= i < es.len() && es[i].0@ == k;
            assert(es.drop_last()[i].0@ == k);
        }
    }
}

/// With unique names, the map agrees with each entry.
pub proof fn lemma_table_map_index(es: Seq<(String, Value)>, i: int)
    requires
        distinct_keys(es),
        0 <= i < es.len(),
    ensures
        table_map(es).contains_key(es[i].0@),
        table_map(es)[es[i].0@] == es[i].1.model(),
    decreases es.len(),
{
    if i < es.len() - 1 {
        assert(distinct_keys(es.drop_last())) by {
            assert(forall|p: int, q: int|
                0 <= p < q < es.drop_last().len() ==> es.drop_last()[p].0@ != es.drop_last()[q].0@);
        }
        lemma_table_map_index(es.drop_last(), i);
        assert(es.drop_last()[i] == es[i]);
        assert(es.last().0@ != es[i].0@);
    }
}

/// Replacing the entry at `i` by one with the same name updates the map at
/// that name alone.
pub proof fn lemma_table_map_update(es: Seq<(String, Value)>, i: int, e: (String, Value))
    requires
        distinct_keys(es),
        0 <= i < es.len(),
        e.0@ == es[i].0@,
    ensures
        table_map(es.update(i, e)) == table_map(es).insert(e.0@, e.1.model()),
    decreases es.len(),
{
    let es2 = es.update(i, e);
    if i == es.len() - 1 {
        assert(es2.drop_last() =~= es.drop_last());
        assert(table_map(es2) =~= table_map(es).insert(e.0@, e.1.model()));
    } else {
        assert(distinct_keys(es.drop_last())) by {
            assert(forall|p: int, q: int|
                0 <= p < q < es.drop_last().len() ==> es.drop_last()[p].0@ != es.drop_last()[q].0@);
        }
        lemma_table_map_update(es.drop_last(), i, e);
        assert(es2.drop_last() =~= es.drop_last().update(i, e));
        assert(es2.last() == es.last());
        assert(es.last().0@ != e.0@);
        assert(table_map(es2) =~= table_map(es).insert(e.0@, e.1.model()));
    }
}

/// Appending an entry inserts its name into the map.
pub proof fn lemma_table_map_push(es: Seq<(String, Value)>, e: (String, Value))
    ensures
        table_map(es.push(e)) == table_map(es).insert(e.0@, e.1.model()),
{
    assert(es.push(e).drop_last() =~= es);
    assert(es.push(e).last() == e);
}

/// Entrywise agreement of names and value models gives the same map.
pub proof fn lemma_table_map_congruent(es1: Seq<(String, Value)>, es2: Seq<(String, Value)>)
    requires
        es1.len() == es2.len(),
        forall|i: int|
            0 <= i < es1.len() ==> es1[i].0@ == es2[i].0@ && es1[i].1.model() == es2[i].1.model(),
    ensures
        table_map(es1) == table_map(es2),
    decreases es1.len(),
{
    if es1.len() > 0 {
        assert(forall|i: int|
            0 <= i < es1.drop_last().len() ==> es1.drop_last()[i].0@ == es2.drop_last()[i].0@
                && es1.drop_last()[i].1.model() == es2.drop_last()[i].1.model());
        lemma_table_map_congruent(es1.drop_last(), es2.drop_last());
        assert(es1[es1.len() - 1].0@ == es2[es2.len() - 1].0@);
        assert(es1[es1.len() - 1].1.model() == es2[es2.len() - 1].1.model());
        assert(table_map(es1) =~= table_map(es2));
    } else {
        assert(table_map(es1) =~= table_map(es2));
    }
}

impl VarTable {
    /// Well-formed: no two entries share a name.
    pub open spec fn wf(self) -> bool {
        distinct_keys(self.entries@)
    }

    /// The finite map this table models.
    pub open spec fn as_map(self) -> Map<Seq<char>, ValModel> {
        table_map(self.entries@)
    }

    /// The empty table.
    pub fn new() -> (r: VarTable)
        ensures
            r.wf(),
            r.as_map() == Map::<Seq<char>, ValModel>::empty(),
    {
        VarTable { entries: Vec::new() }
    }

    /// The index of the entry named `name`, if any.
    fn find(&self, name: &String) -> (r: Option<usize>)
        ensures
            match r {
                Some(i) => i < self.entries@.len() && self.entries@[i as int].0@ == name@,
                None => forall|i: int| 0 <= i < self.entries@.len() ==> self.entries@[i].0@ != name@,
            },
    {
        let mut i: usize = 0;
        while i < self.entries.len()
            invariant
                i <= self.entries@.len(),
                forall|j: int| 0 <= j < i ==> self.entries@[j].0@ != name@,
            decreases self.entries@.len() - i,
        {
            if self.entries[i].0 == *name {
                return Some(i);
            }
            i += 1;
        }
        None
    }

    /// Whether `name` is bound in this table.
    pub fn contains(&self, name: &String) -> (r: bool)
        requires
            self.wf(),
        ensures
            r == self.as_map().contains_key(name@),
    {
        proof {
            lemma_table_map_contains(self.entries@, name@);
        }
        self.find(name).is_some()
    }

    /// The value bound to `name`, if any.
    pub fn get(&self, name: &String) -> (r: Option<&Value>)
        requires
            self.wf(),
        ensures
            match r {
                Some(v) => self.as_map().contains_key(name@) && v.model() == self.as_map()[name@],
                None => !self.as_map().contains_key(name@),
            },
    {
        proof {
            lemma_table_map_contains(self.entries@, name@);
        }
        match self.find(name) {
            Some(i) => {
                proof {
                    lemma_table_map_index(self.entries@, i as int);
                }
                Some(&self.entries[i].1)
            },
            None => None,
        }
    }

    /// Bind `name` to `val`, adding the entry or overwriting the existing one.
    pub fn insert(&mut self, name: &String, val: Value)
        requires
            old(self).wf(),
        ensures
            final(self).wf(),
            final(self).as_map() == old(self).as_map().insert(name@, val.model()),
    {
        match self.find(name) {
            Some(i) => {
                proof {
                    lemma_table_map_update(self.entries@, i as int, (*name, val));
                }
                let ghost old_entries = self.entries@;
                self.entries.set(i, (name.clone(), val));
                proof {
                    assert(self.entries@ =~= old_entries.update(
                        i as int,
                        (self.entries@[i as int].0, self.entries@[i as int].1),
                    ));
                    lemma_table_map_update(
                        old_entries,
                        i as int,
                        (self.entries@[i as int].0, self.entries@[i as int].1),
                    );
                }
            },
            None => {
                proof {
                    lemma_table_map_push(self.entries@, (*name, val));
                }
                let ghost old_entries = self.entries@;
                self.entries.push((name.clone(), val));
                proof {
                    assert(self.entries@ =~= old_entries.push(
                        (self.entries@[self.entries@.len() - 1].0,
                        self.entries@[self.entries@.len() - 1].1),
                    ));
                    lemma_table_map_push(
                        old_entries,
                        (self.entries@[self.entries@.len() - 1].0,
                        self.entries@[self.entries@.len() - 1].1),
                    );
                }
            },
        }
    }

    /// Overwrite the entry named `name` if one exists; report whether it did.
    pub fn set_existing(&mut self, name: &String, val: Value) -> (r: bool)
        requires
            old(self).wf(),
        ensures
            final(self).wf(),
            r == old(self).as_map().contains_key(name@),
            r ==> final(self).as_map() == old(self).as_map().insert(name@, val.model()),
            !r ==> *final(self) == *old(self),
    {
        proof {
            lemma_table_map_contains(self.entries@, name@);
        }
        match self.find(name) {
            Some(i) => {
                let ghost old_entries = self.entries@;
                self.entries.set(i, (name.clone(), val));
                proof {
                    lemma_table_map_update(
                        old_entries,
                        i as int,
                        (self.entries@[i as int].0, self.entries@[i as int].1),
                    );
                    assert(self.entries@ =~= old_entries.update(
                        i as int,
                        (self.entries@[i as int].0, self.entries@[i as int].1),
                    ));
                }
                true
            },
            None => false,
        }
    }

    /// A fresh table with the same bindings.
    pub fn duplicate(&self) -> (r: VarTable)
        requires
            self.wf(),
        ensures
            r.wf(),
            r.as_map() == self.as_map(),
    {
        let mut entries: Vec<(String, Value)> = Vec::new();
        let mut i: usize = 0;
        while i < self.entries.len()
            invariant
                i <= self.entries@.len(),
                entries@.len() == i,
                forall|j: int|
                    0 <= j < i ==> entries@[j].0@ == self.entries@[j].0@
                        && entries@[j].1.model() == self.entries@[j].1.model(),
            decreases self.entries@.len() - i,
        {
            let name = self.entries[i].0.clone();
            let val = copy_value(&self.entries[i].1);
            entries.push((name, val));
            i += 1;
        }
        proof {
            lemma_table_map_congruent(entries@, self.entries@);
        }
        VarTable { entries }
    }

    /// The copy-out merge: overwrite each binding of this table by the
    /// binding of the same name in `child`, where `child` has one; bindings
    /// the child lacks stay, and names only the child knows are discarded.
    pub fn absorb_from(&mut self, child: &VarTable)
        requires
            old(self).wf(),
            child.wf(),
        ensures
            final(self).wf(),
            final(self).as_map().dom() == old(self).as_map().dom(),
            forall|k: Seq<char>|
                old(self).as_map().contains_key(k) ==> final(self).as_map()[k] == (
                    if child.as_map().contains_key(k) {
                        child.as_map()[k]
                    } else {
                        old(self).as_map()[k]
                    }),
    {
        let ghost old_entries = self.entries@;
        let mut i: usize = 0;
        while i < self.entries.len()
            invariant
                i <= self.entries@.len(),
                child.wf(),
                self.entries@.len() == old_entries.len(),
                forall|j: int| 0 <= j < old_entries.len() ==> self.entries@[j].0@ == old_entries[j].0@,
                forall|j: int|
                    i <= j < old_entries.len() ==> self.entries@[j].1.model()
                        == old_entries[j].1.model(),
                forall|j: int|
                    0 <= j < i ==> self.entries@[j].1.model() == (
                        if child.as_map().contains_key(old_entries[j].0@) {
                            child.as_map()[old_entries[j].0@]
                        } else {
                            old_entries[j].1.model()
                        }),
            decreases self.entries@.len() - i,
        {
            let name = self.entries[i].0.clone();
            match child.get(&name) {
                Some(v) => {
                    let c = copy_value(v);
                    self.entries.set(i, (name, c));
                },
                None => {},
            }
            i += 1;
        }
        proof {
            assert(distinct_keys(self.entries@));
            assert forall|k: Seq<char>|
                table_map(old_entries).contains_key(k) implies table_map(self.entries@)[k] == (
                if child.as_map().contains_key(k) {
                    child.as_map()[k]
                } else {
                    table_map(old_entries)[k]
                }) by {
                lemma_table_map_contains(old_entries, k);
                let j = choose|j: int| 0 <= j < old_entries.len() && old_entries[j].0@ == k;
                lemma_table_map_index(old_entries, j);
                lemma_table_map_index(self.entries@, j);
            }
            assert(table_map(self.entries@).dom() =~= table_map(old_entries).dom()) by {
                assert forall|k: Seq<char>|
                    table_map(self.entries@).contains_key(k)
                        == table_map(old_entries).contains_key(k) by {
                    lemma_table_map_contains(old_entries, k);
                    lemma_table_map_contains(self.entries@, k);
                }
            }
        }
    }
}

} // verus!
