//! Tables from names to values, in which no name occurs twice.

use vstd::prelude::*;
use crate::syntax::{duplicate, Expr, Term};
use crate::text::str_equal;

verus! {

/// A name and what it is bound to.
pub struct Entry<V> {
    pub name: String,
    pub value: V,
}

/// A table from names to values. Each name occurs once.
pub struct Table<V> {
    entries: Vec<Entry<V>>,
}

/// The symbols of one scope and the expressions they are bound to.
pub type Scope = Table<Expr>;

/// The map that a sequence of entries stands for: a later entry counts
/// before an earlier one of the same name.
pub open spec fn entries_map<V: View>(entries: Seq<Entry<V>>) -> Map<Seq<char>, V::V>
    decreases entries.len(),
{
    if entries.len() == 0 {
        Map::empty()
    } else {
        entries_map(entries.drop_last()).insert(entries.last().name@, entries.last().value@)
    }
}

/// Whether no two entries have the same name.
pub open spec fn distinct_names<V>(entries: Seq<Entry<V>>) -> bool {
    forall|i: int, j: int|
        0 <= i < j < entries.len() ==> #[trigger] entries[i].name@ != #[trigger] entries[j].name@
}

/// A name that no entry has is not in the map.
proof fn lemma_absent<V: View>(entries: Seq<Entry<V>>, name: Seq<char>)
    requires
        forall|i: int| 0 <= i < entries.len() ==> entries[i].name@ != name,
    ensures
        !entries_map(entries).contains_key(name),
    decreases entries.len(),
{
    if entries.len() > 0 {
        lemma_absent(entries.drop_last(), name);
    }
}

/// The name of an entry that no later entry shares is mapped to its value.
proof fn lemma_present<V: View>(entries: Seq<Entry<V>>, at: int)
    requires
        0 <= at < entries.len(),
        forall|j: int| at < j < entries.len() ==> entries[j].name@ != entries[at].name@,
    ensures
        entries_map(entries).contains_key(entries[at].name@),
        entries_map(entries)[entries[at].name@] == entries[at].value@,
    decreases entries.len(),
{
    if at < entries.len() - 1 {
        lemma_present(entries.drop_last(), at);
    }
}

/// To replace the value of an entry whose name no later entry shares is to
/// map its name to the new value.
proof fn lemma_replaced<V: View>(entries: Seq<Entry<V>>, at: int, entry: Entry<V>)
    requires
        0 <= at < entries.len(),
        entry.name@ == entries[at].name@,
        forall|j: int| at < j < entries.len() ==> entries[j].name@ != entries[at].name@,
    ensures
        entries_map(entries.update(at, entry)) == entries_map(entries).insert(
            entry.name@,
            entry.value@,
        ),
    decreases entries.len(),
{
    let changed = entries.update(at, entry);
    if at < entries.len() - 1 {
        lemma_replaced(entries.drop_last(), at, entry);
        assert(changed.drop_last() =~= entries.drop_last().update(at, entry));
        assert(entries_map(changed) =~= entries_map(entries).insert(entry.name@, entry.value@));
    } else {
        assert(changed.drop_last() =~= entries.drop_last());
        assert(entries_map(changed) =~= entries_map(entries).insert(entry.name@, entry.value@));
    }
}

/// Entries with the same names and values, in the same order, stand for the
/// same map.
proof fn lemma_same_entries<V: View>(a: Seq<Entry<V>>, b: Seq<Entry<V>>)
    requires
        a.len() == b.len(),
        forall|i: int| 0 <= i < a.len() ==> a[i].name@ == b[i].name@ && a[i].value@ == b[i].value@,
    ensures
        entries_map(a) == entries_map(b),
    decreases a.len(),
{
    if a.len() > 0 {
        lemma_same_entries(a.drop_last(), b.drop_last());
    }
}

impl<V: View> View for Table<V> {
    type V = Map<Seq<char>, V::V>;

    closed spec fn view(&self) -> Map<Seq<char>, V::V> {
        entries_map(self.entries@)
    }
}

impl<V> Table<V> {
    #[verifier::type_invariant]
    spec fn well_formed(self) -> bool {
        distinct_names(self.entries@)
    }
}

impl<V: View> Table<V> {
    /// A table without entries.
    pub fn new() -> (r: Self)
        ensures
            r@ == Map::<Seq<char>, V::V>::empty(),
    {
        Table { entries: Vec::new() }
    }

    /// Where the entry of a name stands, if it has one.
    fn position(&self, name: &str) -> (r: Option<usize>)
        ensures
            match r {
                Some(at) => at < self.entries.len() && self.entries@[at as int].name@ == name@,
                None => forall|i: int|
                    0 <= i < self.entries.len() ==> self.entries@[i].name@ != name@,
            },
    {
        let mut i: usize = 0;
        while i < self.entries.len()
            invariant
                i <= self.entries.len(),
                forall|j: int| 0 <= j < i ==> self.entries@[j].name@ != name@,
            decreases self.entries.len() - i,
        {
            if str_equal(self.entries[i].name.as_str(), name) {
                return Some(i);
            }
            i += 1;
        }
        None
    }

    /// Whether a name has an entry.
    pub fn contains(&self, name: &str) -> (r: bool)
        ensures
            r == self@.contains_key(name@),
    {
        self.get(name).is_some()
    }

    /// The value that a name is bound to, if it has an entry.
    pub fn get(&self, name: &str) -> (r: Option<&V>)
        ensures
            match r {
                Some(value) => self@.contains_key(name@) && value@ == self@[name@],
                None => !self@.contains_key(name@),
            },
    {
        proof {
            use_type_invariant(self);
        }
        match self.position(name) {
            Some(at) => {
                proof {
                    lemma_present(self.entries@, at as int);
                }
                Some(&self.entries[at].value)
            },
            None => {
                proof {
                    lemma_absent(self.entries@, name@);
                }
                None
            },
        }
    }

    /// Binds a name to a value, in place of what it was bound to before.
    pub fn insert(&mut self, name: String, value: V)
        ensures
            final(self)@ == old(self)@.insert(name@, value@),
    {
        proof {
            use_type_invariant(&*self);
        }
        match self.position(name.as_str()) {
            Some(at) => {
                let entry = Entry { name, value };
                proof {
                    lemma_replaced(self.entries@, at as int, entry);
                }
                let mut entries: Vec<Entry<V>> = Vec::new();
                core::mem::swap(&mut self.entries, &mut entries);
                let ghost before = entries@;
                entries.set(at, entry);
                proof {
                    assert forall|i: int, j: int| 0 <= i < j < entries@.len() implies entries@[i].name@
                        != entries@[j].name@ by {
                        assert(entries@[i].name@ == before[i].name@);
                        assert(entries@[j].name@ == before[j].name@);
                    }
                }
                core::mem::swap(&mut self.entries, &mut entries);
            },
            None => {
                let ghost before = self.entries@;
                let mut entries: Vec<Entry<V>> = Vec::new();
                core::mem::swap(&mut self.entries, &mut entries);
                entries.push(Entry { name, value });
                proof {
                    assert(entries@.drop_last() =~= before);
                }
                core::mem::swap(&mut self.entries, &mut entries);
            },
        }
    }
}

impl Table<Expr> {
    /// A copy of the scope.
    pub fn duplicate(&self) -> (r: Scope)
        ensures
            r@ == self@,
    {
        proof {
            use_type_invariant(self);
        }
        let mut entries: Vec<Entry<Expr>> = Vec::new();
        let mut i: usize = 0;
        while i < self.entries.len()
            invariant
                i <= self.entries.len(),
                entries@.len() == i,
                forall|j: int|
                    0 <= j < i ==> entries@[j].name@ == self.entries@[j].name@ && entries@[j].value@
                        == self.entries@[j].value@,
            decreases self.entries.len() - i,
        {
            entries.push(
                Entry { name: self.entries[i].name.clone(), value: duplicate(&self.entries[i].value) },
            );
            i += 1;
        }
        proof {
            lemma_same_entries(entries@, self.entries@);
        }
        Table { entries }
    }
}

impl Table<String> {
    /// A copy of the table.
    pub fn duplicate(&self) -> (r: Table<String>)
        ensures
            r@ == self@,
    {
        proof {
            use_type_invariant(self);
        }
        let mut entries: Vec<Entry<String>> = Vec::new();
        let mut i: usize = 0;
        while i < self.entries.len()
            invariant
                i <= self.entries.len(),
                entries@.len() == i,
                forall|j: int|
                    0 <= j < i ==> entries@[j].name@ == self.entries@[j].name@ && entries@[j].value@
                        == self.entries@[j].value@,
            decreases self.entries.len() - i,
        {
            entries.push(
                Entry { name: self.entries[i].name.clone(), value: self.entries[i].value.clone() },
            );
            i += 1;
        }
        proof {
            lemma_same_entries(entries@, self.entries@);
        }
        Table { entries }
    }
}

/// What a scope offers for its variables.
pub trait Variables {
    /// The values that the names are bound to.
    spec fn bindings(&self) -> Map<Seq<char>, Term>;

    /// Binds a name to a copy of a value.
    fn define_var(&mut self, name: &String, value: &Expr)
        ensures
            final(self).bindings() == old(self).bindings().insert(name@, value@),
    ;

    /// A copy of the value that a name is bound to, if it is bound.
    fn var_definition(&mut self, name: &String) -> (r: Option<Expr>)
        ensures
            final(self).bindings() == old(self).bindings(),
            match r {
                Some(value) => old(self).bindings().contains_key(name@) && value@ == old(
                    self,
                ).bindings()[name@],
                None => !old(self).bindings().contains_key(name@),
            },
    ;
}

impl Variables for Scope {
    open spec fn bindings(&self) -> Map<Seq<char>, Term> {
        self@
    }

    fn define_var(&mut self, name: &String, value: &Expr) {
        self.insert(name.clone(), duplicate(value));
    }

    fn var_definition(&mut self, name: &String) -> (r: Option<Expr>) {
        match self.get(name.as_str()) {
            Some(value) => Some(duplicate(value)),
            None => None,
        }
    }
}

} // verus!
