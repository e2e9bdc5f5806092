//! A flat name-to-value table with map semantics: one compilation-wide
//! namespace, no scoping. Inserting overwrites; the previous binding, if any,
//! is handed back.

use vstd::prelude::*;
use crate::strutil::str_eq_chars;

verus! {

/// The mapping an entry list stands for: later entries win, though the table
/// keeps its keys unique so order never matters.
pub open spec fn entries_map<V: View>(entries: Seq<(String, V)>) -> Map<Seq<char>, V::V>
    decreases entries.len(),
{
    if entries.len() == 0 {
        Map::empty()
    } else {
        entries_map(entries.drop_last()).insert(entries.last().0@, entries.last().1@)
    }
}

/// Keys are pairwise distinct.
pub open spec fn entries_unique<V: View>(entries: Seq<(String, V)>) -> bool {
    forall|i: int, j: int| 0 <= i < j < entries.len() ==> entries[i].0@ != entries[j].0@
}

proof fn lemma_map_absent<V: View>(entries: Seq<(String, V)>, k: Seq<char>)
    requires
        forall|i: int| 0 <= i < entries.len() ==> entries[i].0@ != k,
    ensures
        !entries_map(entries).dom().contains(k),
    decreases entries.len(),
{
    if entries.len() > 0 {
        lemma_map_absent(entries.drop_last(), k);
    }
}

proof fn lemma_map_found<V: View>(entries: Seq<(String, V)>, i: int)
    requires
        entries_unique(entries),
        0 <= i < entries.len(),
    ensures
        entries_map(entries).dom().contains(entries[i].0@),
        entries_map(entries)[entries[i].0@] == entries[i].1@,
    decreases entries.len(),
{
    if i + 1 < entries.len() {
        lemma_map_found(entries.drop_last(), i);
    }
}

proof fn lemma_unique_remove<V: View>(entries: Seq<(String, V)>, i: int)
    requires
        entries_unique(entries),
        0 <= i < entries.len(),
    ensures
        entries_unique(entries.remove(i)),
{
    let r = entries.remove(i);
    assert forall|a: int, b: int| 0 <= a < b < r.len() implies r[a].0@ != r[b].0@ by {
        assert(r[a] == if a < i {
            entries[a]
        } else {
            entries[a + 1]
        });
        assert(r[b] == if b < i {
            entries[b]
        } else {
            entries[b + 1]
        });
    }
}

proof fn lemma_map_remove<V: View>(entries: Seq<(String, V)>, i: int)
    requires
        entries_unique(entries),
        0 <= i < entries.len(),
    ensures
        entries_map(entries.remove(i)) == entries_map(entries).remove(entries[i].0@),
    decreases entries.len(),
{
    let k = entries[i].0@;
    if i == entries.len() - 1 {
        lemma_map_absent(entries.drop_last(), k);
        assert(entries.remove(i) =~= entries.drop_last());
        assert(entries_map(entries.remove(i)) =~= entries_map(entries).remove(k));
    } else {
        lemma_map_remove(entries.drop_last(), i);
        assert(entries.remove(i).drop_last() =~= entries.drop_last().remove(i));
        assert(entries.remove(i).last() == entries.last());
        assert(entries_map(entries.remove(i)) == entries_map(entries.drop_last().remove(i)).insert(
            entries.last().0@,
            entries.last().1@,
        ));
        assert(entries_map(entries.drop_last().remove(i)) == entries_map(
            entries.drop_last(),
        ).remove(k));
        assert(entries_map(entries.drop_last()).remove(k).insert(entries.last().0@, entries.last().1@)
            =~= entries_map(entries.drop_last()).insert(entries.last().0@, entries.last().1@).remove(
            k,
        )) by {
            assert(entries.last().0@ != k);
        }
    }
}

/// A flat symbol table from names to values of `V`, seen as a mathematical
/// map from character sequences to the values' views.
pub struct SymbolTable<V> {
    entries: Vec<(String, V)>,
}

impl<V: View> View for SymbolTable<V> {
    type V = Map<Seq<char>, <V as View>::V>;

    closed spec fn view(&self) -> Map<Seq<char>, <V as View>::V> {
        entries_map(self.entries@)
    }
}

impl<V: View> SymbolTable<V> {
    /// The table keeps one entry per name.
    pub closed spec fn wf(&self) -> bool {
        entries_unique(self.entries@)
    }

    pub fn new() -> (t: Self)
        ensures
            t.wf(),
            t@ == Map::<Seq<char>, <V as View>::V>::empty(),
    {
        SymbolTable { entries: Vec::new() }
    }

    fn find(&self, name: &String) -> (r: Option<usize>)
        ensures
            match r {
                Some(i) => i < self.entries@.len() && self.entries@[i as int].0@ == name@,
                None => forall|i: int|
                    0 <= i < self.entries@.len() ==> self.entries@[i].0@ != name@,
            },
    {
        let n = self.entries.len();
        let mut i: usize = 0;
        while i < n
            invariant
                n == self.entries@.len(),
                i <= n,
                forall|k: int| 0 <= k < i ==> self.entries@[k].0@ != name@,
            decreases n - i,
    {
            if str_eq_chars(self.entries[i].0.as_str(), name.as_str()) {
                return Some(i);
            }
            i = i + 1;
        }
        None
    }

    /// Whether `name` is bound.
    pub fn contains(&self, name: &String) -> (r: bool)
        requires
            self.wf(),
        ensures
            r == self@.dom().contains(name@),
    {
        match self.find(name) {
            Some(i) => {
                proof {
                    lemma_map_found(self.entries@, i as int);
                }
                true
            },
            None => {
                proof {
                    lemma_map_absent(self.entries@, name@);
                }
                false
            },
        }
    }

    /// Looks a name up, handing back a reference to its value.
    pub fn get(&self, name: &String) -> (r: Option<&V>)
        requires
            self.wf(),
        ensures
            match r {
                Some(v) => self@.dom().contains(name@) && v@ == self@[name@],
                None => !self@.dom().contains(name@),
            },
    {
        match self.find(name) {
            Some(i) => {
                proof {
                    lemma_map_found(self.entries@, i as int);
                }
                Some(&self.entries[i].1)
            },
            None => {
                proof {
                    lemma_map_absent(self.entries@, name@);
                }
                None
            },
        }
    }

    /// Unbinds `name`, handing back its value if it was bound.
    pub fn remove(&mut self, name: &String) -> (r: Option<V>)
        requires
            old(self).wf(),
        ensures
            final(self).wf(),
            final(self)@ == old(self)@.remove(name@),
            match r {
                Some(prev) => old(self)@.dom().contains(name@) && prev@ == old(self)@[name@],
                None => !old(self)@.dom().contains(name@) && final(self)@ == old(self)@,
            },
    {
        match self.find(name) {
            Some(i) => {
                proof {
                    lemma_map_found(self.entries@, i as int);
                    lemma_map_remove(self.entries@, i as int);
                    lemma_unique_remove(self.entries@, i as int);
                }
                let (_, v) = self.entries.remove(i);
                Some(v)
            },
            None => {
                proof {
                    lemma_map_absent(self.entries@, name@);
                    assert(old(self)@.remove(name@) =~= old(self)@);
                }
                None
            },
        }
    }

    /// Binds `name` to `value`, overwriting and handing back any previous
    /// binding of that name.
    pub fn set(&mut self, name: &String, value: V) -> (r: Option<V>)
        requires
            old(self).wf(),
        ensures
            final(self).wf(),
            final(self)@ == old(self)@.insert(name@, value@),
            match r {
                Some(prev) => old(self)@.dom().contains(name@) && prev@ == old(self)@[name@],
                None => !old(self)@.dom().contains(name@),
            },
    {
        let prev = self.remove(name);
        let ghost entries1 = self.entries@;
        let ghost mid = self@;
        // after the removal no entry carries this name
        proof {
            assert forall|j: int| 0 <= j < entries1.len() implies entries1[j].0@ != name@ by {
                if entries1[j].0@ == name@ {
                    lemma_map_found(entries1, j);
                }
            }
        }
        self.entries.push((name.clone(), value));
        proof {
            assert(self.entries@.drop_last() =~= entries1);
            assert(self.entries@.last().0@ == name@);
            assert(entries_map(self.entries@) == entries_map(entries1).insert(
                name@,
                self.entries@.last().1@,
            ));
            assert(mid.insert(name@, value@) =~= old(self)@.insert(name@, value@));
            assert(entries_unique(self.entries@)) by {
                assert(forall|j: int|
                    0 <= j < entries1.len() ==> self.entries@[j] == entries1[j]);
            }
        }
        prev
    }
}

} // verus!
