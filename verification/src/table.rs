//! Named things: variables, arrays and functions.

use vstd::prelude::*;

use crate::text;

verus! {

/// What the names stand for.
pub type Names<T> = Map<Seq<char>, T>;

/// Things by name.
pub struct Table<T> {
    entries: Vec<(String, T)>,
}

/// What a list of entries maps each name to; a later entry goes before an
/// earlier one.
pub open spec fn mapped<T: View>(entries: Seq<(String, T)>) -> Names<T::V>
    decreases entries.len(),
{
    if entries.len() == 0 {
        Map::empty()
    } else {
        mapped(entries.drop_last()).insert(entries.last().0@, entries.last().1@)
    }
}

/// The last entry of a name tells what it stands for.
proof fn lemma_mapped<T: View>(entries: Seq<(String, T)>, i: int)
    requires
        0 <= i < entries.len(),
        forall|j: int| i < j < entries.len() ==> #[trigger] entries[j].0@ != entries[i].0@,
    ensures
        mapped(entries).contains_key(entries[i].0@),
        mapped(entries)[entries[i].0@] == entries[i].1@,
    decreases entries.len(),
{
    if i < entries.len() - 1 {
        let rest = entries.drop_last();
        assert forall|j: int| i < j < rest.len() implies #[trigger] rest[j].0@ != rest[i].0@ by {
            assert(entries[j].0@ != entries[i].0@);
        }
        lemma_mapped(rest, i);
        assert(entries[entries.len() - 1].0@ != entries[i].0@);
    }
}

/// A name without an entry stands for nothing.
proof fn lemma_unmapped<T: View>(entries: Seq<(String, T)>, name: Seq<char>)
    requires
        forall|j: int| 0 <= j < entries.len() ==> #[trigger] entries[j].0@ != name,
    ensures
        !mapped(entries).contains_key(name),
    decreases entries.len(),
{
    if entries.len() > 0 {
        let rest = entries.drop_last();
        assert forall|j: int| 0 <= j < rest.len() implies #[trigger] rest[j].0@ != name by {
            assert(entries[j].0@ != name);
        }
        lemma_unmapped(rest, name);
        assert(entries[entries.len() - 1].0@ != name);
    }
}

/// Changing the last entry of a name changes what this name stands for.
proof fn lemma_remapped<T: View>(entries: Seq<(String, T)>, i: int, value: T)
    requires
        0 <= i < entries.len(),
        forall|j: int| i < j < entries.len() ==> #[trigger] entries[j].0@ != entries[i].0@,
    ensures
        mapped(entries.update(i, (entries[i].0, value))) == mapped(entries).insert(
            entries[i].0@,
            value@,
        ),
    decreases entries.len(),
{
    let after = entries.update(i, (entries[i].0, value));
    let rest = entries.drop_last();
    if i < entries.len() - 1 {
        assert forall|j: int| i < j < rest.len() implies #[trigger] rest[j].0@ != rest[i].0@ by {
            assert(entries[j].0@ != entries[i].0@);
        }
        lemma_remapped(rest, i, value);
        assert(after.drop_last() == rest.update(i, (rest[i].0, value)));
        assert(entries[entries.len() - 1].0@ != entries[i].0@);
    } else {
        assert(after.drop_last() == rest);
    }
    assert(mapped(after) == mapped(entries).insert(entries[i].0@, value@));
}

impl<T: View> View for Table<T> {
    type V = Names<T::V>;

    closed spec fn view(&self) -> Names<T::V> {
        mapped(self.entries@)
    }
}

impl<T: View> Table<T> {
    /// A table without names.
    pub fn new() -> (r: Self)
        ensures
            r@ == Map::<Seq<char>, T::V>::empty(),
    {
        Table { entries: Vec::new() }
    }

    /// Where the last entry of a name is.
    fn position(&self, name: &str) -> (r: Option<usize>)
        ensures
            match r {
                Some(i) => {
                    &&& i < self.entries@.len()
                    &&& self.entries@[i as int].0@ == name@
                    &&& forall|j: int|
                        i < j < self.entries@.len() ==> #[trigger] self.entries@[j].0@ != name@
                    &&& self@.contains_key(name@)
                    &&& self@[name@] == self.entries@[i as int].1@
                },
                None => !self@.contains_key(name@),
            },
    {
        let mut n = self.entries.len();
        while n > 0
            invariant
                n <= self.entries@.len(),
                forall|j: int|
                    n <= j < self.entries@.len() ==> #[trigger] self.entries@[j].0@ != name@,
            decreases n,
        {
            if text::same(self.entries[n - 1].0.as_str(), name) {
                proof {
                    lemma_mapped(self.entries@, n - 1);
                }
                return Some(n - 1);
            }
            n -= 1;
        }
        proof {
            lemma_unmapped(self.entries@, name@);
        }
        None
    }

    /// What a name stands for.
    pub fn get(&self, name: &str) -> (r: Option<&T>)
        ensures
            match r {
                Some(v) => self@.contains_key(name@) && self@[name@] == v@,
                None => !self@.contains_key(name@),
            },
    {
        match self.position(name) {
            Some(i) => Some(&self.entries[i].1),
            None => None,
        }
    }

    /// Let a name stand for `value`.
    pub fn insert(&mut self, name: String, value: T)
        ensures
            final(self)@ == old(self)@.insert(name@, value@),
    {
        match self.position(name.as_str()) {
            Some(i) => {
                let ghost before = self.entries@;
                self.entries.set(i, (name, value));
                proof {
                    lemma_remapped(before, i as int, value);
                    lemma_same_names(self.entries@, before.update(i as int, (before[i as int].0, value)));
                }
            },
            None => {
                let ghost before = self.entries@;
                self.entries.push((name, value));
                assert(self.entries@.drop_last() == before);
            },
        }
    }

    /// Forget all names.
    pub fn clear(&mut self)
        ensures
            final(self)@ == Map::<Seq<char>, T::V>::empty(),
    {
        self.entries.clear();
    }

    /// Whether there is no name.
    pub fn is_empty(&self) -> (r: bool)
        ensures
            r == (self@ == Map::<Seq<char>, T::V>::empty()),
    {
        proof {
            if self.entries@.len() > 0 {
                assert(self@.contains_key(self.entries@.last().0@));
            }
        }
        self.entries.len() == 0
    }
}

/// Entries with the same names and things map alike.
proof fn lemma_same_names<T: View>(a: Seq<(String, T)>, b: Seq<(String, T)>)
    requires
        a.len() == b.len(),
        forall|j: int|
            0 <= j < a.len() ==> (#[trigger] a[j]).0@ == b[j].0@ && a[j].1@ == b[j].1@,
    ensures
        mapped(a) == mapped(b),
    decreases a.len(),
{
    if a.len() > 0 {
        assert forall|j: int| 0 <= j < a.len() - 1 implies (#[trigger] a.drop_last()[j]).0@
            == b.drop_last()[j].0@ && a.drop_last()[j].1@ == b.drop_last()[j].1@ by {
            assert(a[j].0@ == b[j].0@);
        }
        lemma_same_names(a.drop_last(), b.drop_last());
        assert(a[a.len() - 1].0@ == b[b.len() - 1].0@);
    }
}

impl<T> Table<Vec<T>> {
    /// Change an element of the array that a name stands for.
    pub fn set_element(&mut self, name: &str, index: usize, value: T)
        requires
            old(self)@.contains_key(name@),
            index < old(self)@[name@].len(),
        ensures
            final(self)@ == old(self)@.insert(
                name@,
                old(self)@[name@].update(index as int, value),
            ),
    {
        match self.position(name) {
            Some(i) => {
                let ghost before = self.entries@;
                self.entries[i].1[index] = value;
                proof {
                    lemma_remapped(before, i as int, self.entries@[i as int].1);
                    assert(self.entries@ == before.update(
                        i as int,
                        (before[i as int].0, self.entries@[i as int].1),
                    ));
                }
            },
            None => {},
        }
    }
}

} // verus!
