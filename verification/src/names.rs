//! Values kept under names, each name once.

use crate::text::same_text;
use vstd::prelude::*;

verus! {

/// Values under names, in the order in which the names came.
#[derive(Debug)]
pub struct NameMap<T> {
    pub entries: Vec<(String, T)>,
}

/// The index of the first entry with a name, from `i` on.
pub open spec fn name_index<T>(entries: Seq<(String, T)>, name: Seq<char>, i: int) -> Option<int>
    decreases entries.len() - i,
{
    if i < 0 || i >= entries.len() {
        None
    } else if entries[i].0@ == name {
        Some(i)
    } else {
        name_index(entries, name, i + 1)
    }
}

/// No name occurs twice.
pub open spec fn names_distinct<T>(entries: Seq<(String, T)>) -> bool {
    forall|i: int, j: int|
        0 <= i < entries.len() && 0 <= j < entries.len() && i != j
            ==> #[trigger] entries[i].0@ != #[trigger] entries[j].0@
}

/// The entries as a map.
pub open spec fn named_values<T: View>(entries: Seq<(String, T)>) -> Map<Seq<char>, T::V> {
    Map::new(
        |k: Seq<char>| name_index(entries, k, 0) is Some,
        |k: Seq<char>| entries[name_index(entries, k, 0)->0].1@,
    )
}

pub proof fn lemma_index_found<T>(entries: Seq<(String, T)>, name: Seq<char>, i: int)
    requires
        0 <= i,
    ensures
        match name_index(entries, name, i) {
            Some(j) => i <= j < entries.len() && entries[j].0@ == name,
            None => forall|j: int| i <= j < entries.len() ==> #[trigger] entries[j].0@ != name,
        },
    decreases entries.len() - i,
{
    if i < entries.len() && entries[i].0@ != name {
        lemma_index_found(entries, name, i + 1);
    }
}

pub proof fn lemma_index_unique<T>(entries: Seq<(String, T)>, name: Seq<char>, j: int)
    requires
        names_distinct(entries),
        0 <= j < entries.len(),
        entries[j].0@ == name,
    ensures
        name_index(entries, name, 0) == Some(j),
{
    lemma_index_found(entries, name, 0);
}

impl<T: View> View for NameMap<T> {
    type V = Map<Seq<char>, T::V>;

    open spec fn view(&self) -> Map<Seq<char>, T::V> {
        named_values(self.entries@)
    }
}

impl<T: View> NameMap<T> {
    /// No name occurs twice.
    pub open spec fn wf(&self) -> bool {
        names_distinct(self.entries@)
    }

    /// Nothing under any name.
    pub fn new() -> (r: Self)
        ensures
            r@ == Map::<Seq<char>, T::V>::empty(),
            r.wf(),
    {
        let r = NameMap { entries: Vec::new() };
        assert(r@ =~= Map::empty());
        r
    }

    fn find(&self, name: &str) -> (r: Option<usize>)
        ensures
            match r {
                Some(i) => name_index(self.entries@, name@, 0) == Some(i as int),
                None => name_index(self.entries@, name@, 0) is None,
            },
    {
        let mut i: usize = 0;
        while i < self.entries.len()
            invariant
                i <= self.entries.len(),
                name_index(self.entries@, name@, 0) == name_index(self.entries@, name@, i as int),
            decreases self.entries.len() - i,
        {
            if same_text(&self.entries[i].0, name) {
                return Some(i);
            }
            i += 1;
        }
        None
    }

    /// The value under a name.
    pub fn get(&self, name: &str) -> (r: Option<&T>)
        ensures
            match r {
                Some(v) => self@.contains_key(name@) && v@ == self@[name@],
                None => !self@.contains_key(name@),
            },
    {
        proof {
            lemma_index_found(self.entries@, name@, 0);
        }
        match self.find(name) {
            Some(i) => Some(&self.entries[i].1),
            None => None,
        }
    }

    /// Whether there is a value under a name.
    pub fn contains_key(&self, name: &str) -> (r: bool)
        ensures
            r == self@.contains_key(name@),
    {
        self.find(name).is_some()
    }

    /// Put a value under a name. A value that was there goes away.
    pub fn insert(&mut self, name: &str, value: T)
        requires
            old(self).wf(),
        ensures
            final(self)@ == old(self)@.insert(name@, value@),
            final(self).wf(),
    {
        let ghost before = self.entries@;
        proof {
            lemma_index_found(before, name@, 0);
        }
        let found = self.find(name);
        match found {
            Some(i) => {
                self.entries.set(i, (name.to_owned(), value));
            },
            None => {
                self.entries.push((name.to_owned(), value));
            },
        }
        proof {
            let after = self.entries@;
            assert(names_distinct(after));
            let old_map = named_values(before);
            let new_map = named_values(after);
            assert forall|k: Seq<char>| #[trigger] new_map.contains_key(k) == old_map.insert(
                name@,
                value@,
            ).contains_key(k) && (new_map.contains_key(k) ==> new_map[k] == old_map.insert(
                name@,
                value@,
            )[k]) by {
                lemma_index_found(before, k, 0);
                lemma_index_found(after, k, 0);
                match name_index(before, k, 0) {
                    Some(j) => {
                        assert(after[j].0@ == k);
                        lemma_index_unique(after, k, j);
                    },
                    None => {
                        if k == name@ {
                            assert(found is None);
                            lemma_index_unique(after, k, before.len() as int);
                        } else {
                            if name_index(after, k, 0) is Some {
                                let j = name_index(after, k, 0)->0;
                                assert(after[j].0@ == k);
                                assert(j < before.len());
                                assert(before[j].0@ == k);
                            }
                        }
                    },
                }
            }
            assert(new_map =~= old_map.insert(name@, value@));
        }
    }

    /// Take the value from under a name.
    pub fn remove(&mut self, name: &str) -> (r: Option<T>)
        requires
            old(self).wf(),
        ensures
            match r {
                Some(v) => old(self)@.contains_key(name@) && v@ == old(self)@[name@],
                None => !old(self)@.contains_key(name@),
            },
            final(self)@ == old(self)@.remove(name@),
            final(self).wf(),
    {
        let ghost before = self.entries@;
        proof {
            lemma_index_found(before, name@, 0);
        }
        match self.find(name) {
            Some(i) => {
                let (_, value) = self.entries.remove(i);
                proof {
                    let after = self.entries@;
                    assert(names_distinct(after));
                    let old_map = named_values(before);
                    let new_map = named_values(after);
                    assert forall|k: Seq<char>| #[trigger] new_map.contains_key(k)
                        == old_map.remove(name@).contains_key(k) && (new_map.contains_key(k)
                        ==> new_map[k] == old_map.remove(name@)[k]) by {
                        lemma_index_found(before, k, 0);
                        lemma_index_found(after, k, 0);
                        match name_index(after, k, 0) {
                            Some(j) => {
                                let jj = if j < i {
                                    j
                                } else {
                                    j + 1
                                };
                                assert(before[jj] == after[j]);
                                assert(jj != i);
                                assert(before[jj].0@ != before[i as int].0@);
                                lemma_index_unique(before, k, jj);
                            },
                            None => {
                                if k != name@ && name_index(before, k, 0) is Some {
                                    let jj = name_index(before, k, 0)->0;
                                    let j = if jj < i {
                                        jj
                                    } else {
                                        jj - 1
                                    };
                                    assert(after[j] == before[jj]);
                                }
                            },
                        }
                    }
                    assert(new_map =~= old_map.remove(name@));
                }
                Some(value)
            },
            None => {
                assert(self@ =~= old(self)@.remove(name@));
                None
            },
        }
    }

    /// The value under a name, to be changed in place.
    pub fn get_mut(&mut self, name: &str) -> (r: Option<&mut T>)
        requires
            old(self).wf(),
        ensures
            match r {
                Some(v) => {
                    &&& old(self)@.contains_key(name@)
                    &&& v@ == old(self)@[name@]
                    &&& final(self)@ == old(self)@.insert(name@, final(v)@)
                    &&& final(self).wf()
                },
                None => !old(self)@.contains_key(name@) && *final(self) == *old(self),
            },
    {
        let ghost before = self.entries@;
        proof {
            lemma_index_found(before, name@, 0);
        }
        match self.find(name) {
            Some(i) => {
                proof {
                    assert forall|v: T|
                        #![trigger before.update(i as int, (before[i as int].0, v))]
                        names_distinct(before.update(i as int, (before[i as int].0, v)))
                        && named_values(before.update(i as int, (before[i as int].0, v)))
                        == named_values(before).insert(name@, v@) by {
                        lemma_value_changed(before, i as int, v);
                    }
                }
                Some(&mut self.entries[i].1)
            },
            None => None,
        }
    }

    /// The number of names.
    pub fn len(&self) -> (r: usize)
        ensures
            r == 0 <==> self@ == Map::<Seq<char>, T::V>::empty(),
    {
        proof {
            if self.entries.len() == 0 {
                assert(self@ =~= Map::empty());
            } else {
                let k = self.entries@[0].0@;
                assert(name_index(self.entries@, k, 0) is Some);
                assert(self@.contains_key(k));
            }
        }
        self.entries.len()
    }
}

/// Changing the value of an entry changes the value under its name and no other.
pub proof fn lemma_value_changed<T: View>(entries: Seq<(String, T)>, i: int, v: T)
    requires
        names_distinct(entries),
        0 <= i < entries.len(),
    ensures
        names_distinct(entries.update(i, (entries[i].0, v))),
        named_values(entries.update(i, (entries[i].0, v))) == named_values(entries).insert(
            entries[i].0@,
            v@,
        ),
{
    let after = entries.update(i, (entries[i].0, v));
    let name = entries[i].0@;
    assert(names_distinct(after)) by {
        assert forall|a: int, b: int|
            0 <= a < after.len() && 0 <= b < after.len() && a != b implies
            #[trigger] after[a].0@ != #[trigger] after[b].0@ by {
            assert(entries[a].0@ != entries[b].0@);
        }
    }
    let old_map = named_values(entries);
    let new_map = named_values(after);
    assert forall|k: Seq<char>| #[trigger] new_map.contains_key(k) == old_map.insert(
        name,
        v@,
    ).contains_key(k) && (new_map.contains_key(k) ==> new_map[k] == old_map.insert(name, v@)[k]) by {
        lemma_index_found(entries, k, 0);
        lemma_index_found(after, k, 0);
        match name_index(entries, k, 0) {
            Some(j) => {
                assert(after[j].0@ == k);
                lemma_index_unique(after, k, j);
                if j == i {
                    assert(k == name);
                } else {
                    assert(entries[j].0@ != entries[i].0@);
                }
            },
            None => {
                if name_index(after, k, 0) is Some {
                    let j = name_index(after, k, 0)->0;
                    assert(after[j].0@ == k);
                    assert(entries[j].0@ == k);
                }
                assert(entries[i].0@ != k);
            },
        }
    }
    assert(new_map =~= old_map.insert(name, v@));
}

/// One more entry puts its value under its name.
pub proof fn lemma_one_more_entry<T: View>(entries: Seq<(String, T)>, i: int)
    requires
        names_distinct(entries),
        0 <= i < entries.len(),
    ensures
        names_distinct(entries.take(i)),
        !named_values(entries.take(i)).contains_key(entries[i].0@),
        named_values(entries.take(i + 1)) == named_values(entries.take(i)).insert(
            entries[i].0@,
            entries[i].1@,
        ),
{
    let few = entries.take(i);
    let more = entries.take(i + 1);
    let name = entries[i].0@;
    assert(names_distinct(few)) by {
        assert forall|a: int, b: int| 0 <= a < few.len() && 0 <= b < few.len() && a != b implies
            #[trigger] few[a].0@ != #[trigger] few[b].0@ by {
            assert(entries[a].0@ != entries[b].0@);
        }
    }
    assert(names_distinct(more)) by {
        assert forall|a: int, b: int|
            0 <= a < more.len() && 0 <= b < more.len() && a != b implies
            #[trigger] more[a].0@ != #[trigger] more[b].0@ by {
            assert(entries[a].0@ != entries[b].0@);
        }
    }
    lemma_index_found(few, name, 0);
    if name_index(few, name, 0) is Some {
        let j = name_index(few, name, 0)->0;
        assert(entries[j].0@ != entries[i].0@);
    }
    let m = named_values(few);
    let n = named_values(more);
    assert forall|k: Seq<char>| #[trigger] n.contains_key(k) == m.insert(
        name,
        entries[i].1@,
    ).contains_key(k) && (n.contains_key(k) ==> n[k] == m.insert(name, entries[i].1@)[k]) by {
        lemma_index_found(few, k, 0);
        lemma_index_found(more, k, 0);
        match name_index(more, k, 0) {
            Some(j) => {
                if j < i {
                    assert(few[j].0@ == k);
                    lemma_index_unique(few, k, j);
                    assert(entries[j].0@ != entries[i].0@);
                } else {
                    assert(k == name);
                }
            },
            None => {
                assert(more[i].0@ != k);
                if name_index(few, k, 0) is Some {
                    let j = name_index(few, k, 0)->0;
                    assert(more[j].0@ == k);
                }
            },
        }
    }
    assert(n =~= m.insert(name, entries[i].1@));
}

/// The entry at an index is in the map under its name, and every name of the map is
/// that of an entry.
pub proof fn lemma_entries<T: View>(entries: Seq<(String, T)>)
    requires
        names_distinct(entries),
    ensures
        forall|i: int|
            #![trigger entries[i]]
            0 <= i < entries.len() ==> named_values(entries).contains_key(entries[i].0@)
                && named_values(entries)[entries[i].0@] == entries[i].1@,
        forall|k: Seq<char>|
            #![trigger named_values(entries).contains_key(k)]
            named_values(entries).contains_key(k) ==> exists|i: int|
                0 <= i < entries.len() && (#[trigger] entries[i]).0@ == k,
{
    assert forall|i: int|
        #![trigger entries[i]]
        0 <= i < entries.len() implies named_values(entries).contains_key(entries[i].0@)
        && named_values(entries)[entries[i].0@] == entries[i].1@ by {
        lemma_index_unique(entries, entries[i].0@, i);
    }
    assert forall|k: Seq<char>|
        #![trigger named_values(entries).contains_key(k)]
        named_values(entries).contains_key(k) implies exists|i: int|
        0 <= i < entries.len() && (#[trigger] entries[i]).0@ == k by {
        lemma_index_found(entries, k, 0);
        let j = name_index(entries, k, 0)->0;
        assert(entries[j].0@ == k);
    }
}

} // verus!
