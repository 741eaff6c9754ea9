//! Weights by name.

use vstd::prelude::*;

verus! {

/// A map after some entries were put into it, one after the other.
pub open spec fn overlay<T>(base: Map<Seq<char>, T>, entries: Seq<(String, T)>) -> Map<
    Seq<char>,
    T,
>
    decreases entries.len(),
{
    if entries.len() == 0 {
        base
    } else {
        overlay(base, entries.drop_last()).insert(entries.last().0@, entries.last().1)
    }
}

/// No two entries have the same name.
pub open spec fn distinct_names<T>(entries: Seq<(String, T)>) -> bool {
    forall|i: int, j: int|
        0 <= i < j < entries.len() ==> (#[trigger] entries[i]).0@ != (#[trigger] entries[j]).0@
}

/// A map from names to weights.
#[derive(Debug)]
pub struct WeightMap<T> {
    entries: Vec<(String, T)>,
}

impl<T> View for WeightMap<T> {
    type V = Map<Seq<char>, T>;

    closed spec fn view(&self) -> Map<Seq<char>, T> {
        overlay(Map::empty(), self.entries@)
    }
}

proof fn lemma_overlay_at<T>(base: Map<Seq<char>, T>, entries: Seq<(String, T)>, i: int)
    requires
        distinct_names(entries),
        0 <= i < entries.len(),
    ensures
        overlay(base, entries).dom().contains(entries[i].0@),
        overlay(base, entries)[entries[i].0@] == entries[i].1,
    decreases entries.len(),
{
    if i < entries.len() - 1 {
        lemma_overlay_at(base, entries.drop_last(), i);
    }
}

proof fn lemma_overlay_absent<T>(
    base: Map<Seq<char>, T>,
    entries: Seq<(String, T)>,
    name: Seq<char>,
)
    requires
        forall|i: int| 0 <= i < entries.len() ==> (#[trigger] entries[i]).0@ != name,
    ensures
        overlay(base, entries).dom().contains(name) == base.dom().contains(name),
        base.dom().contains(name) ==> overlay(base, entries)[name] == base[name],
    decreases entries.len(),
{
    if entries.len() > 0 {
        lemma_overlay_absent(base, entries.drop_last(), name);
    }
}

proof fn lemma_overlay_update<T>(
    base: Map<Seq<char>, T>,
    entries: Seq<(String, T)>,
    i: int,
    entry: (String, T),
)
    requires
        distinct_names(entries),
        0 <= i < entries.len(),
        entries[i].0@ == entry.0@,
    ensures
        overlay(base, entries.update(i, entry)) == overlay(base, entries).insert(
            entry.0@,
            entry.1,
        ),
    decreases entries.len(),
{
    let updated = entries.update(i, entry);
    let front = entries.drop_last();
    if i == entries.len() - 1 {
        assert(updated.drop_last() =~= front);
    } else {
        assert(updated.drop_last() =~= front.update(i, entry));
        lemma_overlay_update(base, front, i, entry);
    }
}

proof fn lemma_overlay_len<T>(entries: Seq<(String, T)>)
    requires
        distinct_names(entries),
    ensures
        overlay(Map::empty(), entries).dom().finite(),
        overlay(Map::<Seq<char>, T>::empty(), entries).dom().len() == entries.len(),
    decreases entries.len(),
{
    if entries.len() > 0 {
        let front = entries.drop_last();
        lemma_overlay_len(front);
        let name = entries.last().0@;
        lemma_overlay_absent(Map::<Seq<char>, T>::empty(), front, name);
        assert(overlay(Map::<Seq<char>, T>::empty(), entries).dom() =~= overlay(
            Map::<Seq<char>, T>::empty(),
            front,
        ).dom().insert(name));
    }
}

/// Putting entries into a map is laying the map of the entries over it.
pub proof fn lemma_overlay_union<T>(base: Map<Seq<char>, T>, entries: Seq<(String, T)>)
    ensures
        overlay(base, entries) == base.union_prefer_right(overlay(Map::empty(), entries)),
    decreases entries.len(),
{
    if entries.len() > 0 {
        lemma_overlay_union(base, entries.drop_last());
        assert(overlay(base, entries) =~= base.union_prefer_right(
            overlay(Map::empty(), entries),
        ));
    }
}

impl<T> WeightMap<T> {
    #[verifier::type_invariant]
    closed spec fn well_formed(self) -> bool {
        distinct_names(self.entries@)
    }

    /// Makes an empty map.
    pub fn new() -> (r: Self)
        ensures
            r@ == Map::<Seq<char>, T>::empty(),
    {
        WeightMap { entries: Vec::new() }
    }

    fn position(&self, name: &str) -> (r: Option<usize>)
        ensures
            match r {
                Some(i) => i < self.entries@.len() && self.entries@[i as int].0@ == name@,
                None => forall|i: int|
                    0 <= i < self.entries@.len() ==> (#[trigger] self.entries@[i]).0@ != name@,
            },
    {
        let key = name.to_owned();
        for i in 0..self.entries.len()
            invariant
                key@ == name@,
                forall|j: int| 0 <= j < i ==> (#[trigger] self.entries@[j]).0@ != name@,
        {
            if self.entries[i].0 == key {
                return Some(i);
            }
        }
        None
    }

    /// Puts a weight under a name, in place of any other.
    pub fn insert(&mut self, name: String, weight: T)
        ensures
            final(self)@ == old(self)@.insert(name@, weight),
    {
        proof {
            use_type_invariant(&*self);
        }
        let found = self.position(name.as_str());
        let mut entries: Vec<(String, T)> = Vec::new();
        std::mem::swap(&mut entries, &mut self.entries);
        let ghost before = entries@;
        let ghost entry = (name, weight);
        match found {
            Some(i) => {
                proof {
                    lemma_overlay_update(Map::empty(), before, i as int, entry);
                }
                entries.set(i, (name, weight));
            },
            None => {
                entries.push((name, weight));
                assert(entries@.drop_last() =~= before);
            },
        }
        self.entries = entries;
    }

    /// Puts entries into the map, in their order.
    pub fn extend(&mut self, entries: Vec<(String, T)>)
        ensures
            final(self)@ == overlay(old(self)@, entries@),
    {
        let ghost base = self@;
        let ghost all = entries@;
        for entry in it: entries
            invariant
                it.seq() == all,
                self@ == overlay(base, all.take(it.index() as int)),
        {
            proof {
                let i = it.index() as int;
                assert(all.take(i + 1).drop_last() =~= all.take(i));
            }
            self.insert(entry.0, entry.1);
        }
        assert(all.take(all.len() as int) =~= all);
    }

    /// Puts all weights of another map into this one, in place of any under
    /// the same names.
    pub fn absorb(&mut self, other: WeightMap<T>)
        ensures
            final(self)@ == old(self)@.union_prefer_right(other@),
    {
        let ghost base = self@;
        let entries = other.into_entries();
        proof {
            lemma_overlay_union(base, entries@);
        }
        self.extend(entries);
    }

    /// The weight under a name.
    pub fn get(&self, name: &str) -> (r: Option<&T>)
        ensures
            match r {
                Some(weight) => self@.dom().contains(name@) && *weight == self@[name@],
                None => !self@.dom().contains(name@),
            },
    {
        proof {
            use_type_invariant(self);
        }
        match self.position(name) {
            Some(i) => {
                proof {
                    lemma_overlay_at(Map::empty(), self.entries@, i as int);
                }
                Some(&self.entries[i].1)
            },
            None => {
                proof {
                    lemma_overlay_absent(Map::empty(), self.entries@, name@);
                }
                None
            },
        }
    }

    /// The number of weights.
    pub fn len(&self) -> (r: usize)
        ensures
            self@.dom().finite(),
            r == self@.dom().len(),
    {
        proof {
            use_type_invariant(self);
            lemma_overlay_len(self.entries@);
        }
        self.entries.len()
    }

    /// Hands out the weights with their names, each name once.
    pub fn into_entries(self) -> (r: Vec<(String, T)>)
        ensures
            distinct_names(r@),
            overlay(Map::empty(), r@) == self@,
            forall|i: int|
                0 <= i < r@.len() ==> self@.dom().contains((#[trigger] r@[i]).0@)
                    && self@[r@[i].0@] == r@[i].1,
            forall|n: Seq<char>| #[trigger]
                self@.dom().contains(n) ==> exists|i: int|
                    0 <= i < r@.len() && (#[trigger] r@[i]).0@ == n,
    {
        proof {
            use_type_invariant(&self);
            assert forall|i: int| 0 <= i < self.entries@.len() implies self@.dom().contains(
                (#[trigger] self.entries@[i]).0@,
            ) && self@[self.entries@[i].0@] == self.entries@[i].1 by {
                lemma_overlay_at(Map::empty(), self.entries@, i);
            }
            assert forall|n: Seq<char>| #[trigger] self@.dom().contains(n) implies exists|i: int|
                0 <= i < self.entries@.len() && (#[trigger] self.entries@[i]).0@ == n by {
                if forall|i: int|
                    0 <= i < self.entries@.len() ==> (#[trigger] self.entries@[i]).0@ != n {
                    lemma_overlay_absent(Map::empty(), self.entries@, n);
                }
            }
        }
        self.entries
    }
}

/// Of entries put into a map the last one of a name counts; a name without an
/// entry is as it was.
pub proof fn law_last_entry_counts<T>(
    base: Map<Seq<char>, T>,
    entries: Seq<(String, T)>,
    name: Seq<char>,
)
    ensures
        forall|i: int|
            0 <= i < entries.len() && (#[trigger] entries[i]).0@ == name && (forall|j: int|
                i < j < entries.len() ==> (#[trigger] entries[j]).0@ != name) ==> overlay(
                base,
                entries,
            ).dom().contains(name) && overlay(base, entries)[name] == entries[i].1,
        (forall|i: int| 0 <= i < entries.len() ==> (#[trigger] entries[i]).0@ != name) ==> {
            &&& overlay(base, entries).dom().contains(name) == base.dom().contains(name)
            &&& base.dom().contains(name) ==> overlay(base, entries)[name] == base[name]
        },
    decreases entries.len(),
{
    if entries.len() > 0 {
        let front = entries.drop_last();
        let last = entries.len() - 1;
        law_last_entry_counts(base, front, name);
        assert forall|i: int|
            0 <= i < entries.len() && (#[trigger] entries[i]).0@ == name && (forall|j: int|
                i < j < entries.len() ==> (#[trigger] entries[j]).0@ != name) implies overlay(
            base,
            entries,
        ).dom().contains(name) && overlay(base, entries)[name] == entries[i].1 by {
            if i < last {
                assert(entries[last].0@ != name);
                assert(front[i].0@ == name);
                assert forall|j: int| i < j < front.len() implies (#[trigger] front[j]).0@
                    != name by {
                    assert(entries[j].0@ != name);
                }
            }
        }
        if forall|i: int| 0 <= i < entries.len() ==> (#[trigger] entries[i]).0@ != name {
            lemma_overlay_absent(base, entries, name);
        }
    }
}

/// No two entries have the same name exactly where each differs from all that
/// come after it.
pub proof fn law_distinct_names<T>(entries: Seq<(String, T)>, i: int, j: int)
    requires
        distinct_names(entries),
        0 <= i < j < entries.len(),
    ensures
        entries[i].0@ != entries[j].0@,
{
}

} // verus!
