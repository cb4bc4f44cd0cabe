//! The variable store: a mapping from variable names to double bit patterns.
//!
//! The store is a sequence of entries with pairwise distinct names, viewed as
//! a `Map` from character sequences to bit patterns. It is owned by one
//! calculator session; nothing here is shared or global.

use vstd::prelude::*;

use crate::strutil::{lemma_lex_total, lemma_lex_trans, lex_le, str_eq, str_le};

verus! {

/// A mapping from variable names to the bit patterns of their values.
#[derive(Debug)]
pub struct VarStore {
    entries: Vec<(String, u64)>,
}

/// The map denoted by a sequence of name-value entries; a later entry with
/// the same name wins.
pub open spec fn entries_map(s: Seq<(String, u64)>) -> Map<Seq<char>, u64>
    decreases s.len(),
{
    if s.len() == 0 {
        Map::empty()
    } else {
        entries_map(s.drop_last()).insert(s.last().0@, s.last().1)
    }
}

impl View for VarStore {
    type V = Map<Seq<char>, u64>;

    closed spec fn view(&self) -> Map<Seq<char>, u64> {
        entries_map(self.entries@)
    }
}

/// Whether the entries carry pairwise distinct names.
pub open spec fn entries_unique(s: Seq<(String, u64)>) -> bool {
    forall|i: int, j: int| 0 <= i < j < s.len() ==> s[i].0@ != s[j].0@
}

proof fn lemma_entries_map_membership(s: Seq<(String, u64)>, k: Seq<char>)
    ensures
        entries_map(s).contains_key(k) <==> (exists|i: int| 0 <= i < s.len() && s[i].0@ == k),
    decreases s.len(),
{
    if s.len() > 0 {
        lemma_entries_map_membership(s.drop_last(), k);
        if s.last().0@ == k {
            assert(s[s.len() - 1].0@ == k);
        } else if entries_map(s).contains_key(k) {
            let i = choose|i: int| 0 <= i < s.drop_last().len() && s.drop_last()[i].0@ == k;
            assert(s[i].0@ == k);
        } else {
            assert forall|i: int| 0 <= i < s.len() implies s[i].0@ != k by {
                if i < s.len() - 1 {
                    assert(s.drop_last()[i].0@ == s[i].0@);
                }
            }
        }
    }
}

proof fn lemma_entries_map_value(s: Seq<(String, u64)>, i: int)
    requires
        entries_unique(s),
        0 <= i < s.len(),
    ensures
        entries_map(s).contains_key(s[i].0@),
        entries_map(s)[s[i].0@] == s[i].1,
    decreases s.len(),
{
    lemma_entries_map_membership(s, s[i].0@);
    if s.len() > 0 && i < s.len() - 1 {
        assert(s.drop_last()[i] == s[i]);
        assert(entries_unique(s.drop_last())) by {
            assert(forall|x: int, y: int|
                0 <= x < y < s.drop_last().len() ==> s.drop_last()[x].0@ == s[x].0@
                    && s.drop_last()[y].0@ == s[y].0@);
        }
        lemma_entries_map_value(s.drop_last(), i);
        assert(s.last().0@ != s[i].0@);
    }
}

impl VarStore {
    /// Whether the entries carry pairwise distinct names.
    pub closed spec fn wf(&self) -> bool {
        entries_unique(self.entries@)
    }

    /// Creates an empty store.
    pub fn new() -> (r: VarStore)
        ensures
            r.wf(),
            r@ == Map::<Seq<char>, u64>::empty(),
    {
        VarStore { entries: Vec::new() }
    }

    /// The position of the entry holding `name`, if any.
    fn position_of(&self, name: &str) -> (r: Option<usize>)
        ensures
            match r {
                Some(i) => i < self.entries@.len() && self.entries@[i as int].0@ == name@,
                None => forall|i: int|
                    0 <= i < self.entries@.len() ==> self.entries@[i].0@ != name@,
            },
    {
        let mut i: usize = 0;
        while i < self.entries.len()
            invariant
                i <= self.entries@.len(),
                forall|j: int| 0 <= j < i ==> self.entries@[j].0@ != name@,
            decreases self.entries@.len() - i,
        {
            if str_eq(self.entries[i].0.as_str(), name) {
                return Some(i);
            }
            i = i + 1;
        }
        None
    }

    /// The value bound to `name`, if any.
    pub fn get(&self, name: &str) -> (r: Option<u64>)
        requires
            self.wf(),
        ensures
            r == if self@.contains_key(name@) {
                Some(self@[name@])
            } else {
                None::<u64>
            },
    {
        proof {
            lemma_entries_map_membership(self.entries@, name@);
        }
        match self.position_of(name) {
            Some(i) => {
                proof {
                    lemma_entries_map_value(self.entries@, i as int);
                }
                Some(self.entries[i].1)
            },
            None => None,
        }
    }

    /// Binds `name` to `value`, replacing any earlier binding.
    pub fn set(&mut self, name: &str, value: u64)
        requires
            old(self).wf(),
        ensures
            final(self).wf(),
            final(self)@ == old(self)@.insert(name@, value),
    {
        match self.position_of(name) {
            Some(i) => {
                let ghost before = self.entries@;
                self.entries.set(i, (String::from_str(name), value));
                proof {
                    lemma_entries_map_update(before, self.entries@, i as int, name@, value);
                }
            },
            None => {
                let ghost before = self.entries@;
                self.entries.push((String::from_str(name), value));
                proof {
                    assert(self.entries@.drop_last() =~= before);
                }
            },
        }
    }

    /// Removes the binding of `name`; returns whether one existed.
    pub fn remove(&mut self, name: &str) -> (r: bool)
        requires
            old(self).wf(),
        ensures
            final(self).wf(),
            final(self)@ == old(self)@.remove(name@),
            r == old(self)@.contains_key(name@),
    {
        proof {
            lemma_entries_map_membership(self.entries@, name@);
        }
        match self.position_of(name) {
            Some(i) => {
                let ghost before = self.entries@;
                self.entries.remove(i);
                proof {
                    lemma_entries_map_removed(before, self.entries@, i as int, name@);
                }
                true
            },
            None => {
                proof {
                    lemma_entries_map_absent(self.entries@, name@);
                }
                false
            },
        }
    }

    /// Removes every binding.
    pub fn clear(&mut self)
        ensures
            final(self).wf(),
            final(self)@ == Map::<Seq<char>, u64>::empty(),
    {
        self.entries.clear();
    }

    /// The number of bindings.
    pub fn len(&self) -> (r: usize)
        requires
            self.wf(),
        ensures
            r == self@.dom().len(),
    {
        proof {
            lemma_entries_map_size(self.entries@);
        }
        self.entries.len()
    }

    /// The entries of the store, in their internal order.
    pub fn entries_vec(&self) -> (r: Vec<(String, u64)>)
        requires
            self.wf(),
        ensures
            entries_unique(r@),
            forall|i: int|
                #![trigger r@[i]]
                0 <= i < r@.len() ==> self@.contains_key(r@[i].0@) && self@[r@[i].0@] == r@[i].1,
            forall|k: Seq<char>|
                self@.contains_key(k) ==> exists|i: int| 0 <= i < r@.len() && r@[i].0@ == k,
    {
        let mut r: Vec<(String, u64)> = Vec::new();
        let mut i: usize = 0;
        while i < self.entries.len()
            invariant
                i <= self.entries@.len(),
                r@.len() == i,
                forall|j: int|
                    0 <= j < i ==> r@[j].0@ == self.entries@[j].0@ && r@[j].1
                        == self.entries@[j].1,
            decreases self.entries@.len() - i,
        {
            let name = self.entries[i].0.clone();
            let value = self.entries[i].1;
            r.push((name, value));
            i = i + 1;
        }
        proof {
            assert(entries_unique(r@));
            assert forall|j: int|
                #![trigger r@[j]]
                0 <= j < r@.len() implies self@.contains_key(r@[j].0@) && self@[r@[j].0@]
                == r@[j].1 by {
                lemma_entries_map_value(self.entries@, j);
            }
            assert forall|k: Seq<char>| self@.contains_key(k) implies exists|i: int|
                0 <= i < r@.len() && r@[i].0@ == k by {
                lemma_entries_map_membership(self.entries@, k);
                let i = choose|i: int| 0 <= i < self.entries@.len() && self.entries@[i].0@ == k;
                assert(r@[i].0@ == k);
            }
        }
        r
    }
}

proof fn lemma_entries_map_update(
    before: Seq<(String, u64)>,
    after: Seq<(String, u64)>,
    i: int,
    k: Seq<char>,
    v: u64,
)
    requires
        entries_unique(before),
        0 <= i < before.len(),
        before[i].0@ == k,
        after.len() == before.len(),
        after[i].0@ == k,
        after[i].1 == v,
        forall|j: int| 0 <= j < before.len() && j != i ==> after[j] == before[j],
    ensures
        entries_unique(after),
        entries_map(after) == entries_map(before).insert(k, v),
    decreases before.len(),
{
    assert(entries_unique(after)) by {
        assert(forall|x: int| 0 <= x < after.len() ==> after[x].0@ == before[x].0@);
    }
    if i == before.len() - 1 {
        assert(after.drop_last() =~= before.drop_last());
        assert(entries_map(after) =~= entries_map(before).insert(k, v));
    } else {
        assert(entries_unique(before.drop_last())) by {
            assert(forall|x: int|
                0 <= x < before.drop_last().len() ==> before.drop_last()[x].0@ == before[x].0@);
        }
        assert(before.drop_last()[i] == before[i]);
        assert(after.drop_last()[i] == after[i]);
        assert(forall|j: int|
            0 <= j < before.drop_last().len() && j != i ==> after.drop_last()[j]
                == before.drop_last()[j]);
        lemma_entries_map_update(before.drop_last(), after.drop_last(), i, k, v);
        assert(after.last() == before.last());
        assert(before.last().0@ != k);
        assert(entries_map(after) =~= entries_map(before).insert(k, v));
    }
}

proof fn lemma_entries_map_absent(s: Seq<(String, u64)>, k: Seq<char>)
    requires
        forall|i: int| 0 <= i < s.len() ==> s[i].0@ != k,
    ensures
        entries_map(s) == entries_map(s).remove(k),
        !entries_map(s).contains_key(k),
    decreases s.len(),
{
    lemma_entries_map_membership(s, k);
    assert(entries_map(s) =~= entries_map(s).remove(k));
}

proof fn lemma_entries_map_removed(
    before: Seq<(String, u64)>,
    after: Seq<(String, u64)>,
    i: int,
    k: Seq<char>,
)
    requires
        entries_unique(before),
        0 <= i < before.len(),
        before[i].0@ == k,
        after =~= before.subrange(0, i) + before.subrange(i + 1, before.len() as int),
    ensures
        entries_unique(after),
        entries_map(after) == entries_map(before).remove(k),
    decreases before.len(),
{
    assert(forall|x: int| 0 <= x < i ==> after[x] == before[x]);
    assert(forall|x: int| i <= x < after.len() ==> after[x] == before[x + 1]);
    assert(entries_unique(after));
    if i == before.len() - 1 {
        assert(after =~= before.drop_last());
        lemma_entries_map_absent(after, k);
        assert(entries_map(before) == entries_map(after).insert(k, before[i].1));
        assert(entries_map(before).remove(k) =~= entries_map(after));
    } else {
        assert(after.len() == before.len() - 1);
        assert(after.drop_last() =~= before.drop_last().subrange(0, i) + before.drop_last()
            .subrange(i + 1, before.drop_last().len() as int));
        assert(entries_unique(before.drop_last())) by {
            assert(forall|x: int|
                0 <= x < before.drop_last().len() ==> before.drop_last()[x].0@ == before[x].0@);
        }
        assert(before.drop_last()[i] == before[i]);
        lemma_entries_map_removed(before.drop_last(), after.drop_last(), i, k);
        assert(after.last() == before.last());
        assert(before.last().0@ != k);
        assert(entries_map(after) =~= entries_map(before).remove(k));
    }
}

proof fn lemma_entries_map_size(s: Seq<(String, u64)>)
    requires
        entries_unique(s),
    ensures
        entries_map(s).dom().finite(),
        entries_map(s).dom().len() == s.len(),
    decreases s.len(),
{
    if s.len() > 0 {
        assert(entries_unique(s.drop_last())) by {
            assert(forall|x: int|
                0 <= x < s.drop_last().len() ==> s.drop_last()[x].0@ == s[x].0@);
        }
        lemma_entries_map_size(s.drop_last());
        lemma_entries_map_membership(s.drop_last(), s.last().0@);
        assert(forall|i: int| 0 <= i < s.drop_last().len() ==> s.drop_last()[i].0@ == s[i].0@);
        assert(!entries_map(s.drop_last()).contains_key(s.last().0@));
    }
}


/// Sorts name-value entries by name, lexicographically, keeping exactly the
/// same entries.
pub fn sort_entries_by_name(input: Vec<(String, u64)>) -> (r: Vec<(String, u64)>)
    ensures
        r@.to_multiset() == input@.to_multiset(),
        forall|x: int, y: int| 0 <= x < y < r@.len() ==> lex_le(r@[x].0@, r@[y].0@),
{
    broadcast use vstd::seq_lib::group_seq_properties;

    let mut r: Vec<(String, u64)> = Vec::new();
    let mut i: usize = 0;
    proof {
        assert(input@.subrange(0, 0) =~= Seq::<(String, u64)>::empty());
        assert(r@.to_multiset() =~= input@.subrange(0, 0).to_multiset());
    }
    while i < input.len()
        invariant
            i <= input@.len(),
            r@.len() == i,
            r@.to_multiset() == input@.subrange(0, i as int).to_multiset(),
            forall|x: int, y: int| 0 <= x < y < r@.len() ==> lex_le(r@[x].0@, r@[y].0@),
        decreases input@.len() - i,
    {
        let e = (input[i].0.clone(), input[i].1);
        proof {
            assert(e == input@[i as int]);
        }
        let mut pos: usize = 0;
        while pos < r.len() && str_le(r[pos].0.as_str(), e.0.as_str())
            invariant
                pos <= r@.len(),
                forall|x: int| 0 <= x < pos ==> lex_le(r@[x].0@, e.0@),
            decreases r@.len() - pos,
        {
            pos = pos + 1;
        }
        let ghost r_pre = r@;
        proof {
            if (pos as int) < r_pre.len() {
                lemma_lex_total(r_pre[pos as int].0@, e.0@);
                assert(lex_le(e.0@, r_pre[pos as int].0@));
            }
            assert forall|y: int| pos <= y < r_pre.len() implies lex_le(e.0@, r_pre[y].0@) by {
                if y != pos as int {
                    lemma_lex_trans(e.0@, r_pre[pos as int].0@, r_pre[y].0@);
                }
            }
        }
        r.insert(pos, e);
        proof {
            assert(r@ == r_pre.insert(pos as int, e));
            assert(r@.to_multiset() =~= r_pre.to_multiset().insert(e)) by {
                vstd::seq_lib::to_multiset_insert(r_pre, pos as int, e);
            }
            assert(input@.subrange(0, i + 1) =~= input@.subrange(0, i as int).push(
                input@[i as int],
            ));
            assert(input@.subrange(0, i + 1).to_multiset() =~= input@.subrange(
                0,
                i as int,
            ).to_multiset().insert(e)) by {
                input@.subrange(0, i as int).to_multiset_ensures();
            }
            assert forall|x: int, y: int| 0 <= x < y < r@.len() implies lex_le(
                r@[x].0@,
                r@[y].0@,
            ) by {
                if y == pos as int {
                } else if x == pos as int {
                } else if y < pos as int {
                } else if x < pos as int {
                } else {
                }
            }
        }
        i = i + 1;
    }
    proof {
        assert(input@.subrange(0, input@.len() as int) =~= input@);
    }
    r
}

} // verus!

