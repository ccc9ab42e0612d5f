//! The terms that a propagation of changes reads and writes, by name.
use vstd::prelude::*;
use crate::model::{FatTerm, FatTermView};

verus! {

/// The mathematical value of a [`TermsFilter`]: its entries, each a name and
/// the term stored under it.
pub type Store = Seq<(Seq<char>, FatTermView)>;

/// Whether no name is stored twice.
pub open spec fn unique_names(s: Store) -> bool {
    forall|i: int, j: int| 0 <= i < s.len() && 0 <= j < s.len() && i != j ==> #[trigger] s[i].0 != #[trigger] s[j].0
}

/// The term stored under `name`, if any.
pub open spec fn lookup(s: Store, name: Seq<char>) -> Option<FatTermView> {
    if exists|i: int| 0 <= i < s.len() && s[i].0 == name {
        Some(s[choose|i: int| 0 <= i < s.len() && s[i].0 == name].1)
    } else {
        None
    }
}

/// The store after the term under `name`, if there is one, was changed by `f`.
pub open spec fn modify_entry(s: Store, name: Seq<char>, f: spec_fn(FatTermView) -> FatTermView) -> Store {
    s.map_values(
        |e: (Seq<char>, FatTermView)|
            if e.0 == name {
                (e.0, f(e.1))
            } else {
                e
            },
    )
}

/// The store after the terms under each of the names, in order, were changed by `f`.
pub open spec fn modify_each(
    s: Store,
    names: Seq<Seq<char>>,
    f: spec_fn(FatTermView) -> FatTermView,
) -> Store
    decreases names.len(),
{
    if names.len() == 0 {
        s
    } else {
        modify_entry(modify_each(s, names.drop_last(), f), names.last(), f)
    }
}

/// Whether every term stored under `name` has the property `p`.
pub open spec fn entries_satisfy(s: Store, name: Seq<char>, p: spec_fn(FatTermView) -> bool) -> bool {
    forall|i: int| 0 <= i < s.len() && s[i].0 == name ==> #[trigger] p(s[i].1)
}

/// The store after `term` was put under `name`, replacing what was there.
pub open spec fn put_entry(s: Store, name: Seq<char>, term: FatTermView) -> Store {
    if exists|i: int| 0 <= i < s.len() && s[i].0 == name {
        modify_entry(s, name, |t: FatTermView| term)
    } else {
        s.push((name, term))
    }
}

/// The store after the term under `name`, if there is one, was removed.
pub open spec fn delete_entry(s: Store, name: Seq<char>) -> Store {
    if exists|i: int| 0 <= i < s.len() && s[i].0 == name {
        s.remove(choose|i: int| 0 <= i < s.len() && s[i].0 == name)
    } else {
        s
    }
}

/// The store after each entry was put in it, in order.
pub open spec fn put_each(s: Store, entries: Seq<(Seq<char>, FatTermView)>) -> Store
    decreases entries.len(),
{
    if entries.len() == 0 {
        s
    } else {
        let prev = put_each(s, entries.drop_last());
        put_entry(prev, entries.last().0, entries.last().1)
    }
}

/// Changing the entry at a known index of a store without repeated names is
/// changing the entry under its name.
pub proof fn lemma_modify_at(
    s: Store,
    i: int,
    f: spec_fn(FatTermView) -> FatTermView,
)
    requires
        unique_names(s),
        0 <= i < s.len(),
    ensures
        modify_entry(s, s[i].0, f) == s.update(i, (s[i].0, f(s[i].1))),
{
    assert(modify_entry(s, s[i].0, f) =~= s.update(i, (s[i].0, f(s[i].1))));
}

/// Changing the terms under the given names by `f` gives each of them a
/// property that `f` always gives, and keeps the names where they were.
pub proof fn lemma_modify_each_establishes(
    s: Store,
    names: Seq<Seq<char>>,
    f: spec_fn(FatTermView) -> FatTermView,
    p: spec_fn(FatTermView) -> bool,
)
    requires
        forall|t: FatTermView| #[trigger] p(f(t)),
    ensures
        modify_each(s, names, f).len() == s.len(),
        forall|i: int| 0 <= i < s.len() ==> #[trigger] modify_each(s, names, f)[i].0 == s[i].0,
        forall|i: int|
            0 <= i < s.len() && names.contains(#[trigger] modify_each(s, names, f)[i].0) ==> p(
                modify_each(s, names, f)[i].1,
            ),
    decreases names.len(),
{
    if names.len() > 0 {
        let prev = modify_each(s, names.drop_last(), f);
        lemma_modify_each_establishes(s, names.drop_last(), f, p);
        let now = modify_each(s, names, f);
        assert forall|i: int|
            0 <= i < s.len() && names.contains(#[trigger] now[i].0) implies p(now[i].1) by {
            if prev[i].0 == names.last() {
                assert(now[i] == (prev[i].0, f(prev[i].1)));
            } else {
                assert(now[i] == prev[i]);
                let k = choose|k: int| 0 <= k < names.len() && names[k] == now[i].0;
                assert(k != names.len() - 1);
                assert(names.drop_last()[k] == now[i].0);
            }
        }
    }
}

/// Changing the terms under the given names by `f` keeps a property that
/// `f` keeps.
pub proof fn lemma_modify_each_preserves(
    s: Store,
    names: Seq<Seq<char>>,
    f: spec_fn(FatTermView) -> FatTermView,
    p: spec_fn(FatTermView) -> bool,
)
    requires
        forall|t: FatTermView| p(t) ==> #[trigger] p(f(t)),
    ensures
        modify_each(s, names, f).len() == s.len(),
        forall|i: int| 0 <= i < s.len() ==> #[trigger] modify_each(s, names, f)[i].0 == s[i].0,
        forall|i: int| 0 <= i < s.len() && p(s[i].1) ==> p(#[trigger] modify_each(s, names, f)[i].1),
    decreases names.len(),
{
    if names.len() > 0 {
        let prev = modify_each(s, names.drop_last(), f);
        lemma_modify_each_preserves(s, names.drop_last(), f, p);
        let now = modify_each(s, names, f);
        assert forall|i: int| 0 <= i < s.len() && p(s[i].1) implies p(#[trigger] now[i].1) by {
            assert(p(prev[i].1));
            if prev[i].0 == names.last() {
                assert(now[i] == (prev[i].0, f(prev[i].1)));
            } else {
                assert(now[i] == prev[i]);
            }
        }
    }
}

/// Changing an entry under a name that is not stored changes nothing.
pub proof fn lemma_modify_absent(s: Store, name: Seq<char>, f: spec_fn(FatTermView) -> FatTermView)
    requires
        forall|i: int| 0 <= i < s.len() ==> s[i].0 != name,
    ensures
        modify_entry(s, name, f) == s,
{
    assert(modify_entry(s, name, f) =~= s);
}

/// Changing entries keeps the names, and so keeps them unique.
pub proof fn lemma_modify_keeps_names(s: Store, name: Seq<char>, f: spec_fn(FatTermView) -> FatTermView)
    ensures
        modify_entry(s, name, f).len() == s.len(),
        forall|i: int| 0 <= i < s.len() ==> #[trigger] modify_entry(s, name, f)[i].0 == s[i].0,
        unique_names(s) ==> unique_names(modify_entry(s, name, f)),
{
}

/// A read gives back what a write stored: after `term` is put under `name`,
/// looking `name` up gives `term`, looking up any other name gives what it
/// gave before, and no name is stored twice.
pub proof fn lemma_put_then_lookup(s: Store, name: Seq<char>, term: FatTermView, other: Seq<char>)
    requires
        unique_names(s),
        other != name,
    ensures
        unique_names(put_entry(s, name, term)),
        lookup(put_entry(s, name, term), name) == Some(term),
        lookup(put_entry(s, name, term), other) == lookup(s, other),
{
    let t = put_entry(s, name, term);
    let f = |x: FatTermView| term;
    if exists|i: int| 0 <= i < s.len() && s[i].0 == name {
        let i = choose|i: int| 0 <= i < s.len() && s[i].0 == name;
        lemma_modify_at(s, i, f);
        assert(t[i].0 == name);
        if exists|j: int| 0 <= j < t.len() && t[j].0 == other {
            let j = choose|j: int| 0 <= j < t.len() && t[j].0 == other;
            assert(s[j].0 == other);
        }
        if exists|j: int| 0 <= j < s.len() && s[j].0 == other {
            let j = choose|j: int| 0 <= j < s.len() && s[j].0 == other;
            assert(t[j].0 == other);
        }
    } else {
        assert(t[s.len() as int].0 == name);
        assert forall|i: int, j: int|
            0 <= i < t.len() && 0 <= j < t.len() && i != j implies #[trigger] t[i].0 != #[trigger] t[j].0 by {
            if i < s.len() && j < s.len() {
                assert(t[i] == s[i] && t[j] == s[j]);
            }
        }
        if exists|j: int| 0 <= j < t.len() && t[j].0 == other {
            let j = choose|j: int| 0 <= j < t.len() && t[j].0 == other;
            assert(s[j].0 == other);
        }
        if exists|j: int| 0 <= j < s.len() && s[j].0 == other {
            let j = choose|j: int| 0 <= j < s.len() && s[j].0 == other;
            assert(t[j].0 == other);
        }
    }
}

/// After the term under `name` is deleted, looking `name` up gives nothing,
/// looking up any other name gives what it gave before, and no name is
/// stored twice.
pub proof fn lemma_delete_then_lookup(s: Store, name: Seq<char>, other: Seq<char>)
    requires
        unique_names(s),
        other != name,
    ensures
        unique_names(delete_entry(s, name)),
        lookup(delete_entry(s, name), name) is None,
        lookup(delete_entry(s, name), other) == lookup(s, other),
{
    let t = delete_entry(s, name);
    if exists|i: int| 0 <= i < s.len() && s[i].0 == name {
        let i = choose|i: int| 0 <= i < s.len() && s[i].0 == name;
        assert(t == s.remove(i));
        assert forall|a: int, b: int|
            0 <= a < t.len() && 0 <= b < t.len() && a != b implies #[trigger] t[a].0 != #[trigger] t[b].0 by {
            let oa = if a < i { a } else { a + 1 };
            let ob = if b < i { b } else { b + 1 };
            assert(t[a] == s[oa] && t[b] == s[ob]);
        }
        assert forall|j: int| 0 <= j < t.len() implies t[j].0 != name by {
            let oj = if j < i { j } else { j + 1 };
            assert(t[j] == s[oj]);
        }
        if exists|j: int| 0 <= j < t.len() && t[j].0 == other {
            let j = choose|j: int| 0 <= j < t.len() && t[j].0 == other;
            let oj = if j < i { j } else { j + 1 };
            assert(t[j] == s[oj]);
            let k = choose|k: int| 0 <= k < s.len() && s[k].0 == other;
            assert(k == oj);
        }
        if exists|j: int| 0 <= j < s.len() && s[j].0 == other {
            let j = choose|j: int| 0 <= j < s.len() && s[j].0 == other;
            assert(j != i);
            let nj = if j < i { j } else { j - 1 };
            assert(t[nj] == s[j]);
        }
    }
}

/// Terms stored by name, each name at most once.
pub struct TermsFilter {
    entries: Vec<(String, FatTerm)>,
}

impl View for TermsFilter {
    type V = Store;

    closed spec fn view(&self) -> Store {
        self.entries@.map_values(|e: (String, FatTerm)| (e.0@, e.1@))
    }
}

impl TermsFilter {
    /// Validity: no name is stored twice.
    pub open spec fn wf(&self) -> bool {
        unique_names(self@)
    }

    /// A store holding `term` under its own name.
    pub fn new(term: &FatTerm) -> (res: Self)
        ensures
            res.wf(),
            res@ == seq![(term@.name, term@)],
    {
        let mut entries: Vec<(String, FatTerm)> = Vec::new();
        entries.push((term.meta.term.name.clone(), term.copy()));
        let res = Self { entries };
        assert(res@ =~= seq![(term@.name, term@)]);
        res
    }

    /// A store holding nothing.
    pub fn empty() -> (res: Self)
        ensures
            res.wf(),
            res@ == Seq::<(Seq<char>, FatTermView)>::empty(),
    {
        let res = Self { entries: Vec::new() };
        assert(res@ =~= Seq::<(Seq<char>, FatTermView)>::empty());
        res
    }

    /// Stores `term` under `name`, which is not stored yet.
    pub(crate) fn push_new(&mut self, name: String, term: FatTerm)
        requires
            old(self).wf(),
            forall|i: int| 0 <= i < old(self)@.len() ==> old(self)@[i].0 != name@,
        ensures
            final(self).wf(),
            final(self)@ == old(self)@.push((name@, term@)),
    {
        self.entries.push((name, term));
        assert(self@ =~= old(self)@.push((name@, term@)));
    }

    /// The number of stored terms.
    pub fn len(&self) -> (res: usize)
        ensures
            res == self@.len(),
    {
        self.entries.len()
    }

    /// The position of the entry under `name`, if there is one.
    pub(crate) fn find(&self, name: &String) -> (res: Option<usize>)
        ensures
            match res {
                Some(i) => i < self@.len() && self@[i as int].0 == name@,
                None => forall|i: int| 0 <= i < self@.len() ==> self@[i].0 != name@,
            },
    {
        let mut i: usize = 0;
        while i < self.entries.len()
            invariant
                i <= self.entries@.len(),
                forall|j: int| 0 <= j < i ==> self@[j].0 != name@,
            decreases self.entries@.len() - i,
        {
            if self.entries[i].0 == *name {
                return Some(i);
            }
            i = i + 1;
        }
        None
    }

    /// The term at a position found by [`TermsFilter::find`].
    pub(crate) fn entry(&self, i: usize) -> (res: &FatTerm)
        requires
            i < self@.len(),
        ensures
            res@ == self@[i as int].1,
    {
        &self.entries[i].1
    }

    /// The term at a position found by [`TermsFilter::find`], to be changed
    /// in place; its name stays.
    pub(crate) fn entry_mut(&mut self, i: usize) -> (res: &mut FatTerm)
        requires
            i < old(self)@.len(),
        ensures
            (*res)@ == old(self)@[i as int].1,
            final(self)@ == old(self)@.update(i as int, (old(self)@[i as int].0, (*final(res))@)),
    {
        &mut self.entries[i].1
    }

    /// The term stored under `name`, if any.
    pub fn get(&self, name: &String) -> (res: Option<&FatTerm>)
        requires
            self.wf(),
        ensures
            match res {
                Some(t) => lookup(self@, name@) == Some(t@),
                None => lookup(self@, name@) is None,
            },
    {
        match self.find(name) {
            Some(i) => {
                assert(lookup(self@, name@) == Some(self@[i as int].1));
                Some(&self.entries[i].1)
            },
            None => None,
        }
    }

    /// Stores a copy of `term` under `name`, replacing what was there.
    pub fn put(&mut self, name: &String, term: &FatTerm)
        requires
            old(self).wf(),
        ensures
            final(self).wf(),
            final(self)@ == put_entry(old(self)@, name@, term@),
    {
        match self.find(name) {
            Some(i) => {
                let ghost f = |t: FatTermView| term@;
                proof {
                    lemma_modify_at(self@, i as int, f);
                    lemma_modify_keeps_names(self@, name@, f);
                }
                let copy = term.copy();
                let entry = self.entry_mut(i);
                *entry = copy;
            },
            None => {
                self.entries.push((name.clone(), term.copy()));
                assert(self@ =~= old(self)@.push((name@, term@)));
            },
        }
    }

    /// Stores each of the terms under its name, in order, replacing what
    /// was there.
    pub fn put_all(&mut self, entries: &Vec<(String, FatTerm)>)
        requires
            old(self).wf(),
        ensures
            final(self).wf(),
            final(self)@ == put_each(
                old(self)@,
                entries@.map_values(|e: (String, FatTerm)| (e.0@, e.1@)),
            ),
    {
        let ghost es = entries@.map_values(|e: (String, FatTerm)| (e.0@, e.1@));
        let mut i: usize = 0;
        while i < entries.len()
            invariant
                i <= entries@.len(),
                es == entries@.map_values(|e: (String, FatTerm)| (e.0@, e.1@)),
                self.wf(),
                self@ == put_each(old(self)@, es.take(i as int)),
            decreases entries@.len() - i,
        {
            assert(es.take(i + 1).drop_last() =~= es.take(i as int));
            assert(es.take(i + 1).last() == (entries@[i as int].0@, entries@[i as int].1@));
            self.put(&entries[i].0, &entries[i].1);
            i = i + 1;
        }
        assert(es.take(i as int) =~= es);
    }

    /// Removes the term stored under `name`, if any.
    pub fn delete(&mut self, name: &String)
        requires
            old(self).wf(),
        ensures
            final(self).wf(),
            final(self)@ == delete_entry(old(self)@, name@),
    {
        proof {
            if name@ != Seq::<char>::empty() {
                lemma_delete_then_lookup(self@, name@, Seq::<char>::empty());
            } else {
                assert(seq!['a'].len() == 1);
                lemma_delete_then_lookup(self@, name@, seq!['a']);
            }
        }
        match self.find(name) {
            Some(i) => {
                let ghost chosen = choose|k: int| 0 <= k < self@.len() && self@[k].0 == name@;
                assert(chosen == i as int);
                let ghost before = self.entries@;
                self.entries.remove(i);
                assert(self@ =~= before.map_values(|e: (String, FatTerm)| (e.0@, e.1@)).remove(
                    i as int,
                ));
            },
            None => {},
        }
    }

    /// All the stored entries, each a name and the term under it.
    pub fn all_terms(self) -> (res: Vec<(String, FatTerm)>)
        ensures
            res@.map_values(|e: (String, FatTerm)| (e.0@, e.1@)) == self@,
    {
        self.entries
    }
}

} // verus!
