//! Propagation of the changes made to one term into a separate set of
//! updated terms: every related term is read from the knowledge base the
//! first time it is touched, and the result holds only the touched terms,
//! together with whether the user needs to confirm the propagation.
use vstd::prelude::*;
use crate::change_propagator::{
    apply_arg_changes, apply_reference_edit, arg_edits_apply, body_term_names, confirmation_needed,
    changes_in_mentioned_terms, mention_changes, renamed_mentions_fn, renamed_referrer_fn,
    rule_body_names, term_after_arg_edits, term_changes_need_confirmation, adds_or_removes,
    adds_or_removes_argument, some_edit_adds_or_removes, with_referrer_fn,
    without_mentions_fn, without_referrer_fn, ReferenceEdit,
};
use crate::drag_and_drop::{self, edits_of, ListEdit};
use crate::model::{strings_view, FatTerm, FatTermView, NameDescription};
use crate::term_screen::{term_changes_view, Change, TermChange, TermChangeView};
use crate::terms_filter::{
    entries_satisfy, lemma_modify_at, lemma_modify_keeps_names, lookup, modify_entry, unique_names,
    Store, TermsFilter,
};

verus! {

/// The updated terms after the term `name` was touched: it is read from the
/// knowledge base `src` unless it was touched before. `None` where `src`
/// does not hold it: it is read from there even when it was touched before.
pub open spec fn touched(u: Store, src: Store, name: Seq<char>) -> Option<Store> {
    match lookup(src, name) {
        None => None,
        Some(t) => if exists|i: int| 0 <= i < u.len() && u[i].0 == name {
            Some(u)
        } else {
            Some(u.push((name, t)))
        },
    }
}

/// The updated terms after the terms under each of the names, in order, were
/// touched and changed by `f`.
pub open spec fn overlay_modify_each(
    u: Store,
    src: Store,
    names: Seq<Seq<char>>,
    f: spec_fn(FatTermView) -> FatTermView,
) -> Option<Store>
    decreases names.len(),
{
    if names.len() == 0 {
        Some(u)
    } else {
        match overlay_modify_each(u, src, names.drop_last(), f) {
            Some(u1) => match touched(u1, src, names.last()) {
                Some(u2) => Some(modify_entry(u2, names.last(), f)),
                None => None,
            },
            None => None,
        }
    }
}

/// The updated terms after the referring terms, in order, were touched and
/// their mentions of `name` rebound by the edits of its arguments; `None`
/// where an edit does not apply.
pub open spec fn overlay_referrer_edits(
    u: Store,
    src: Store,
    referrers: Seq<Seq<char>>,
    name: Seq<char>,
    es: Seq<ListEdit>,
) -> Option<Store>
    decreases referrers.len(),
{
    if referrers.len() == 0 {
        Some(u)
    } else {
        match overlay_referrer_edits(u, src, referrers.drop_last(), name, es) {
            Some(u1) => match touched(u1, src, referrers.last()) {
                Some(u2) => if entries_satisfy(
                    u2,
                    referrers.last(),
                    |t: FatTermView| arg_edits_apply(t, name, es),
                ) {
                    Some(modify_entry(u2, referrers.last(), |t: FatTermView| term_after_arg_edits(t, name, es)))
                } else {
                    None
                },
                None => None,
            },
            None => None,
        }
    }
}

/// The updated terms with `t` under `name` unless something is there already.
pub open spec fn or_insert(u: Store, name: Seq<char>, t: FatTermView) -> Store {
    if exists|i: int| 0 <= i < u.len() && u[i].0 == name {
        u
    } else {
        u.push((name, t))
    }
}

/// The updated terms after one change made to the term `name` was
/// propagated: argument edits rebind the referring terms' mentions; rule
/// changes, compared with the term as the knowledge base holds it, update
/// the referrers recorded in the terms no longer and newly mentioned.
pub open spec fn batch_term_change(
    u: Store,
    src: Store,
    c: TermChangeView,
    name: Seq<char>,
    updated: FatTermView,
) -> Option<Store> {
    match c {
        TermChangeView::ArgChanges(es) => overlay_referrer_edits(u, src, updated.referred_by, name, es),
        TermChangeView::RuleChanges => match lookup(src, name) {
            None => None,
            Some(stored) => match overlay_modify_each(
                u,
                src,
                mention_changes(stored, updated).1,
                without_referrer_fn(name),
            ) {
                Some(u1) => overlay_modify_each(
                    u1,
                    src,
                    mention_changes(stored, updated).0,
                    with_referrer_fn(name),
                ),
                None => None,
            },
        },
        _ => Some(u),
    }
}

/// The updated terms after the changes made to the term `name`, in order.
pub open spec fn batch_term_changes(
    u: Store,
    src: Store,
    cs: Seq<TermChangeView>,
    name: Seq<char>,
    updated: FatTermView,
) -> Option<Store>
    decreases cs.len(),
{
    if cs.len() == 0 {
        Some(u)
    } else {
        match batch_term_changes(u, src, cs.drop_last(), name, updated) {
            Some(u1) => batch_term_change(u1, src, cs.last(), name, updated),
            None => None,
        }
    }
}

/// The updated terms after a renaming of the term `name` to `updated`'s
/// name: the updated term is put under the old name unless a term is there,
/// the terms it mentions record the new name among their referrers, and the
/// referring terms mention the new name.
pub open spec fn batch_rename(u: Store, src: Store, name: Seq<char>, updated: FatTermView) -> Option<
    Store,
> {
    if name != updated.name {
        match overlay_modify_each(
            or_insert(u, name, updated),
            src,
            rule_body_names(updated.rules),
            renamed_referrer_fn(name, updated.name),
        ) {
            Some(u1) => overlay_modify_each(
                u1,
                src,
                updated.referred_by,
                renamed_mentions_fn(name, updated.name),
            ),
            None => None,
        }
    } else {
        Some(u)
    }
}

/// Whether some rule of the term mentions `name`.
pub open spec fn mentions(t: FatTermView, name: Seq<char>) -> bool {
    exists|i: int, j: int|
        0 <= i < t.rules.len() && 0 <= j < t.rules[i].body.len() && #[trigger] t.rules[i].body[j].name == name
}

/// Whether some term stored under `key` mentions `name`.
pub open spec fn entries_mention(u: Store, key: Seq<char>, name: Seq<char>) -> bool {
    exists|i: int| 0 <= i < u.len() && u[i].0 == key && mentions(#[trigger] u[i].1, name)
}

/// The updated terms after the referring terms, in order, were touched and
/// their mentions of `name` dropped, and whether a mention was dropped.
pub open spec fn overlay_drop_mentions(
    u: Store,
    src: Store,
    referrers: Seq<Seq<char>>,
    name: Seq<char>,
) -> Option<(Store, bool)>
    decreases referrers.len(),
{
    if referrers.len() == 0 {
        Some((u, false))
    } else {
        match overlay_drop_mentions(u, src, referrers.drop_last(), name) {
            Some(p) => match touched(p.0, src, referrers.last()) {
                Some(u2) => Some(
                    (
                        modify_entry(u2, referrers.last(), without_mentions_fn(name)),
                        p.1 || entries_mention(u2, referrers.last(), name),
                    ),
                ),
                None => None,
            },
            None => None,
        }
    }
}

/// The terms updated by propagating the outcome of editing a term, read from
/// the knowledge base `src`, and whether the user needs to confirm.
///
/// For changes, each change is propagated, then a renaming, and the updated
/// term is put under its old name unless a term is there; confirmation is
/// needed when an argument was added or removed and some term refers to the
/// changed one. For a deletion, the deleted term is read from `src`, the
/// terms it mentions forget it, the referring terms drop their mentions of
/// it, and confirmation is needed when a mention was dropped. `None` where a
/// touched term is missing from `src` or an argument edit does not apply.
pub open spec fn batch_changes(src: Store, changes: Change) -> Option<(Store, bool)> {
    match changes {
        Change::Changes(cs, name, updated) => match batch_term_changes(
            Seq::empty(),
            src,
            term_changes_view(cs@),
            name@,
            updated@,
        ) {
            Some(u1) => match batch_rename(u1, src, name@, updated@) {
                Some(u2) => Some(
                    (
                        or_insert(u2, name@, updated@),
                        term_changes_need_confirmation(term_changes_view(cs@), updated@.referred_by),
                    ),
                ),
                None => None,
            },
            None => None,
        },
        Change::Deleted(name) => match lookup(src, name@) {
            None => None,
            Some(original) => match overlay_modify_each(
                Seq::empty(),
                src,
                rule_body_names(original.rules),
                without_referrer_fn(name@),
            ) {
                Some(u1) => overlay_drop_mentions(u1, src, original.referred_by, name@),
                None => None,
            },
        },
    }
}

/// Touching a name keeps the names unique and leaves a term stored under it.
fn touch(updated: &mut TermsFilter, src: &TermsFilter, name: &String) -> (res: usize)
    requires
        old(updated).wf(),
        src.wf(),
        touched(old(updated)@, src@, name@) is Some,
    ensures
        final(updated).wf(),
        Some(final(updated)@) == touched(old(updated)@, src@, name@),
        res < final(updated)@.len(),
        final(updated)@[res as int].0 == name@,
{
    let from_src = src.get(name).unwrap().copy();
    match updated.find(name) {
        Some(i) => i,
        None => {
            updated.push_new(name.clone(), from_src);
            updated.len() - 1
        },
    }
}

/// A fold of touches that goes through also goes through on every prefix.
pub proof fn lemma_overlay_modify_prefix(
    u: Store,
    src: Store,
    names: Seq<Seq<char>>,
    f: spec_fn(FatTermView) -> FatTermView,
    n: int,
)
    requires
        overlay_modify_each(u, src, names, f) is Some,
        0 <= n <= names.len(),
    ensures
        overlay_modify_each(u, src, names.take(n), f) is Some,
    decreases names.len(),
{
    if n == names.len() {
        assert(names.take(n) =~= names);
    } else {
        lemma_overlay_modify_prefix(u, src, names.drop_last(), f, n);
        assert(names.drop_last().take(n) =~= names.take(n));
    }
}

/// A fold of referrer edits that goes through also goes through on every prefix.
pub proof fn lemma_overlay_referrer_edits_prefix(
    u: Store,
    src: Store,
    referrers: Seq<Seq<char>>,
    name: Seq<char>,
    es: Seq<ListEdit>,
    n: int,
)
    requires
        overlay_referrer_edits(u, src, referrers, name, es) is Some,
        0 <= n <= referrers.len(),
    ensures
        overlay_referrer_edits(u, src, referrers.take(n), name, es) is Some,
    decreases referrers.len(),
{
    if n == referrers.len() {
        assert(referrers.take(n) =~= referrers);
    } else {
        lemma_overlay_referrer_edits_prefix(u, src, referrers.drop_last(), name, es, n);
        assert(referrers.drop_last().take(n) =~= referrers.take(n));
    }
}

/// A fold of term changes that goes through also goes through on every prefix.
pub proof fn lemma_batch_term_changes_prefix(
    u: Store,
    src: Store,
    cs: Seq<TermChangeView>,
    name: Seq<char>,
    updated: FatTermView,
    n: int,
)
    requires
        batch_term_changes(u, src, cs, name, updated) is Some,
        0 <= n <= cs.len(),
    ensures
        batch_term_changes(u, src, cs.take(n), name, updated) is Some,
    decreases cs.len(),
{
    if n == cs.len() {
        assert(cs.take(n) =~= cs);
    } else {
        lemma_batch_term_changes_prefix(u, src, cs.drop_last(), name, updated, n);
        assert(cs.drop_last().take(n) =~= cs.take(n));
    }
}

/// A fold of dropped mentions that goes through also goes through on every prefix.
pub proof fn lemma_overlay_drop_prefix(
    u: Store,
    src: Store,
    referrers: Seq<Seq<char>>,
    name: Seq<char>,
    n: int,
)
    requires
        overlay_drop_mentions(u, src, referrers, name) is Some,
        0 <= n <= referrers.len(),
    ensures
        overlay_drop_mentions(u, src, referrers.take(n), name) is Some,
    decreases referrers.len(),
{
    if n == referrers.len() {
        assert(referrers.take(n) =~= referrers);
    } else {
        lemma_overlay_drop_prefix(u, src, referrers.drop_last(), name, n);
        assert(referrers.drop_last().take(n) =~= referrers.take(n));
    }
}

/// Touches the terms under each of the names, in order, and applies a
/// change of references to each.
fn overlay_edit_each(
    updated: &mut TermsFilter,
    src: &TermsFilter,
    names: &Vec<String>,
    edit: &ReferenceEdit,
)
    requires
        old(updated).wf(),
        src.wf(),
        overlay_modify_each(old(updated)@, src@, strings_view(names@), edit.edit_fn()) is Some,
    ensures
        final(updated).wf(),
        Some(final(updated)@) == overlay_modify_each(
            old(updated)@,
            src@,
            strings_view(names@),
            edit.edit_fn(),
        ),
{
    let ghost ns = strings_view(names@);
    let ghost f = edit.edit_fn();
    assert(ns.take(0) =~= Seq::<Seq<char>>::empty());
    let mut k: usize = 0;
    while k < names.len()
        invariant
            k <= names@.len(),
            ns == strings_view(names@),
            f == edit.edit_fn(),
            updated.wf(),
            src.wf(),
            overlay_modify_each(old(updated)@, src@, ns, f) is Some,
            Some(updated@) == overlay_modify_each(old(updated)@, src@, ns.take(k as int), f),
        decreases names@.len() - k,
    {
        assert(ns.take(k + 1).drop_last() =~= ns.take(k as int));
        proof {
            lemma_overlay_modify_prefix(old(updated)@, src@, ns, f, k + 1);
        }
        let i = touch(updated, src, &names[k]);
        proof {
            lemma_modify_at(updated@, i as int, f);
            lemma_modify_keeps_names(updated@, ns[k as int], f);
        }
        apply_reference_edit(updated.entry_mut(i), edit);
        k = k + 1;
    }
    assert(ns.take(k as int) =~= ns);
}

/// Touches the referring terms, in order, and rebinds their mentions of
/// `name` after the edits of its arguments.
fn overlay_arg_edits(
    updated: &mut TermsFilter,
    src: &TermsFilter,
    referrers: &Vec<String>,
    name: &String,
    arg_changes: &Vec<drag_and_drop::Change<NameDescription>>,
)
    requires
        old(updated).wf(),
        src.wf(),
        overlay_referrer_edits(old(updated)@, src@, strings_view(referrers@), name@, edits_of(arg_changes@))
            is Some,
    ensures
        final(updated).wf(),
        Some(final(updated)@) == overlay_referrer_edits(
            old(updated)@,
            src@,
            strings_view(referrers@),
            name@,
            edits_of(arg_changes@),
        ),
{
    let ghost rs = strings_view(referrers@);
    let ghost es = edits_of(arg_changes@);
    assert(rs.take(0) =~= Seq::<Seq<char>>::empty());
    let mut k: usize = 0;
    while k < referrers.len()
        invariant
            k <= referrers@.len(),
            rs == strings_view(referrers@),
            es == edits_of(arg_changes@),
            updated.wf(),
            src.wf(),
            overlay_referrer_edits(old(updated)@, src@, rs, name@, es) is Some,
            Some(updated@) == overlay_referrer_edits(old(updated)@, src@, rs.take(k as int), name@, es),
        decreases referrers@.len() - k,
    {
        assert(rs.take(k + 1).drop_last() =~= rs.take(k as int));
        assert(rs.take(k + 1).last() == rs[k as int]);
        proof {
            lemma_overlay_referrer_edits_prefix(old(updated)@, src@, rs, name@, es, k + 1);
        }
        let i = touch(updated, src, &referrers[k]);
        let ghost f = |t: FatTermView| term_after_arg_edits(t, name@, es);
        let ghost p = |t: FatTermView| arg_edits_apply(t, name@, es);
        assert(entries_satisfy(updated@, rs[k as int], p));
        assert(p(updated@[i as int].1));
        proof {
            lemma_modify_at(updated@, i as int, f);
            lemma_modify_keeps_names(updated@, rs[k as int], f);
        }
        apply_arg_changes(updated.entry_mut(i), name, arg_changes);
        k = k + 1;
    }
    assert(rs.take(k as int) =~= rs);
}

/// Whether some rule of the term mentions `name`.
fn mentions_term(term: &FatTerm, name: &String) -> (res: bool)
    ensures
        res == mentions(term@, name@),
{
    let mut i: usize = 0;
    while i < term.term.rules.len()
        invariant
            i <= term.term.rules@.len(),
            forall|ii: int, j: int|
                0 <= ii < i && 0 <= j < term@.rules[ii].body.len() ==> #[trigger] term@.rules[ii].body[j].name
                    != name@,
        decreases term.term.rules@.len() - i,
    {
        let mut j: usize = 0;
        while j < term.term.rules[i].body.len()
            invariant
                i < term.term.rules@.len(),
                j <= term.term.rules@[i as int].body@.len(),
                forall|jj: int| 0 <= jj < j ==> #[trigger] term@.rules[i as int].body[jj].name != name@,
            decreases term.term.rules@[i as int].body@.len() - j,
        {
            assert(term@.rules[i as int].body[j as int] == term.term.rules@[i as int].body@[j as int]@);
            if term.term.rules[i].body[j].name == *name {
                assert(term@.rules[i as int].body[j as int].name == name@);
                return true;
            }
            j = j + 1;
        }
        assert forall|ii: int, j: int|
            0 <= ii < i + 1 && 0 <= j < term@.rules[ii].body.len() implies #[trigger] term@.rules[ii].body[j].name
            != name@ by {
            if ii == i {
                assert(term@.rules[i as int].body[j].name != name@);
            }
        }
        i = i + 1;
    }
    false
}

/// Touches the referring terms, in order, and drops their mentions of
/// `name`; tells whether a mention was dropped.
fn overlay_drop(
    updated: &mut TermsFilter,
    src: &TermsFilter,
    referrers: &Vec<String>,
    name: &String,
) -> (res: bool)
    requires
        old(updated).wf(),
        src.wf(),
        overlay_drop_mentions(old(updated)@, src@, strings_view(referrers@), name@) is Some,
    ensures
        final(updated).wf(),
        Some((final(updated)@, res)) == overlay_drop_mentions(
            old(updated)@,
            src@,
            strings_view(referrers@),
            name@,
        ),
{
    let ghost rs = strings_view(referrers@);
    let ghost f = without_mentions_fn(name@);
    let edit = ReferenceEdit::DropMentions(name.clone());
    assert(rs.take(0) =~= Seq::<Seq<char>>::empty());
    let mut dropped = false;
    let mut k: usize = 0;
    while k < referrers.len()
        invariant
            k <= referrers@.len(),
            rs == strings_view(referrers@),
            f == without_mentions_fn(name@),
            edit.edit_fn() == f,
            updated.wf(),
            src.wf(),
            overlay_drop_mentions(old(updated)@, src@, rs, name@) is Some,
            Some((updated@, dropped)) == overlay_drop_mentions(old(updated)@, src@, rs.take(k as int), name@),
        decreases referrers@.len() - k,
    {
        assert(rs.take(k + 1).drop_last() =~= rs.take(k as int));
        assert(rs.take(k + 1).last() == rs[k as int]);
        proof {
            lemma_overlay_drop_prefix(old(updated)@, src@, rs, name@, k + 1);
        }
        let i = touch(updated, src, &referrers[k]);
        let m = mentions_term(updated.entry(i), name);
        assert(m == entries_mention(updated@, rs[k as int], name@)) by {
            if entries_mention(updated@, rs[k as int], name@) {
                let j = choose|j: int|
                    0 <= j < updated@.len() && updated@[j].0 == rs[k as int] && mentions(#[trigger] updated@[j].1, name@);
                assert(j == i);
            }
        }
        dropped = dropped || m;
        proof {
            lemma_modify_at(updated@, i as int, f);
            lemma_modify_keeps_names(updated@, rs[k as int], f);
        }
        apply_reference_edit(updated.entry_mut(i), &edit);
        k = k + 1;
    }
    assert(rs.take(k as int) =~= rs);
    dropped
}

/// Puts `term` under `name` unless something is there already.
fn insert_if_absent(updated: &mut TermsFilter, name: &String, term: &FatTerm)
    requires
        old(updated).wf(),
    ensures
        final(updated).wf(),
        final(updated)@ == or_insert(old(updated)@, name@, term@),
{
    match updated.find(name) {
        Some(_) => {},
        None => {
            updated.push_new(name.clone(), term.copy());
        },
    }
}

/// Propagates one change made to the term `name` into the updated terms.
fn batch_term_change_exec(
    updated: &mut TermsFilter,
    terms: &TermsFilter,
    change: &TermChange,
    name: &String,
    updated_term: &FatTerm,
)
    requires
        old(updated).wf(),
        terms.wf(),
        batch_term_change(old(updated)@, terms@, change@, name@, updated_term@) is Some,
    ensures
        final(updated).wf(),
        Some(final(updated)@) == batch_term_change(old(updated)@, terms@, change@, name@, updated_term@),
{
    match change {
        TermChange::DescriptionChange | TermChange::FactsChange | TermChange::ArgRename => {},
        TermChange::ArgChanges(arg_changes) => {
            overlay_arg_edits(updated, terms, &updated_term.meta.referred_by, name, arg_changes);
        },
        TermChange::RuleChanges => {
            let stored = terms.get(name).unwrap();
            let (new, removed) = changes_in_mentioned_terms(stored, updated_term);
            overlay_edit_each(updated, terms, &removed, &ReferenceEdit::RemoveReferrer(name.clone()));
            overlay_edit_each(updated, terms, &new, &ReferenceEdit::AddReferrer(name.clone()));
        },
    }
}

/// Whether one of the edits adds or removes an argument.
fn adds_or_removes_any(arg_changes: &Vec<drag_and_drop::Change<NameDescription>>) -> (res: bool)
    ensures
        res == some_edit_adds_or_removes(edits_of(arg_changes@)),
{
    let ghost es = edits_of(arg_changes@);
    let mut a: usize = 0;
    while a < arg_changes.len()
        invariant
            a <= arg_changes@.len(),
            es == edits_of(arg_changes@),
            forall|j: int| 0 <= j < a ==> !adds_or_removes(#[trigger] es[j]),
        decreases arg_changes@.len() - a,
    {
        match &arg_changes[a] {
            drag_and_drop::Change::Pushed(_) | drag_and_drop::Change::Removed(_, _) => {
                assert(adds_or_removes(es[a as int]));
                return true;
            },
            drag_and_drop::Change::Moved(_) => {},
        }
        a = a + 1;
    }
    false
}

/// The batch propagation asks for the user's confirmation only when
/// [`crate::change_propagator::need_confirmation`] does, and for changes
/// (not deletions) exactly when it does.
pub proof fn lemma_batch_confirmation_agrees(src: Store, changes: Change)
    requires
        batch_changes(src, changes) is Some,
    ensures
        batch_changes(src, changes)->Some_0.1 ==> confirmation_needed(changes),
        changes is Changes ==> batch_changes(src, changes)->Some_0.1 == confirmation_needed(changes),
{
}

/// Propagates the outcome of editing a term into a set of updated terms,
/// reading each related term from the knowledge base `terms` the first time
/// it is touched; tells whether the user needs to confirm. For changes, each
/// change is propagated in turn, then a renaming, and the updated term is
/// kept under its old name unless a term is there. For a deletion, the
/// terms the deleted term mentions forget it and the terms referring to it
/// drop their mentions of it.
pub fn apply_changes(changes: &Change, terms: &TermsFilter) -> (res: (TermsFilter, bool))
    requires
        terms.wf(),
        batch_changes(terms@, *changes) is Some,
    ensures
        res.0.wf(),
        Some((res.0@, res.1)) == batch_changes(terms@, *changes),
{
    let mut updated_terms = TermsFilter::empty();
    let mut needs_confirmation = false;
    match changes {
        Change::Changes(term_changes, original_name, updated_term) => {
            let ghost u0 = updated_terms@;
            let ghost cs = term_changes_view(term_changes@);
            assert(cs.take(0) =~= Seq::<TermChangeView>::empty());
            let mut k: usize = 0;
            while k < term_changes.len()
                invariant
                    k <= term_changes@.len(),
                    cs == term_changes_view(term_changes@),
                    updated_terms.wf(),
                    terms.wf(),
                    batch_term_changes(u0, terms@, cs, original_name@, updated_term@) is Some,
                    Some(updated_terms@) == batch_term_changes(
                        u0,
                        terms@,
                        cs.take(k as int),
                        original_name@,
                        updated_term@,
                    ),
                    needs_confirmation == (updated_term@.referred_by.len() > 0 && exists|i: int|
                        0 <= i < k && adds_or_removes_argument(#[trigger] cs[i])),
                decreases term_changes@.len() - k,
            {
                assert(cs.take(k + 1).drop_last() =~= cs.take(k as int));
                assert(cs[k as int] == term_changes@[k as int]@);
                proof {
                    lemma_batch_term_changes_prefix(u0, terms@, cs, original_name@, updated_term@, k + 1);
                }
                batch_term_change_exec(
                    &mut updated_terms,
                    terms,
                    &term_changes[k],
                    original_name,
                    updated_term,
                );
                let ghost before = needs_confirmation;
                if let TermChange::ArgChanges(arg_changes) = &term_changes[k] {
                    if updated_term.meta.referred_by.len() > 0 {
                        // currently only a new or removed argument triggers user intervention -
                        // all other changes can be applied automatically
                        if adds_or_removes_any(arg_changes) {
                            needs_confirmation = true;
                        }
                    }
                }
                proof {
                    assert((exists|i: int| 0 <= i < k + 1 && adds_or_removes_argument(#[trigger] cs[i]))
                        == ((exists|i: int| 0 <= i < k && adds_or_removes_argument(#[trigger] cs[i]))
                        || adds_or_removes_argument(cs[k as int])));
                }
                k = k + 1;
            }
            assert(cs.take(k as int) =~= cs);
            // once all externally propagated changes are applied with the original name,
            // the potential name change is addressed
            if *original_name != updated_term.meta.term.name {
                insert_if_absent(&mut updated_terms, original_name, updated_term);
                let names = body_term_names(updated_term);
                overlay_edit_each(
                    &mut updated_terms,
                    terms,
                    &names,
                    &ReferenceEdit::RenameReferrer(original_name.clone(), updated_term.meta.term.name.clone()),
                );
                overlay_edit_each(
                    &mut updated_terms,
                    terms,
                    &updated_term.meta.referred_by,
                    &ReferenceEdit::RenameMentions(original_name.clone(), updated_term.meta.term.name.clone()),
                );
            }
            // any change also triggers the internal change
            insert_if_absent(&mut updated_terms, original_name, updated_term);
        },
        Change::Deleted(term_name) => {
            let original_term = terms.get(term_name).unwrap();
            let names = body_term_names(original_term);
            overlay_edit_each(
                &mut updated_terms,
                terms,
                &names,
                &ReferenceEdit::RemoveReferrer(term_name.clone()),
            );
            // A confirmation is needed only if actual removing was done. There is the case
            // when the user has already confirmed the deletion and this code path does not
            // remove anything.
            needs_confirmation = overlay_drop(
                &mut updated_terms,
                terms,
                &original_term.meta.referred_by,
                term_name,
            );
        },
    }
    (updated_terms, needs_confirmation)
}

} // verus!
