//! Finishing a change of several terms once every approval came: the
//! terms marked for deletion leave the knowledge base, the others are
//! stored in their most recent version and opened again in term tabs.
use vstd::prelude::*;
use crate::change_propagator::{changes_in_mentioned_terms, mentioned_terms};
use crate::model::{contains_string, strings_view, FatTerm, FatTermView};
use crate::points_in_time::latest_of;
use crate::tabs::{Tabs, TabsView};
use crate::term_screen::{viewing_view, TermScreen, TermScreenView};
use crate::terms_filter::{delete_entry, put_entry, Store, TermsFilter};

verus! {

/// The knowledge base after the screens of a finished change were written
/// to it in order: a term marked for deletion is deleted under its name,
/// any other is stored in its most recent version under that version's name.
pub open spec fn store_after_commit(s: Store, screens: Seq<TermScreenView>) -> Store
    decreases screens.len(),
{
    if screens.len() == 0 {
        s
    } else {
        let prev = store_after_commit(s, screens.drop_last());
        let screen = screens.last();
        if screen.in_deletion {
            delete_entry(prev, screen.pits.original.name)
        } else {
            put_entry(prev, latest_of(screen.pits).name, latest_of(screen.pits))
        }
    }
}

/// The screens opened again after a finished change: one showing the most
/// recent version of each term that is not deleted, in order.
pub open spec fn reopened(screens: Seq<TermScreenView>) -> Seq<TermScreenView>
    decreases screens.len(),
{
    if screens.len() == 0 {
        Seq::empty()
    } else {
        let prev = reopened(screens.drop_last());
        let screen = screens.last();
        if screen.in_deletion {
            prev
        } else {
            prev.push(viewing_view(latest_of(screen.pits)))
        }
    }
}

/// Writes the outcome of a finished change of several terms: for each of
/// its screens in order, a term marked for deletion is deleted from
/// `terms`; any other is stored in its most recent version and opened in a
/// new tab of `source_tabs`.
pub fn finish_commit(commit_screens: Vec<TermScreen>, source_tabs: &mut Tabs, terms: &mut TermsFilter)
    requires
        old(terms).wf(),
        old(source_tabs).wf(),
        forall|i: int| 0 <= i < commit_screens@.len() ==> #[trigger] commit_screens@[i].wf(),
    ensures
        final(terms).wf(),
        final(source_tabs).wf(),
        final(terms)@ == store_after_commit(
            old(terms)@,
            commit_screens@.map_values(|s: TermScreen| s@),
        ),
        final(source_tabs)@ == (TabsView {
            screens: old(source_tabs)@.screens + reopened(
                commit_screens@.map_values(|s: TermScreen| s@),
            ),
            ..old(source_tabs)@
        }),
{
    let ghost views = commit_screens@.map_values(|s: TermScreen| s@);
    let mut i: usize = 0;
    while i < commit_screens.len()
        invariant
            i <= commit_screens@.len(),
            views == commit_screens@.map_values(|s: TermScreen| s@),
            forall|k: int| 0 <= k < commit_screens@.len() ==> #[trigger] commit_screens@[k].wf(),
            terms.wf(),
            source_tabs.wf(),
            terms@ == store_after_commit(old(terms)@, views.take(i as int)),
            source_tabs@ == (TabsView {
                screens: old(source_tabs)@.screens + reopened(views.take(i as int)),
                ..old(source_tabs)@
            }),
        decreases commit_screens@.len() - i,
    {
        let screen = &commit_screens[i];
        assert(views.take(i + 1).drop_last() =~= views.take(i as int));
        assert(views.take(i + 1).last() == screen@);
        let ghost before = source_tabs@;
        if screen.in_deletion() {
            let name = screen.name();
            terms.delete(&name);
        } else {
            let latest = screen.extract_term();
            source_tabs.push(&latest);
            assert(source_tabs@.screens =~= before.screens.push(
                viewing_view(latest@),
            ));
            terms.put(&latest.meta.term.name, &latest);
        }
        i = i + 1;
        assert(source_tabs@.screens =~= old(source_tabs)@.screens + reopened(views.take(i as int)));
    }
    assert(views.take(i as int) =~= views);
}


/// Whether a change of a term concerns an ongoing change of several terms:
/// some term of that change (named in `commit_names`) is mentioned by the
/// updated term's rules and was not by the original's.
pub open spec fn concerns_commit(
    original: FatTermView,
    updated: FatTermView,
    commit_names: Seq<Seq<char>>,
) -> bool {
    exists|k: int|
        0 <= k < commit_names.len() && mentioned_terms(updated).contains(#[trigger] commit_names[k])
            && !mentioned_terms(original).contains(commit_names[k])
}

/// Whether the change of `original` into `updated` concerns the ongoing
/// change of several terms whose terms are named `commit_names`, so that
/// the ongoing change has to be repeated on `updated`.
pub fn concerns_ongoing_commit(original: &FatTerm, updated: &FatTerm, commit_names: &Vec<String>) -> (res:
    bool)
    ensures
        res == concerns_commit(original@, updated@, strings_view(commit_names@)),
{
    let (newly_mentioned, _) = changes_in_mentioned_terms(original, updated);
    let ghost pred = |n: Seq<char>| !mentioned_terms(original@).contains(n);
    let ghost newly = strings_view(newly_mentioned@);
    let ghost names = strings_view(commit_names@);
    let mut k: usize = 0;
    while k < commit_names.len()
        invariant
            k <= commit_names@.len(),
            names == strings_view(commit_names@),
            newly == strings_view(newly_mentioned@),
            newly == mentioned_terms(updated@).filter(pred),
            pred == (|n: Seq<char>| !mentioned_terms(original@).contains(n)),
            forall|j: int|
                0 <= j < k ==> !(mentioned_terms(updated@).contains(#[trigger] names[j])
                    && !mentioned_terms(original@).contains(names[j])),
        decreases commit_names@.len() - k,
    {
        assert(names[k as int] == commit_names@[k as int]@);
        if contains_string(&newly_mentioned, &commit_names[k]) {
            proof {
                mentioned_terms(updated@).lemma_filter_contains_rev(pred, names[k as int]);
            }
            return true;
        }
        proof {
            if mentioned_terms(updated@).contains(names[k as int]) && pred(names[k as int]) {
                let i = choose|i: int|
                    0 <= i < mentioned_terms(updated@).len() && mentioned_terms(updated@)[i]
                        == names[k as int];
                mentioned_terms(updated@).lemma_filter_contains(pred, i);
            }
        }
        k = k + 1;
    }
    false
}

} // verus!
