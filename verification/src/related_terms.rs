//! Keeping the record of which terms refer to which up to date when the
//! rules of a term were edited in its screen.
use vstd::prelude::*;
use crate::change_propagator::{
    apply_reference_edit_each, distinct, rule_body_names, strings_not_in, with_referrer_fn,
    without_referrer_fn, ReferenceEdit,
};
use crate::drag_and_drop;
use crate::model::{contains_string, strings_view, BoundTermView, Rule, RuleView};
use crate::terms_filter::{modify_each, Store, TermsFilter};

verus! {

/// The names of the terms a rule's body mentions, in order.
pub open spec fn body_names(r: RuleView) -> Seq<Seq<char>> {
    r.body.map_values(|bt: BoundTermView| bt.name)
}

/// The names mentioned by the rules that the edits pushed (`pushed`) or
/// removed (`!pushed`), in order, with repetitions.
pub open spec fn mentions_of_edits(cs: Seq<drag_and_drop::Change<Rule>>, pushed: bool) -> Seq<
    Seq<char>,
>
    decreases cs.len(),
{
    if cs.len() == 0 {
        Seq::empty()
    } else {
        mentions_of_edits(cs.drop_last(), pushed) + match cs.last() {
            drag_and_drop::Change::Pushed(r) => if pushed {
                body_names(r@)
            } else {
                Seq::empty()
            },
            drag_and_drop::Change::Removed(_, r) => if pushed {
                Seq::empty()
            } else {
                body_names(r@)
            },
            drag_and_drop::Change::Moved(_) => Seq::empty(),
        }
    }
}

/// The terms that the pushed rules mention, each once.
pub open spec fn newly_mentioned(cs: Seq<drag_and_drop::Change<Rule>>) -> Seq<Seq<char>> {
    distinct(mentions_of_edits(cs, true))
}

/// The terms that the removed rules mentioned and that no current rule
/// mentions, each once.
pub open spec fn no_longer_mentioned(rules: Seq<RuleView>, cs: Seq<drag_and_drop::Change<Rule>>) -> Seq<
    Seq<char>,
> {
    distinct(mentions_of_edits(cs, false)).filter(|n: Seq<char>| !rule_body_names(rules).contains(n))
}

/// The knowledge base after the rules of the term `name` were edited: the
/// newly mentioned terms record that `name` refers to them, then the terms
/// no longer mentioned forget it. Terms that are not stored are skipped.
pub open spec fn store_after_related_update(
    s: Store,
    name: Seq<char>,
    rules: Seq<RuleView>,
    cs: Seq<drag_and_drop::Change<Rule>>,
) -> Store {
    modify_each(
        modify_each(s, newly_mentioned(cs), with_referrer_fn(name)),
        no_longer_mentioned(rules, cs),
        without_referrer_fn(name),
    )
}

/// Appends the names that the rule's body mentions.
fn append_body_names(names: &mut Vec<String>, rule: &Rule)
    ensures
        strings_view(final(names)@) == strings_view(old(names)@) + body_names(rule@),
{
    let ghost prev = strings_view(names@);
    let ghost bn = body_names(rule@);
    let mut j: usize = 0;
    while j < rule.body.len()
        invariant
            j <= rule.body@.len(),
            bn == body_names(rule@),
            strings_view(names@) == prev + bn.take(j as int),
        decreases rule.body@.len() - j,
    {
        assert(rule.body@[j as int]@ == rule@.body[j as int]);
        assert(bn[j as int] == rule.body@[j as int].name@);
        assert(bn.take(j + 1) =~= bn.take(j as int).push(bn[j as int]));
        let ghost before = names@;
        let name = rule.body[j].name.clone();
        names.push(name);
        assert(strings_view(names@) =~= strings_view(before).push(name@));
        j = j + 1;
    }
    assert(bn.take(j as int) =~= bn);
}

/// The strings of `v`, each once, in the order of their first occurrence.
fn distinct_strings(v: &Vec<String>) -> (res: Vec<String>)
    ensures
        strings_view(res@) == distinct(strings_view(v@)),
{
    let ghost s = strings_view(v@);
    let mut res: Vec<String> = Vec::new();
    let mut i: usize = 0;
    while i < v.len()
        invariant
            i <= v@.len(),
            s == strings_view(v@),
            strings_view(res@) == distinct(s.take(i as int)),
        decreases v@.len() - i,
    {
        assert(s.take(i + 1).drop_last() =~= s.take(i as int));
        assert(s[i as int] == v@[i as int]@);
        if !contains_string(&res, &v[i]) {
            let ghost before = res@;
            res.push(v[i].clone());
            assert(strings_view(res@) =~= strings_view(before).push(s[i as int]));
        }
        i = i + 1;
    }
    assert(s.take(i as int) =~= s);
    res
}

/// Updates the record of which terms refer to the term `term_name` after
/// its rules were edited: `rules` are its rules now, `rules_changes` the
/// edits made to them. Each term that a pushed rule mentions records that
/// `term_name` refers to it; each term that a removed rule mentioned and no
/// current rule mentions forgets it.
pub fn update_related_terms(
    terms: &mut TermsFilter,
    term_name: &String,
    rules: &Vec<Rule>,
    rules_changes: &Vec<drag_and_drop::Change<Rule>>,
)
    requires
        old(terms).wf(),
    ensures
        final(terms).wf(),
        final(terms)@ == store_after_related_update(
            old(terms)@,
            term_name@,
            rules@.map_values(|r: Rule| r@),
            rules_changes@,
        ),
{
    let ghost rs = rules@.map_values(|r: Rule| r@);
    let mut related: Vec<String> = Vec::new();
    let mut i: usize = 0;
    while i < rules.len()
        invariant
            i <= rules@.len(),
            rs == rules@.map_values(|r: Rule| r@),
            strings_view(related@) == rule_body_names(rs.take(i as int)),
        decreases rules@.len() - i,
    {
        assert(rs.take(i + 1).drop_last() =~= rs.take(i as int));
        append_body_names(&mut related, &rules[i]);
        i = i + 1;
    }
    assert(rs.take(i as int) =~= rs);

    let ghost cs = rules_changes@;
    let mut pushed: Vec<String> = Vec::new();
    let mut removed: Vec<String> = Vec::new();
    let mut k: usize = 0;
    while k < rules_changes.len()
        invariant
            k <= rules_changes@.len(),
            cs == rules_changes@,
            strings_view(pushed@) == mentions_of_edits(cs.take(k as int), true),
            strings_view(removed@) == mentions_of_edits(cs.take(k as int), false),
        decreases rules_changes@.len() - k,
    {
        assert(cs.take(k + 1).drop_last() =~= cs.take(k as int));
        match &rules_changes[k] {
            drag_and_drop::Change::Pushed(r) => {
                append_body_names(&mut pushed, r);
                assert(strings_view(removed@) =~= mentions_of_edits(cs.take(k as int), false)
                    + Seq::<Seq<char>>::empty());
            },
            drag_and_drop::Change::Removed(_, r) => {
                append_body_names(&mut removed, r);
                assert(strings_view(pushed@) =~= mentions_of_edits(cs.take(k as int), true)
                    + Seq::<Seq<char>>::empty());
            },
            drag_and_drop::Change::Moved(_) => {
                assert(strings_view(pushed@) =~= mentions_of_edits(cs.take(k as int), true)
                    + Seq::<Seq<char>>::empty());
                assert(strings_view(removed@) =~= mentions_of_edits(cs.take(k as int), false)
                    + Seq::<Seq<char>>::empty());
            },
        }
        k = k + 1;
    }
    assert(cs.take(k as int) =~= cs);

    let pushed = distinct_strings(&pushed);
    let removed = strings_not_in(&distinct_strings(&removed), &related);
    apply_reference_edit_each(terms, &pushed, &ReferenceEdit::AddReferrer(term_name.clone()));
    apply_reference_edit_each(terms, &removed, &ReferenceEdit::RemoveReferrer(term_name.clone()));
}

} // verus!
