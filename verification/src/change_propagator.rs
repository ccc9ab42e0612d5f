//! Propagation of the changes made to one term to the terms related to it:
//! the terms that mention it in their rules, and the terms it mentions.
use vstd::prelude::*;
use crate::change_tracking_list::{
    identity_order, lemma_single_move_records_origins, moved_items, order_after_move, replay,
    replays_to, ChangeTrackingView, ChangeView,
};
use crate::drag_and_drop::{self, edits_of, ListEdit};
use crate::terms_filter::{
    entries_satisfy, lemma_modify_absent, lemma_modify_at, lemma_modify_each_establishes,
    lemma_modify_each_preserves, lemma_modify_keeps_names, modify_each,
    modify_entry, put_entry, unique_names, Store, TermsFilter,
};
use crate::term_screen::{term_changes_view, Change, TermChange, TermChangeView};
use crate::model::{
    contains_string, copy_strings, lemma_filter_take_step, strings_view, without_referrer, with_referrer,
    renamed_referrer, ArgsBinding, BoundTerm, BoundTermView, FatTerm, FatTermView, NameDescription,
    Rule, RuleView,
};

verus! {

/// The value bound to an argument whose position was just created, or whose
/// value was removed.
pub open spec fn unbound() -> Seq<char> {
    "_"@
}

/// Whether the edit can be applied to a binding: a reordering names only
/// existing positions and no more than there are, a removal names an
/// existing position.
pub open spec fn edit_applies(e: ListEdit, b: Seq<Seq<char>>) -> bool {
    match e {
        ListEdit::Pushed => true,
        ListEdit::Moved(order) => order.len() <= b.len() && forall|k: int|
            0 <= k < order.len() ==> #[trigger] order[k] < b.len(),
        ListEdit::Removed(idx) => idx < b.len(),
    }
}

/// A binding after an edit of its term's arguments: a pushed argument is
/// bound to `_`; after a reordering, position `i` holds the value that stood
/// at `order[i]` (positions past the reordering become empty); a removed
/// argument's value is dropped.
pub open spec fn binding_after_edit(e: ListEdit, b: Seq<Seq<char>>) -> Seq<Seq<char>> {
    match e {
        ListEdit::Pushed => b.push(unbound()),
        ListEdit::Moved(order) => Seq::new(
            b.len(),
            |i: int|
                if i < order.len() {
                    b[order[i] as int]
                } else {
                    Seq::<char>::empty()
                },
        ),
        ListEdit::Removed(idx) => b.remove(idx as int),
    }
}

/// A binding after a sequence of edits, applied in order.
pub open spec fn bindings_after_edits(es: Seq<ListEdit>, b: Seq<Seq<char>>) -> Seq<Seq<char>>
    decreases es.len(),
{
    if es.len() == 0 {
        b
    } else {
        binding_after_edit(es.last(), bindings_after_edits(es.drop_last(), b))
    }
}

/// Whether each edit of the sequence can be applied where it comes.
pub open spec fn edits_apply(es: Seq<ListEdit>, b: Seq<Seq<char>>) -> bool
    decreases es.len(),
{
    es.len() == 0 || (edits_apply(es.drop_last(), b) && edit_applies(
        es.last(),
        bindings_after_edits(es.drop_last(), b),
    ))
}

/// The edits of a prefix are applied one more at a time.
pub proof fn lemma_edits_take_step(es: Seq<ListEdit>, b: Seq<Seq<char>>, k: int)
    requires
        0 <= k < es.len(),
    ensures
        bindings_after_edits(es.take(k + 1), b) == binding_after_edit(
            es[k],
            bindings_after_edits(es.take(k), b),
        ),
        edits_apply(es.take(k + 1), b) == (edits_apply(es.take(k), b) && edit_applies(
            es[k],
            bindings_after_edits(es.take(k), b),
        )),
{
    assert(es.take(k + 1).drop_last() =~= es.take(k));
}

/// Edits that apply as a whole apply on every prefix.
pub proof fn lemma_edits_apply_prefix(es: Seq<ListEdit>, b: Seq<Seq<char>>, n: int)
    requires
        edits_apply(es, b),
        0 <= n <= es.len(),
    ensures
        edits_apply(es.take(n), b),
    decreases es.len(),
{
    if n == es.len() {
        assert(es.take(n) =~= es);
    } else {
        lemma_edits_apply_prefix(es.drop_last(), b, n);
        assert(es.drop_last().take(n) =~= es.take(n));
    }
}

/// Applies one edit of a term's arguments to a binding of that term, and
/// hands back the value of a removed argument.
pub fn apply_binding_change(
    change: &drag_and_drop::Change<NameDescription>,
    binding: &mut ArgsBinding,
) -> (res: Option<String>)
    requires
        edit_applies(change.edit(), old(binding)@),
    ensures
        final(binding)@ == binding_after_edit(change.edit(), old(binding)@),
        res is Some <==> change.edit() is Removed,
        res matches Some(r) ==> r@ == old(binding)@[change.edit()->Removed_0 as int],
{
    match change {
        drag_and_drop::Change::Pushed(_) => {
            binding.binding.push("_".to_owned());
            assert(binding@ =~= binding_after_edit(change.edit(), old(binding)@));
        },
        drag_and_drop::Change::Moved(moves) => {
            let ghost b = old(binding)@;
            let len = binding.binding.len();
            let mut projected: Vec<String> = Vec::new();
            let mut k: usize = 0;
            while k < len
                invariant
                    k <= len,
                    projected@.len() == k,
                    forall|j: int| 0 <= j < k ==> (#[trigger] projected@[j])@ == Seq::<char>::empty(),
                decreases len - k,
            {
                projected.push(String::new());
                k = k + 1;
            }
            let mut idx: usize = 0;
            while idx < moves.len()
                invariant
                    binding@ == b,
                    len == b.len(),
                    edit_applies(ListEdit::Moved(moves@), b),
                    idx <= moves@.len(),
                    projected@.len() == len,
                    forall|j: int|
                        0 <= j < len ==> (#[trigger] projected@[j])@ == if j < idx {
                            b[moves@[j] as int]
                        } else {
                            Seq::<char>::empty()
                        },
                decreases moves@.len() - idx,
            {
                let old_idx = moves[idx];
                assert(binding.binding@[old_idx as int]@ == b[old_idx as int]);
                projected[idx] = binding.binding[old_idx].clone();
                idx = idx + 1;
            }
            binding.binding = projected;
            assert(binding@ =~= binding_after_edit(change.edit(), b));
        },
        drag_and_drop::Change::Removed(removed_idx, _) => {
            let removed = binding.binding.remove(*removed_idx);
            assert(binding@ =~= binding_after_edit(change.edit(), old(binding)@));
            return Some(removed);
        },
    }
    None
}

/// A mention after one edit of the arguments of the term `target`: only
/// mentions of that term change.
pub open spec fn mention_after_edit(bt: BoundTermView, target: Seq<char>, e: ListEdit) -> BoundTermView {
    if bt.name == target {
        BoundTermView { name: bt.name, args: binding_after_edit(e, bt.args) }
    } else {
        bt
    }
}

/// A mention after a sequence of edits of the arguments of the term `target`.
pub open spec fn mention_after_edits(
    bt: BoundTermView,
    target: Seq<char>,
    es: Seq<ListEdit>,
) -> BoundTermView {
    if bt.name == target {
        BoundTermView { name: bt.name, args: bindings_after_edits(es, bt.args) }
    } else {
        bt
    }
}

/// A rule after edits of the arguments of the term `target`: its mentions
/// of `target` are rebound.
pub open spec fn rule_after_mention_edits(r: RuleView, target: Seq<char>, es: Seq<ListEdit>) -> RuleView {
    RuleView {
        head: r.head,
        body: r.body.map_values(|bt: BoundTermView| mention_after_edits(bt, target, es)),
    }
}

/// A term after edits of the arguments of the term `target`: every mention
/// of `target` in its rules is rebound.
pub open spec fn term_after_arg_edits(t: FatTermView, target: Seq<char>, es: Seq<ListEdit>) -> FatTermView {
    FatTermView {
        rules: t.rules.map_values(|r: RuleView| rule_after_mention_edits(r, target, es)),
        ..t
    }
}

/// Whether the edits apply to every mention of `target` in the term's rules.
pub open spec fn arg_edits_apply(t: FatTermView, target: Seq<char>, es: Seq<ListEdit>) -> bool {
    forall|i: int, j: int|
        0 <= i < t.rules.len() && 0 <= j < t.rules[i].body.len() && #[trigger] t.rules[i].body[j].name
            == target ==> edits_apply(es, t.rules[i].body[j].args)
}

/// Rebinds, in one rule, the mentions of `target` after one edit of its arguments.
fn apply_edit_to_rule_mentions(
    rule: &mut Rule,
    target: &String,
    change: &drag_and_drop::Change<NameDescription>,
)
    requires
        forall|j: int|
            0 <= j < old(rule).body@.len() && (#[trigger] old(rule).body@[j]).name@ == target@
                ==> edit_applies(change.edit(), old(rule).body@[j]@.args),
    ensures
        final(rule).arg_bindings == old(rule).arg_bindings,
        final(rule).body@.len() == old(rule).body@.len(),
        forall|j: int|
            0 <= j < old(rule).body@.len() ==> (#[trigger] final(rule).body@[j])@
                == mention_after_edit(old(rule).body@[j]@, target@, change.edit()),
{
    let mut j: usize = 0;
    while j < rule.body.len()
        invariant
            j <= rule.body@.len(),
            rule.arg_bindings == old(rule).arg_bindings,
            rule.body@.len() == old(rule).body@.len(),
            forall|jj: int|
                0 <= jj < j ==> (#[trigger] rule.body@[jj])@ == mention_after_edit(
                    old(rule).body@[jj]@,
                    target@,
                    change.edit(),
                ),
            forall|jj: int| j <= jj < rule.body@.len() ==> #[trigger] rule.body@[jj] == old(rule).body@[jj],
            forall|jj: int|
                0 <= jj < old(rule).body@.len() && (#[trigger] old(rule).body@[jj]).name@ == target@
                    ==> edit_applies(change.edit(), old(rule).body@[jj]@.args),
        decreases rule.body@.len() - j,
    {
        if rule.body[j].name == *target {
            apply_binding_change(change, &mut rule.body[j].arg_bindings);
        }
        j = j + 1;
    }
}

/// Rebinds, in every rule of a term, the mentions of `target` after one edit
/// of its arguments.
fn apply_edit_to_term_mentions(
    term: &mut FatTerm,
    target: &String,
    change: &drag_and_drop::Change<NameDescription>,
)
    requires
        forall|i: int, j: int|
            0 <= i < old(term)@.rules.len() && 0 <= j < old(term)@.rules[i].body.len()
                && #[trigger] old(term)@.rules[i].body[j].name == target@ ==> edit_applies(
                change.edit(),
                old(term)@.rules[i].body[j].args,
            ),
    ensures
        final(term)@ == (FatTermView {
            rules: old(term)@.rules.map_values(
                |r: RuleView|
                    RuleView {
                        head: r.head,
                        body: r.body.map_values(
                            |bt: BoundTermView| mention_after_edit(bt, target@, change.edit()),
                        ),
                    },
            ),
            ..old(term)@
        }),
{
    let ghost e = change.edit();
    let ghost step = |r: RuleView|
        RuleView {
            head: r.head,
            body: r.body.map_values(|bt: BoundTermView| mention_after_edit(bt, target@, e)),
        };
    let mut i: usize = 0;
    while i < term.term.rules.len()
        invariant
            i <= term.term.rules@.len(),
            e == change.edit(),
            step == (|r: RuleView|
                RuleView {
                    head: r.head,
                    body: r.body.map_values(|bt: BoundTermView| mention_after_edit(bt, target@, e)),
                }),
            term.meta == old(term).meta,
            term.term.facts == old(term).term.facts,
            term.term.rules@.len() == old(term).term.rules@.len(),
            forall|ii: int| 0 <= ii < i ==> (#[trigger] term.term.rules@[ii])@ == step(old(term).term.rules@[ii]@),
            forall|ii: int| i <= ii < term.term.rules@.len() ==> #[trigger] term.term.rules@[ii] == old(term).term.rules@[ii],
            forall|ii: int, j: int|
                0 <= ii < old(term)@.rules.len() && 0 <= j < old(term)@.rules[ii].body.len()
                    && #[trigger] old(term)@.rules[ii].body[j].name == target@ ==> edit_applies(
                    e,
                    old(term)@.rules[ii].body[j].args,
                ),
        decreases term.term.rules@.len() - i,
    {
        let ghost r = term.term.rules@[i as int];
        assert forall|j: int|
            0 <= j < r.body@.len() && (#[trigger] r.body@[j]).name@ == target@ implies edit_applies(
            e,
            r.body@[j]@.args,
        ) by {
            assert(r == old(term).term.rules@[i as int]);
            assert(old(term)@.rules[i as int].body[j] == r.body@[j]@);
            assert(old(term)@.rules[i as int].body[j].name == target@);
        }
        apply_edit_to_rule_mentions(&mut term.term.rules[i], target, change);
        assert((term.term.rules@[i as int])@.body =~= step(r@).body);
        i = i + 1;
    }
    assert(term@.rules =~= old(term)@.rules.map_values(step));
}

/// Rebinds the mentions of the term `term_with_arg_change` in the rules of
/// `term` after the given edits of that term's arguments, in order.
pub fn apply_arg_changes(
    term: &mut FatTerm,
    term_with_arg_change: &String,
    changes: &Vec<drag_and_drop::Change<NameDescription>>,
)
    requires
        arg_edits_apply(old(term)@, term_with_arg_change@, edits_of(changes@)),
    ensures
        final(term)@ == term_after_arg_edits(old(term)@, term_with_arg_change@, edits_of(changes@)),
{
    let ghost es = edits_of(changes@);
    let ghost target = term_with_arg_change@;
    let ghost t0 = term@;
    assert(term_after_arg_edits(t0, target, es.take(0)) =~= t0) by {
        assert forall|i: int| 0 <= i < t0.rules.len() implies #[trigger] term_after_arg_edits(
            t0,
            target,
            es.take(0),
        ).rules[i] == t0.rules[i] by {
            assert(t0.rules[i].body.map_values(
                |bt: BoundTermView| mention_after_edits(bt, target, es.take(0)),
            ) =~= t0.rules[i].body);
        }
        assert(term_after_arg_edits(t0, target, es.take(0)).rules =~= t0.rules);
    }
    let mut k: usize = 0;
    while k < changes.len()
        invariant
            k <= changes@.len(),
            es == edits_of(changes@),
            target == term_with_arg_change@,
            arg_edits_apply(t0, target, es),
            term@ == term_after_arg_edits(t0, target, es.take(k as int)),
        decreases changes@.len() - k,
    {
        let ghost cur = term@;
        assert forall|i: int, j: int|
            0 <= i < cur.rules.len() && 0 <= j < cur.rules[i].body.len()
                && #[trigger] cur.rules[i].body[j].name == target implies edit_applies(
            changes@[k as int].edit(),
            cur.rules[i].body[j].args,
        ) by {
            let b = t0.rules[i].body[j].args;
            assert(cur.rules[i].body[j] == mention_after_edits(t0.rules[i].body[j], target, es.take(k as int)));
            lemma_edits_apply_prefix(es, b, k + 1);
            lemma_edits_take_step(es, b, k as int);
        }
        apply_edit_to_term_mentions(term, term_with_arg_change, &changes[k]);
        assert forall|i: int| 0 <= i < t0.rules.len() implies #[trigger] term@.rules[i]
            == rule_after_mention_edits(t0.rules[i], target, es.take(k + 1)) by {
            assert forall|j: int| 0 <= j < t0.rules[i].body.len() implies #[trigger] term@.rules[i].body[j]
                == mention_after_edits(t0.rules[i].body[j], target, es.take(k + 1)) by {
                lemma_edits_take_step(es, t0.rules[i].body[j].args, k as int);
            }
            assert(term@.rules[i].body =~= rule_after_mention_edits(t0.rules[i], target, es.take(k + 1)).body);
        }
        assert(term@.rules =~= term_after_arg_edits(t0, target, es.take(k + 1)).rules);
        k = k + 1;
    }
    assert(es.take(k as int) =~= es);
}

/// A binding in which every value equal to `v` is replaced by `_`.
pub open spec fn unbind_value(b: Seq<Seq<char>>, v: Seq<char>) -> Seq<Seq<char>> {
    b.map_values(|x: Seq<char>| if x == v { unbound() } else { x })
}

/// A rule of a term after one edit of that term's own arguments: the head is
/// rebound and, when an argument is removed, every value of the body bound
/// to the removed head value becomes `_`.
pub open spec fn rule_after_head_edit(r: RuleView, e: ListEdit) -> RuleView {
    RuleView {
        head: binding_after_edit(e, r.head),
        body: match e {
            ListEdit::Removed(idx) => r.body.map_values(
                |bt: BoundTermView|
                    BoundTermView { name: bt.name, args: unbind_value(bt.args, r.head[idx as int]) },
            ),
            _ => r.body,
        },
    }
}

/// A rule of a term after a sequence of edits of that term's own arguments.
pub open spec fn rule_after_head_edits(r: RuleView, es: Seq<ListEdit>) -> RuleView
    decreases es.len(),
{
    if es.len() == 0 {
        r
    } else {
        rule_after_head_edit(rule_after_head_edits(r, es.drop_last()), es.last())
    }
}

/// A term after a sequence of edits of its own arguments: the heads of its
/// rules and its facts are rebound.
pub open spec fn term_after_head_edits(t: FatTermView, es: Seq<ListEdit>) -> FatTermView {
    FatTermView {
        rules: t.rules.map_values(|r: RuleView| rule_after_head_edits(r, es)),
        facts: t.facts.map_values(|f: Seq<Seq<char>>| bindings_after_edits(es, f)),
        ..t
    }
}

/// Whether the edits apply to every rule head and every fact of the term.
pub open spec fn head_edits_apply(t: FatTermView, es: Seq<ListEdit>) -> bool {
    &&& forall|i: int| 0 <= i < t.rules.len() ==> edits_apply(es, #[trigger] t.rules[i].head)
    &&& forall|i: int| 0 <= i < t.facts.len() ==> edits_apply(es, #[trigger] t.facts[i])
}

/// The head of a rule follows the edits as any binding does.
pub proof fn lemma_rule_head_after_edits(r: RuleView, es: Seq<ListEdit>)
    ensures
        rule_after_head_edits(r, es).head == bindings_after_edits(es, r.head),
    decreases es.len(),
{
    if es.len() > 0 {
        lemma_rule_head_after_edits(r, es.drop_last());
    }
}

/// Replaces by `_` every value of the binding equal to `value`.
fn replace_bound_value(binding: &mut ArgsBinding, value: &String)
    ensures
        final(binding)@ == unbind_value(old(binding)@, value@),
{
    let mut l: usize = 0;
    while l < binding.binding.len()
        invariant
            l <= binding.binding@.len(),
            binding.binding@.len() == old(binding).binding@.len(),
            forall|m: int|
                0 <= m < l ==> (#[trigger] binding.binding@[m])@ == if old(binding).binding@[m]@
                    == value@ {
                    unbound()
                } else {
                    old(binding).binding@[m]@
                },
            forall|m: int| l <= m < binding.binding@.len() ==> #[trigger] binding.binding@[m] == old(binding).binding@[m],
        decreases binding.binding@.len() - l,
    {
        if binding.binding[l] == *value {
            binding.binding[l] = "_".to_owned();
        }
        l = l + 1;
    }
    assert(binding@ =~= unbind_value(old(binding)@, value@));
}

/// Applies one edit of the term's own arguments to a rule of it.
fn apply_head_edit_to_rule(rule: &mut Rule, change: &drag_and_drop::Change<NameDescription>)
    requires
        edit_applies(change.edit(), old(rule)@.head),
    ensures
        final(rule)@ == rule_after_head_edit(old(rule)@, change.edit()),
{
    let removed_arg = apply_binding_change(change, &mut rule.arg_bindings);
    if let Some(removed_arg) = removed_arg {
        let mut j: usize = 0;
        while j < rule.body.len()
            invariant
                j <= rule.body@.len(),
                rule.arg_bindings@ == binding_after_edit(change.edit(), old(rule)@.head),
                removed_arg@ == old(rule)@.head[change.edit()->Removed_0 as int],
                change.edit() is Removed,
                rule.body@.len() == old(rule).body@.len(),
                forall|jj: int|
                    0 <= jj < j ==> (#[trigger] rule.body@[jj])@ == (BoundTermView {
                        name: old(rule).body@[jj]@.name,
                        args: unbind_value(old(rule).body@[jj]@.args, removed_arg@),
                    }),
                forall|jj: int| j <= jj < rule.body@.len() ==> #[trigger] rule.body@[jj] == old(rule).body@[jj],
            decreases rule.body@.len() - j,
        {
            replace_bound_value(&mut rule.body[j].arg_bindings, &removed_arg);
            j = j + 1;
        }
    }
    assert(rule@.body =~= rule_after_head_edit(old(rule)@, change.edit()).body);
}

/// Applies one edit of the term's own arguments to all its rules and facts.
pub fn apply_head_args_change(term: &mut FatTerm, change: &drag_and_drop::Change<NameDescription>)
    requires
        forall|i: int|
            0 <= i < old(term)@.rules.len() ==> edit_applies(change.edit(), #[trigger] old(term)@.rules[i].head),
        forall|i: int|
            0 <= i < old(term)@.facts.len() ==> edit_applies(change.edit(), #[trigger] old(term)@.facts[i]),
    ensures
        final(term)@ == (FatTermView {
            rules: old(term)@.rules.map_values(|r: RuleView| rule_after_head_edit(r, change.edit())),
            facts: old(term)@.facts.map_values(
                |f: Seq<Seq<char>>| binding_after_edit(change.edit(), f),
            ),
            ..old(term)@
        }),
{
    let mut i: usize = 0;
    while i < term.term.rules.len()
        invariant
            i <= term.term.rules@.len(),
            term.meta == old(term).meta,
            term.term.facts == old(term).term.facts,
            term.term.rules@.len() == old(term).term.rules@.len(),
            forall|ii: int|
                0 <= ii < i ==> (#[trigger] term.term.rules@[ii])@ == rule_after_head_edit(
                    old(term).term.rules@[ii]@,
                    change.edit(),
                ),
            forall|ii: int| i <= ii < term.term.rules@.len() ==> #[trigger] term.term.rules@[ii] == old(term).term.rules@[ii],
            forall|ii: int|
                0 <= ii < old(term)@.rules.len() ==> edit_applies(change.edit(), #[trigger] old(term)@.rules[ii].head),
        decreases term.term.rules@.len() - i,
    {
        assert(old(term)@.rules[i as int] == term.term.rules@[i as int]@);
        apply_head_edit_to_rule(&mut term.term.rules[i], change);
        i = i + 1;
    }
    let mut i: usize = 0;
    while i < term.term.facts.len()
        invariant
            i <= term.term.facts@.len(),
            term.meta == old(term).meta,
            term.term.rules@.map_values(|r: Rule| r@) == old(term)@.rules.map_values(
                |r: RuleView| rule_after_head_edit(r, change.edit()),
            ),
            term.term.facts@.len() == old(term).term.facts@.len(),
            forall|ii: int|
                0 <= ii < i ==> (#[trigger] term.term.facts@[ii])@ == binding_after_edit(
                    change.edit(),
                    old(term).term.facts@[ii]@,
                ),
            forall|ii: int| i <= ii < term.term.facts@.len() ==> #[trigger] term.term.facts@[ii] == old(term).term.facts@[ii],
            forall|ii: int|
                0 <= ii < old(term)@.facts.len() ==> edit_applies(change.edit(), #[trigger] old(term)@.facts[ii]),
        decreases term.term.facts@.len() - i,
    {
        assert(old(term)@.facts[i as int] == term.term.facts@[i as int]@);
        apply_binding_change(change, &mut term.term.facts[i]);
        i = i + 1;
    }
    assert(term@.facts =~= old(term)@.facts.map_values(
        |f: Seq<Seq<char>>| binding_after_edit(change.edit(), f),
    ));
}

/// Applies the given edits of a term's own arguments, in order, to the heads
/// of its rules and to its facts; a removed argument's value becomes `_` in
/// the bodies of the rules.
pub fn apply_head_arg_changes(term: &mut FatTerm, changes: &Vec<drag_and_drop::Change<NameDescription>>)
    requires
        head_edits_apply(old(term)@, edits_of(changes@)),
    ensures
        final(term)@ == term_after_head_edits(old(term)@, edits_of(changes@)),
{
    let ghost es = edits_of(changes@);
    let ghost t0 = term@;
    assert(term_after_head_edits(t0, es.take(0)).rules =~= t0.rules);
    assert(term_after_head_edits(t0, es.take(0)).facts =~= t0.facts);
    let mut k: usize = 0;
    while k < changes.len()
        invariant
            k <= changes@.len(),
            es == edits_of(changes@),
            head_edits_apply(t0, es),
            term@ == term_after_head_edits(t0, es.take(k as int)),
        decreases changes@.len() - k,
    {
        let ghost cur = term@;
        assert(es.take(k + 1).drop_last() =~= es.take(k as int));
        assert forall|i: int| 0 <= i < cur.rules.len() implies edit_applies(
            changes@[k as int].edit(),
            #[trigger] cur.rules[i].head,
        ) by {
            let b = t0.rules[i].head;
            lemma_rule_head_after_edits(t0.rules[i], es.take(k as int));
            lemma_edits_apply_prefix(es, b, k + 1);
            lemma_edits_take_step(es, b, k as int);
        }
        assert forall|i: int| 0 <= i < cur.facts.len() implies edit_applies(
            changes@[k as int].edit(),
            #[trigger] cur.facts[i],
        ) by {
            let b = t0.facts[i];
            lemma_edits_apply_prefix(es, b, k + 1);
            lemma_edits_take_step(es, b, k as int);
        }
        apply_head_args_change(term, &changes[k]);
        assert forall|i: int| 0 <= i < t0.facts.len() implies #[trigger] term@.facts[i]
            == bindings_after_edits(es.take(k + 1), t0.facts[i]) by {
            lemma_edits_take_step(es, t0.facts[i], k as int);
        }
        assert(term@.rules =~= term_after_head_edits(t0, es.take(k + 1)).rules);
        assert(term@.facts =~= term_after_head_edits(t0, es.take(k + 1)).facts);
        k = k + 1;
    }
    assert(es.take(k as int) =~= es);
}

/// The names of the terms mentioned in the bodies of the rules, rule by rule,
/// with repetitions.
pub open spec fn rule_body_names(rules: Seq<RuleView>) -> Seq<Seq<char>>
    decreases rules.len(),
{
    if rules.len() == 0 {
        Seq::empty()
    } else {
        rule_body_names(rules.drop_last()) + rules.last().body.map_values(
            |bt: BoundTermView| bt.name,
        )
    }
}

/// The distinct elements of a sequence, in the order of their first occurrence.
pub open spec fn distinct(s: Seq<Seq<char>>) -> Seq<Seq<char>>
    decreases s.len(),
{
    if s.len() == 0 {
        s
    } else {
        let d = distinct(s.drop_last());
        if d.contains(s.last()) {
            d
        } else {
            d.push(s.last())
        }
    }
}

/// The names of the terms mentioned in the term's rules, each once.
pub open spec fn mentioned_terms(t: FatTermView) -> Seq<Seq<char>> {
    distinct(rule_body_names(t.rules))
}

/// `distinct` keeps exactly the elements of the sequence, each once.
pub proof fn lemma_distinct(s: Seq<Seq<char>>)
    ensures
        distinct(s).no_duplicates(),
        forall|x: Seq<char>| distinct(s).contains(x) <==> s.contains(x),
    decreases s.len(),
{
    if s.len() > 0 {
        lemma_distinct(s.drop_last());
        let d = distinct(s.drop_last());
        assert forall|x: Seq<char>| distinct(s).contains(x) <==> s.contains(x) by {
            lemma_contains_push(s.drop_last(), s.last(), x);
            lemma_contains_push(d, s.last(), x);
            assert(s.drop_last().push(s.last()) =~= s);
        }
        if !d.contains(s.last()) {
            assert forall|i: int, j: int|
                0 <= i < d.len() + 1 && 0 <= j < d.len() + 1 && i != j implies d.push(s.last())[i]
                != d.push(s.last())[j] by {
                if i < d.len() && j == d.len() {
                    assert(d[i] == d.push(s.last())[i]);
                }
                if j < d.len() && i == d.len() {
                    assert(d[j] == d.push(s.last())[j]);
                }
            }
        }
    }
}

/// An element is in a sequence with one more element at the end exactly when
/// it is that element or in the sequence.
pub proof fn lemma_contains_push<A>(s: Seq<A>, y: A, x: A)
    ensures
        s.push(y).contains(x) <==> (s.contains(x) || x == y),
{
    if s.contains(x) {
        let k = choose|k: int| 0 <= k < s.len() && s[k] == x;
        assert(s.push(y)[k] == x);
    }
    if x == y {
        assert(s.push(y)[s.len() as int] == x);
    }
    if s.push(y).contains(x) {
        let k = choose|k: int| 0 <= k < s.len() + 1 && s.push(y)[k] == x;
        if k < s.len() {
            assert(s[k] == x);
        }
    }
}

/// The names of the terms mentioned in the term's rules, each once.
pub fn get_mentioned_terms(term: &FatTerm) -> (res: Vec<String>)
    ensures
        strings_view(res@) == mentioned_terms(term@),
{
    let ghost rules = term@.rules;
    let mut mentioned: Vec<String> = Vec::new();
    let mut i: usize = 0;
    while i < term.term.rules.len()
        invariant
            i <= term.term.rules@.len(),
            rules == term@.rules,
            strings_view(mentioned@) == distinct(rule_body_names(rules.take(i as int))),
        decreases term.term.rules@.len() - i,
    {
        let rule = &term.term.rules[i];
        let ghost names = rule_body_names(rules.take(i as int));
        let ghost body_names = rules[i as int].body.map_values(|bt: BoundTermView| bt.name);
        let mut j: usize = 0;
        while j < rule.body.len()
            invariant
                j <= rule.body@.len(),
                rule@ == rules[i as int],
                body_names == rules[i as int].body.map_values(|bt: BoundTermView| bt.name),
                strings_view(mentioned@) == distinct(names + body_names.take(j as int)),
            decreases rule.body@.len() - j,
        {
            let ghost prev = names + body_names.take(j as int);
            assert((names + body_names.take(j + 1)).drop_last() =~= prev);
            assert(rule.body@[j as int]@ == rule@.body[j as int]);
            if !contains_string(&mentioned, &rule.body[j].name) {
                mentioned.push(rule.body[j].name.clone());
                assert(strings_view(mentioned@) =~= distinct(prev).push(body_names[j as int]));
            }
            j = j + 1;
        }
        assert(rules.take(i + 1).drop_last() =~= rules.take(i as int));
        assert(body_names.take(j as int) =~= body_names);
        i = i + 1;
    }
    assert(rules.take(i as int) =~= rules);
    mentioned
}

/// The elements of `v` that `other` does not hold, in order.
pub(crate) fn strings_not_in(v: &Vec<String>, other: &Vec<String>) -> (res: Vec<String>)
    ensures
        strings_view(res@) == strings_view(v@).filter(
            |n: Seq<char>| !strings_view(other@).contains(n),
        ),
{
    let ghost pred = |n: Seq<char>| !strings_view(other@).contains(n);
    let ghost s = strings_view(v@);
    let mut res: Vec<String> = Vec::new();
    let mut i: usize = 0;
    while i < v.len()
        invariant
            i <= v@.len(),
            s == strings_view(v@),
            pred == (|n: Seq<char>| !strings_view(other@).contains(n)),
            strings_view(res@) == s.take(i as int).filter(pred),
        decreases v@.len() - i,
    {
        proof {
            lemma_filter_take_step(s, pred, i as int);
        }
        if !contains_string(other, &v[i]) {
            res.push(v[i].clone());
        }
        i = i + 1;
        assert(strings_view(res@) =~= s.take(i as int).filter(pred));
    }
    assert(s.take(i as int) =~= s);
    res
}

/// The terms that the rules of `term` mention and those of `original_term`
/// did not (first), and the reverse (second), each once.
pub fn changes_in_mentioned_terms(original_term: &FatTerm, term: &FatTerm) -> (res: (
    Vec<String>,
    Vec<String>,
))
    ensures
        strings_view(res.0@) == mentioned_terms(term@).filter(
            |n: Seq<char>| !mentioned_terms(original_term@).contains(n),
        ),
        strings_view(res.1@) == mentioned_terms(original_term@).filter(
            |n: Seq<char>| !mentioned_terms(term@).contains(n),
        ),
{
    let old_related_terms = get_mentioned_terms(original_term);
    let related_terms = get_mentioned_terms(term);
    (strings_not_in(&related_terms, &old_related_terms), strings_not_in(&old_related_terms, &related_terms))
}

/// A term after `name` was added to the terms that refer to it.
pub open spec fn with_referrer_fn(name: Seq<char>) -> spec_fn(FatTermView) -> FatTermView {
    |t: FatTermView| FatTermView { referred_by: with_referrer(t.referred_by, name), ..t }
}

/// A term after `name` was removed from the terms that refer to it.
pub open spec fn without_referrer_fn(name: Seq<char>) -> spec_fn(FatTermView) -> FatTermView {
    |t: FatTermView| FatTermView { referred_by: without_referrer(t.referred_by, name), ..t }
}

/// A term after `old_name` was renamed to `new_name` among the terms that
/// refer to it.
pub open spec fn renamed_referrer_fn(old_name: Seq<char>, new_name: Seq<char>) -> spec_fn(
    FatTermView,
) -> FatTermView {
    |t: FatTermView|
        FatTermView { referred_by: renamed_referrer(t.referred_by, old_name, new_name), ..t }
}

/// A term after its rules' mentions of `old_name` were renamed to `new_name`.
pub open spec fn renamed_mentions_fn(old_name: Seq<char>, new_name: Seq<char>) -> spec_fn(
    FatTermView,
) -> FatTermView {
    |t: FatTermView|
        FatTermView {
            rules: t.rules.map_values(
                |r: RuleView|
                    RuleView {
                        head: r.head,
                        body: r.body.map_values(
                            |bt: BoundTermView|
                                if bt.name == old_name {
                                    BoundTermView { name: new_name, args: bt.args }
                                } else {
                                    bt
                                },
                        ),
                    },
            ),
            ..t
        }
}

/// A term after its rules' mentions of `name` were dropped from the bodies.
pub open spec fn without_mentions_fn(name: Seq<char>) -> spec_fn(FatTermView) -> FatTermView {
    |t: FatTermView|
        FatTermView {
            rules: t.rules.map_values(
                |r: RuleView|
                    RuleView {
                        head: r.head,
                        body: r.body.filter(|bt: BoundTermView| bt.name != name),
                    },
            ),
            ..t
        }
}

/// A change of the references between terms, applied to one stored term.
pub enum ReferenceEdit {
    AddReferrer(String),
    RemoveReferrer(String),
    RenameReferrer(String, String),
    RenameMentions(String, String),
    DropMentions(String),
}

impl ReferenceEdit {
    /// What the change does to a term.
    pub open spec fn edit_fn(&self) -> spec_fn(FatTermView) -> FatTermView {
        match self {
            ReferenceEdit::AddReferrer(n) => with_referrer_fn(n@),
            ReferenceEdit::RemoveReferrer(n) => without_referrer_fn(n@),
            ReferenceEdit::RenameReferrer(o, n) => renamed_referrer_fn(o@, n@),
            ReferenceEdit::RenameMentions(o, n) => renamed_mentions_fn(o@, n@),
            ReferenceEdit::DropMentions(n) => without_mentions_fn(n@),
        }
    }
}

/// Renames, in the rules of `term`, the mentions of `old_name` to `new_name`.
fn rename_mentions(term: &mut FatTerm, old_name: &String, new_name: &String)
    ensures
        final(term)@ == renamed_mentions_fn(old_name@, new_name@)(old(term)@),
{
    let ghost f = renamed_mentions_fn(old_name@, new_name@);
    let mut i: usize = 0;
    while i < term.term.rules.len()
        invariant
            i <= term.term.rules@.len(),
            term.meta == old(term).meta,
            term.term.facts == old(term).term.facts,
            term.term.rules@.len() == old(term).term.rules@.len(),
            forall|ii: int|
                0 <= ii < i ==> (#[trigger] term.term.rules@[ii])@ == f(old(term)@).rules[ii],
            forall|ii: int| i <= ii < term.term.rules@.len() ==> #[trigger] term.term.rules@[ii] == old(term).term.rules@[ii],
            f == renamed_mentions_fn(old_name@, new_name@),
        decreases term.term.rules@.len() - i,
    {
        let ghost r0 = term.term.rules@[i as int];
        let mut j: usize = 0;
        while j < term.term.rules[i].body.len()
            invariant
                i < term.term.rules@.len(),
                j <= term.term.rules@[i as int].body@.len(),
                term.meta == old(term).meta,
                term.term.facts == old(term).term.facts,
                term.term.rules@.len() == old(term).term.rules@.len(),
                forall|ii: int|
                    0 <= ii < i ==> (#[trigger] term.term.rules@[ii])@ == f(old(term)@).rules[ii],
                forall|ii: int| i < ii < term.term.rules@.len() ==> #[trigger] term.term.rules@[ii] == old(term).term.rules@[ii],
                r0 == old(term).term.rules@[i as int],
                term.term.rules@[i as int].arg_bindings == r0.arg_bindings,
                term.term.rules@[i as int].body@.len() == r0.body@.len(),
                forall|jj: int|
                    0 <= jj < j ==> (#[trigger] term.term.rules@[i as int].body@[jj])@ == f(old(term)@).rules[i as int].body[jj],
                forall|jj: int|
                    j <= jj < r0.body@.len() ==> #[trigger] term.term.rules@[i as int].body@[jj] == r0.body@[jj],
                f == renamed_mentions_fn(old_name@, new_name@),
            decreases r0.body@.len() - j,
        {
            if term.term.rules[i].body[j].name == *old_name {
                term.term.rules[i].body[j].name = new_name.clone();
            }
            j = j + 1;
        }
        assert(term.term.rules@[i as int]@.body =~= f(old(term)@).rules[i as int].body);
        i = i + 1;
    }
    assert(term@.rules =~= f(old(term)@).rules);
}

/// Drops, from the bodies of the rules of `term`, the mentions of `name`.
fn drop_mentions(term: &mut FatTerm, name: &String)
    ensures
        final(term)@ == without_mentions_fn(name@)(old(term)@),
{
    let ghost f = without_mentions_fn(name@);
    let ghost pred = |bt: BoundTermView| bt.name != name@;
    let mut i: usize = 0;
    while i < term.term.rules.len()
        invariant
            i <= term.term.rules@.len(),
            term.meta == old(term).meta,
            term.term.facts == old(term).term.facts,
            term.term.rules@.len() == old(term).term.rules@.len(),
            forall|ii: int|
                0 <= ii < i ==> (#[trigger] term.term.rules@[ii])@ == f(old(term)@).rules[ii],
            forall|ii: int| i <= ii < term.term.rules@.len() ==> #[trigger] term.term.rules@[ii] == old(term).term.rules@[ii],
            f == without_mentions_fn(name@),
            pred == (|bt: BoundTermView| bt.name != name@),
        decreases term.term.rules@.len() - i,
    {
        let ghost body = term.term.rules@[i as int]@.body;
        let mut kept: Vec<BoundTerm> = Vec::new();
        let mut j: usize = 0;
        while j < term.term.rules[i].body.len()
            invariant
                i < term.term.rules@.len(),
                j <= term.term.rules@[i as int].body@.len(),
                body == term.term.rules@[i as int]@.body,
                pred == (|bt: BoundTermView| bt.name != name@),
                kept@.map_values(|b: BoundTerm| b@) == body.take(j as int).filter(pred),
            decreases term.term.rules@[i as int].body@.len() - j,
        {
            proof {
                lemma_filter_take_step(body, pred, j as int);
            }
            assert(term.term.rules@[i as int].body@[j as int]@ == body[j as int]);
            if term.term.rules[i].body[j].name != *name {
                kept.push(term.term.rules[i].body[j].copy());
            }
            j = j + 1;
            assert(kept@.map_values(|b: BoundTerm| b@) =~= body.take(j as int).filter(pred));
        }
        assert(body.take(j as int) =~= body);
        term.term.rules[i].body = kept;
        i = i + 1;
    }
    assert(term@.rules =~= f(old(term)@).rules);
}

/// Applies a change of references to one term.
pub(crate) fn apply_reference_edit(term: &mut FatTerm, edit: &ReferenceEdit)
    ensures
        final(term)@ == edit.edit_fn()(old(term)@),
{
    match edit {
        ReferenceEdit::AddReferrer(n) => term.add_referred_by(n),
        ReferenceEdit::RemoveReferrer(n) => term.remove_referred_by(n),
        ReferenceEdit::RenameReferrer(o, n) => term.rename_referred_by(o, n),
        ReferenceEdit::RenameMentions(o, n) => rename_mentions(term, o, n),
        ReferenceEdit::DropMentions(n) => drop_mentions(term, n),
    }
}

/// Applies a change of references to the stored term under `name`, if any.
fn apply_reference_edit_to(terms: &mut TermsFilter, name: &String, edit: &ReferenceEdit)
    requires
        old(terms).wf(),
    ensures
        final(terms).wf(),
        final(terms)@ == modify_entry(old(terms)@, name@, edit.edit_fn()),
{
    proof {
        lemma_modify_keeps_names(terms@, name@, edit.edit_fn());
    }
    match terms.find(name) {
        Some(i) => {
            proof {
                lemma_modify_at(terms@, i as int, edit.edit_fn());
            }
            apply_reference_edit(terms.entry_mut(i), edit);
        },
        None => {
            proof {
                lemma_modify_absent(terms@, name@, edit.edit_fn());
            }
        },
    }
}

/// Applies a change of references to the stored terms under each of the
/// names, in order.
pub(crate) fn apply_reference_edit_each(terms: &mut TermsFilter, names: &Vec<String>, edit: &ReferenceEdit)
    requires
        old(terms).wf(),
    ensures
        final(terms).wf(),
        final(terms)@ == modify_each(old(terms)@, strings_view(names@), edit.edit_fn()),
{
    let ghost ns = strings_view(names@);
    assert(ns.take(0) =~= Seq::<Seq<char>>::empty());
    let mut k: usize = 0;
    while k < names.len()
        invariant
            k <= names@.len(),
            ns == strings_view(names@),
            terms.wf(),
            terms@ == modify_each(old(terms)@, ns.take(k as int), edit.edit_fn()),
        decreases names@.len() - k,
    {
        assert(ns.take(k + 1).drop_last() =~= ns.take(k as int));
        apply_reference_edit_to(terms, &names[k], edit);
        k = k + 1;
    }
    assert(ns.take(k as int) =~= ns);
}

/// The names of the terms mentioned in the bodies of the term's rules, rule
/// by rule, with repetitions.
pub(crate) fn body_term_names(term: &FatTerm) -> (res: Vec<String>)
    ensures
        strings_view(res@) == rule_body_names(term@.rules),
{
    let ghost rules = term@.rules;
    let mut names: Vec<String> = Vec::new();
    let mut i: usize = 0;
    while i < term.term.rules.len()
        invariant
            i <= term.term.rules@.len(),
            rules == term@.rules,
            strings_view(names@) == rule_body_names(rules.take(i as int)),
        decreases term.term.rules@.len() - i,
    {
        let rule = &term.term.rules[i];
        let ghost prev = rule_body_names(rules.take(i as int));
        let ghost body_names = rules[i as int].body.map_values(|bt: BoundTermView| bt.name);
        let mut j: usize = 0;
        while j < rule.body.len()
            invariant
                j <= rule.body@.len(),
                rule@ == rules[i as int],
                body_names == rules[i as int].body.map_values(|bt: BoundTermView| bt.name),
                strings_view(names@) == prev + body_names.take(j as int),
            decreases rule.body@.len() - j,
        {
            assert(rule.body@[j as int]@ == rule@.body[j as int]);
            assert(body_names[j as int] == rule.body@[j as int].name@);
            assert(body_names.take(j + 1) =~= body_names.take(j as int).push(body_names[j as int]));
            let ghost before = names@;
            let name = rule.body[j].name.clone();
            names.push(name);
            assert(names@ == before.push(name));
            assert(strings_view(names@) =~= strings_view(before).push(name@));
            assert(name@ == body_names[j as int]);
            j = j + 1;
            assert(strings_view(names@) =~= prev + body_names.take(j as int));
        }
        assert(rules.take(i + 1).drop_last() =~= rules.take(i as int));
        assert(body_names.take(j as int) =~= body_names);
        i = i + 1;
    }
    assert(rules.take(i as int) =~= rules);
    names
}

/// The store after the mentions of `name` in the terms under each of the
/// referrers were rebound by the edits of `name`'s arguments, in order;
/// `None` where an edit does not apply to a mention it meets.
pub open spec fn store_after_referrer_edits(
    s: Store,
    referrers: Seq<Seq<char>>,
    name: Seq<char>,
    es: Seq<ListEdit>,
) -> Option<Store>
    decreases referrers.len(),
{
    if referrers.len() == 0 {
        Some(s)
    } else {
        match store_after_referrer_edits(s, referrers.drop_last(), name, es) {
            Some(s1) => if entries_satisfy(
                s1,
                referrers.last(),
                |t: FatTermView| arg_edits_apply(t, name, es),
            ) {
                Some(modify_entry(s1, referrers.last(), |t: FatTermView| term_after_arg_edits(t, name, es)))
            } else {
                None
            },
            None => None,
        }
    }
}

/// The terms newly mentioned by `updated` (first) and no longer mentioned
/// (second), compared with `original`.
pub open spec fn mention_changes(original: FatTermView, updated: FatTermView) -> (Seq<Seq<char>>, Seq<Seq<char>>) {
    (
        mentioned_terms(updated).filter(|n: Seq<char>| !mentioned_terms(original).contains(n)),
        mentioned_terms(original).filter(|n: Seq<char>| !mentioned_terms(updated).contains(n)),
    )
}

/// The store after one change made to the term `name` was propagated:
/// argument edits rebind the mentions in the referring terms and then the
/// term's own heads and facts; rule changes update the referrers recorded in
/// the terms no longer mentioned and in those newly mentioned. `None` where
/// an argument edit does not apply.
pub open spec fn store_after_term_change(
    s: Store,
    c: TermChangeView,
    name: Seq<char>,
    original: FatTermView,
    updated: FatTermView,
) -> Option<Store> {
    match c {
        TermChangeView::ArgChanges(es) => match store_after_referrer_edits(s, updated.referred_by, name, es) {
            Some(s1) => if entries_satisfy(s1, name, |t: FatTermView| head_edits_apply(t, es)) {
                Some(modify_entry(s1, name, |t: FatTermView| term_after_head_edits(t, es)))
            } else {
                None
            },
            None => None,
        },
        TermChangeView::RuleChanges => Some(
            modify_each(
                modify_each(s, mention_changes(original, updated).1, without_referrer_fn(name)),
                mention_changes(original, updated).0,
                with_referrer_fn(name),
            ),
        ),
        _ => Some(s),
    }
}

/// The store after the changes made to the term `name` were propagated, in order.
pub open spec fn store_after_term_changes(
    s: Store,
    cs: Seq<TermChangeView>,
    name: Seq<char>,
    original: FatTermView,
    updated: FatTermView,
) -> Option<Store>
    decreases cs.len(),
{
    if cs.len() == 0 {
        Some(s)
    } else {
        match store_after_term_changes(s, cs.drop_last(), name, original, updated) {
            Some(s1) => store_after_term_change(s1, cs.last(), name, original, updated),
            None => None,
        }
    }
}

/// The store after a renaming of the term `name` to `updated`'s name was
/// propagated: the terms it mentions record the new name among their
/// referrers, and the terms referring to it mention the new name.
pub open spec fn store_after_rename(s: Store, name: Seq<char>, updated: FatTermView) -> Store {
    if name != updated.name {
        modify_each(
            modify_each(s, rule_body_names(updated.rules), renamed_referrer_fn(name, updated.name)),
            updated.referred_by,
            renamed_mentions_fn(name, updated.name),
        )
    } else {
        s
    }
}

/// The store after the outcome of editing a term was propagated; `None`
/// where an argument edit does not apply to a binding it meets.
///
/// For changes, the updated term is first stored under its name before the
/// changes, then each change is propagated, then a renaming. For a deletion
/// of the term `original`, the terms it mentions forget it among their
/// referrers, and the terms referring to it drop their mentions of it.
pub open spec fn store_after_changes(s: Store, changes: Change, original: FatTermView) -> Option<Store> {
    match changes {
        Change::Changes(cs, name, updated) => match store_after_term_changes(
            put_entry(s, name@, updated@),
            term_changes_view(cs@),
            name@,
            original,
            updated@,
        ) {
            Some(s1) => Some(store_after_rename(s1, name@, updated@)),
            None => None,
        },
        Change::Deleted(name) => Some(store_after_deletion(s, name@, original)),
    }
}

/// The store after the deletion of the term `original`, named `name`, was
/// propagated: the terms it mentions forget it among their referrers, then
/// the terms referring to it drop their mentions of it.
pub open spec fn store_after_deletion(s: Store, name: Seq<char>, original: FatTermView) -> Store {
    modify_each(
        modify_each(s, rule_body_names(original.rules), without_referrer_fn(name)),
        original.referred_by,
        without_mentions_fn(name),
    )
}

/// A propagation of referrer edits that goes through also goes through on
/// every prefix of the referrers.
pub proof fn lemma_referrer_edits_prefix(
    s: Store,
    referrers: Seq<Seq<char>>,
    name: Seq<char>,
    es: Seq<ListEdit>,
    n: int,
)
    requires
        store_after_referrer_edits(s, referrers, name, es) is Some,
        0 <= n <= referrers.len(),
    ensures
        store_after_referrer_edits(s, referrers.take(n), name, es) is Some,
    decreases referrers.len(),
{
    if n == referrers.len() {
        assert(referrers.take(n) =~= referrers);
    } else {
        lemma_referrer_edits_prefix(s, referrers.drop_last(), name, es, n);
        assert(referrers.drop_last().take(n) =~= referrers.take(n));
    }
}

/// A propagation of term changes that goes through also goes through on
/// every prefix of the changes.
pub proof fn lemma_term_changes_prefix(
    s: Store,
    cs: Seq<TermChangeView>,
    name: Seq<char>,
    original: FatTermView,
    updated: FatTermView,
    n: int,
)
    requires
        store_after_term_changes(s, cs, name, original, updated) is Some,
        0 <= n <= cs.len(),
    ensures
        store_after_term_changes(s, cs.take(n), name, original, updated) is Some,
    decreases cs.len(),
{
    if n == cs.len() {
        assert(cs.take(n) =~= cs);
    } else {
        lemma_term_changes_prefix(s, cs.drop_last(), name, original, updated, n);
        assert(cs.drop_last().take(n) =~= cs.take(n));
    }
}

/// Rebinds the mentions of `name` in the stored terms under each of the
/// referrers after the edits of `name`'s arguments.
fn apply_arg_changes_to_referrers(
    terms: &mut TermsFilter,
    referrers: &Vec<String>,
    name: &String,
    arg_changes: &Vec<drag_and_drop::Change<NameDescription>>,
)
    requires
        old(terms).wf(),
        store_after_referrer_edits(old(terms)@, strings_view(referrers@), name@, edits_of(arg_changes@)) is Some,
    ensures
        final(terms).wf(),
        Some(final(terms)@) == store_after_referrer_edits(
            old(terms)@,
            strings_view(referrers@),
            name@,
            edits_of(arg_changes@),
        ),
{
    let ghost rs = strings_view(referrers@);
    let ghost es = edits_of(arg_changes@);
    assert(rs.take(0) =~= Seq::<Seq<char>>::empty());
    let mut k: usize = 0;
    while k < referrers.len()
        invariant
            k <= referrers@.len(),
            rs == strings_view(referrers@),
            es == edits_of(arg_changes@),
            terms.wf(),
            store_after_referrer_edits(old(terms)@, rs, name@, es) is Some,
            Some(terms@) == store_after_referrer_edits(old(terms)@, rs.take(k as int), name@, es),
        decreases referrers@.len() - k,
    {
        assert(rs.take(k + 1).drop_last() =~= rs.take(k as int));
        proof {
            lemma_referrer_edits_prefix(old(terms)@, rs, name@, es, k + 1);
        }
        let ghost f = |t: FatTermView| term_after_arg_edits(t, name@, es);
        proof {
            lemma_modify_keeps_names(terms@, rs[k as int], f);
        }
        match terms.find(&referrers[k]) {
            Some(i) => {
                proof {
                    lemma_modify_at(terms@, i as int, f);
                }
                let ghost p = |t: FatTermView| arg_edits_apply(t, name@, es);
                assert(store_after_referrer_edits(old(terms)@, rs.take(k + 1), name@, es) is Some);
                assert(rs.take(k + 1).last() == rs[k as int]);
                assert(entries_satisfy(terms@, rs[k as int], p));
                assert(p(terms@[i as int].1));
                apply_arg_changes(terms.entry_mut(i), name, arg_changes);
            },
            None => {
                proof {
                    lemma_modify_absent(terms@, rs[k as int], f);
                }
            },
        }
        k = k + 1;
    }
    assert(rs.take(k as int) =~= rs);
}

/// Propagates one change made to the term `name` to the stored terms.
fn apply_term_change(
    terms: &mut TermsFilter,
    change: &TermChange,
    name: &String,
    original: &FatTerm,
    updated_term: &FatTerm,
)
    requires
        old(terms).wf(),
        store_after_term_change(old(terms)@, change@, name@, original@, updated_term@) is Some,
    ensures
        final(terms).wf(),
        Some(final(terms)@) == store_after_term_change(
            old(terms)@,
            change@,
            name@,
            original@,
            updated_term@,
        ),
{
    match change {
        TermChange::DescriptionChange | TermChange::FactsChange | TermChange::ArgRename => {},
        TermChange::ArgChanges(arg_changes) => {
            let ghost es = edits_of(arg_changes@);
            apply_arg_changes_to_referrers(terms, &updated_term.meta.referred_by, name, arg_changes);
            let ghost s1 = terms@;
            let ghost f = |t: FatTermView| term_after_head_edits(t, es);
            proof {
                lemma_modify_keeps_names(terms@, name@, f);
            }
            match terms.find(name) {
                Some(i) => {
                    let ghost p = |t: FatTermView| head_edits_apply(t, es);
                    assert(entries_satisfy(s1, name@, p));
                    assert(p(s1[i as int].1));
                    proof {
                        lemma_modify_at(terms@, i as int, f);
                    }
                    apply_head_arg_changes(terms.entry_mut(i), arg_changes);
                },
                None => {
                    proof {
                        lemma_modify_absent(terms@, name@, f);
                    }
                },
            }
        },
        TermChange::RuleChanges => {
            let (new, removed) = changes_in_mentioned_terms(original, updated_term);
            apply_reference_edit_each(terms, &removed, &ReferenceEdit::RemoveReferrer(name.clone()));
            apply_reference_edit_each(terms, &new, &ReferenceEdit::AddReferrer(name.clone()));
        },
    }
}

/// Propagates the outcome of editing a term to the stored terms; `original`
/// is the term before the edit. For changes, the updated term is stored
/// under its name before the edit and each change is propagated in turn:
/// argument edits rebind the referring terms' mentions of it and then its own
/// rule heads and facts, rule changes update the referrers recorded in the
/// terms it mentions; a renaming is propagated last. For a deletion, the
/// terms it mentions forget it and the terms referring to it drop their
/// mentions of it. Terms that are not stored are passed over.
pub fn apply_changes(changes: &Change, original: &FatTerm, terms: &mut TermsFilter)
    requires
        old(terms).wf(),
        store_after_changes(old(terms)@, *changes, original@) is Some,
    ensures
        final(terms).wf(),
        Some(final(terms)@) == store_after_changes(old(terms)@, *changes, original@),
{
    match changes {
        Change::Changes(term_changes, original_name, updated_term) => {
            terms.put(original_name, updated_term);
            let ghost s0 = terms@;
            let ghost cs = term_changes_view(term_changes@);
            assert(cs.take(0) =~= Seq::<TermChangeView>::empty());
            let mut k: usize = 0;
            while k < term_changes.len()
                invariant
                    k <= term_changes@.len(),
                    cs == term_changes_view(term_changes@),
                    terms.wf(),
                    store_after_term_changes(s0, cs, original_name@, original@, updated_term@) is Some,
                    Some(terms@) == store_after_term_changes(
                        s0,
                        cs.take(k as int),
                        original_name@,
                        original@,
                        updated_term@,
                    ),
                decreases term_changes@.len() - k,
            {
                assert(cs.take(k + 1).drop_last() =~= cs.take(k as int));
                proof {
                    lemma_term_changes_prefix(s0, cs, original_name@, original@, updated_term@, k + 1);
                }
                apply_term_change(terms, &term_changes[k], original_name, original, updated_term);
                k = k + 1;
            }
            assert(cs.take(k as int) =~= cs);
            // once all externally propagated changes are applied with the original name,
            // the potential name change is addressed
            if *original_name != updated_term.meta.term.name {
                let names = body_term_names(updated_term);
                apply_reference_edit_each(
                    terms,
                    &names,
                    &ReferenceEdit::RenameReferrer(original_name.clone(), updated_term.meta.term.name.clone()),
                );
                apply_reference_edit_each(
                    terms,
                    &updated_term.meta.referred_by,
                    &ReferenceEdit::RenameMentions(original_name.clone(), updated_term.meta.term.name.clone()),
                );
            }
        },
        Change::Deleted(term_name) => {
            let names = body_term_names(original);
            apply_reference_edit_each(terms, &names, &ReferenceEdit::RemoveReferrer(term_name.clone()));
            apply_reference_edit_each(
                terms,
                &original.meta.referred_by,
                &ReferenceEdit::DropMentions(term_name.clone()),
            );
        },
    }
}

/// Whether an edit adds or removes an argument.
pub open spec fn adds_or_removes(e: ListEdit) -> bool {
    e is Pushed || e is Removed
}

/// Whether one of the edits adds or removes an argument.
pub open spec fn some_edit_adds_or_removes(es: Seq<ListEdit>) -> bool {
    exists|j: int| 0 <= j < es.len() && adds_or_removes(#[trigger] es[j])
}

/// Whether a change adds or removes an argument of the term.
pub open spec fn adds_or_removes_argument(c: TermChangeView) -> bool {
    match c {
        TermChangeView::ArgChanges(es) => some_edit_adds_or_removes(es),
        _ => false,
    }
}

/// Whether changes made to a term with the given referrers add or remove an
/// argument while some term refers to it.
pub open spec fn term_changes_need_confirmation(cs: Seq<TermChangeView>, referred_by: Seq<Seq<char>>) -> bool {
    referred_by.len() > 0 && exists|i: int| 0 <= i < cs.len() && adds_or_removes_argument(#[trigger] cs[i])
}

/// Whether the changes made to a term need the user's confirmation before
/// they are propagated: they do when an argument was added or removed and
/// some term refers to the changed one; a deletion always does.
pub open spec fn confirmation_needed(changes: Change) -> bool {
    match changes {
        Change::Changes(cs, _, updated) => term_changes_need_confirmation(
            term_changes_view(cs@),
            updated@.referred_by,
        ),
        Change::Deleted(_) => true,
    }
}

/// Whether the changes made to a term need the user's confirmation before
/// they are propagated.
pub fn need_confirmation(changes: &Change) -> (res: bool)
    ensures
        res == confirmation_needed(*changes),
{
    match changes {
        Change::Changes(term_changes, _, updated_term) => {
            let mut k: usize = 0;
            while k < term_changes.len()
                invariant
                    k <= term_changes@.len(),
                    confirmation_needed(*changes) == term_changes_need_confirmation(
                        term_changes_view(term_changes@),
                        updated_term@.referred_by,
                    ),
                    updated_term@.referred_by.len() > 0 ==> forall|i: int|
                        0 <= i < k ==> !adds_or_removes_argument(#[trigger] term_changes@[i]@),
                decreases term_changes@.len() - k,
            {
                if let TermChange::ArgChanges(arg_changes) = &term_changes[k] {
                    if updated_term.meta.referred_by.len() > 0 {
                        let ghost es = edits_of(arg_changes@);
                        assert(term_changes@[k as int]@ == TermChangeView::ArgChanges(es));
                        let mut a: usize = 0;
                        while a < arg_changes.len()
                            invariant
                                a <= arg_changes@.len(),
                                k < term_changes@.len(),
                                confirmation_needed(*changes) == term_changes_need_confirmation(
                                    term_changes_view(term_changes@),
                                    updated_term@.referred_by,
                                ),
                                es == edits_of(arg_changes@),
                                term_changes@[k as int]@ == TermChangeView::ArgChanges(es),
                                updated_term@.referred_by.len() > 0,
                                forall|i: int|
                                    0 <= i < k ==> !adds_or_removes_argument(#[trigger] term_changes@[i]@),
                                forall|j: int| 0 <= j < a ==> !adds_or_removes(#[trigger] es[j]),
                            decreases arg_changes@.len() - a,
                        {
                            match &arg_changes[a] {
                                drag_and_drop::Change::Pushed(_) | drag_and_drop::Change::Removed(_, _) => {
                                    // currently only a new or removed argument triggers user
                                    // intervention - all other changes can be applied
                                    // automatically
                                    assert(adds_or_removes(es[a as int]));
                                    assert(adds_or_removes_argument(term_changes_view(term_changes@)[k as int]));
                                    assert(term_changes_need_confirmation(
                                        term_changes_view(term_changes@),
                                        updated_term@.referred_by,
                                    ));
                                    return true;
                                },
                                drag_and_drop::Change::Moved(_) => {},
                            }
                            a = a + 1;
                        }
                        assert(!adds_or_removes_argument(term_changes@[k as int]@));
                    }
                }
                k = k + 1;
            }
            if updated_term.meta.referred_by.len() > 0 {
                assert forall|i: int| 0 <= i < term_changes@.len() implies !adds_or_removes_argument(
                    #[trigger] term_changes_view(term_changes@)[i],
                ) by {
                    assert(!adds_or_removes_argument(term_changes@[i]@));
                }
            }
            false
        },
        Change::Deleted(_) => true,
    }
}

/// Whether a change edits the arguments.
pub open spec fn is_arg_changes(c: TermChangeView) -> bool {
    c is ArgChanges
}

/// The terms affected by the rule changes of the sequence: for each rule
/// change, the terms newly mentioned and then those no longer mentioned.
pub open spec fn rule_change_affected(
    cs: Seq<TermChangeView>,
    original: FatTermView,
    updated: FatTermView,
) -> Seq<Seq<char>>
    decreases cs.len(),
{
    if cs.len() == 0 {
        Seq::empty()
    } else {
        rule_change_affected(cs.drop_last(), original, updated) + if cs.last() is RuleChanges {
            mention_changes(original, updated).0 + mention_changes(original, updated).1
        } else {
            Seq::empty()
        }
    }
}

/// The terms affected by changes made to the term `name`, which became
/// `updated`: the terms whose mentions changed with each rule change, unless
/// the term was renamed; then the referring terms, if the term was renamed
/// or its arguments edited; then, if it was renamed, every term mentioned
/// before or after.
pub open spec fn affected_by_changes(
    original: FatTermView,
    cs: Seq<TermChangeView>,
    name: Seq<char>,
    updated: FatTermView,
) -> Seq<Seq<char>> {
    let renamed = name != updated.name;
    let arg_changed = exists|i: int| 0 <= i < cs.len() && is_arg_changes(#[trigger] cs[i]);
    (if renamed {
        Seq::empty()
    } else {
        rule_change_affected(cs, original, updated)
    }) + (if renamed || arg_changed {
        updated.referred_by
    } else {
        Seq::empty()
    }) + (if renamed {
        mentioned_terms(original) + mentioned_terms(updated).filter(
            |n: Seq<char>| !mentioned_terms(original).contains(n),
        )
    } else {
        Seq::empty()
    })
}

/// The terms affected by the outcome of editing the term `original`; for a
/// deletion, the terms it mentions and then the terms referring to it.
pub open spec fn affected_terms(original: FatTermView, changes: Change) -> Seq<Seq<char>> {
    match changes {
        Change::Changes(cs, name, updated) => affected_by_changes(
            original,
            term_changes_view(cs@),
            name@,
            updated@,
        ),
        Change::Deleted(_) => mentioned_terms(original) + original.referred_by,
    }
}

/// The names of the terms that the outcome of editing `original` affects.
pub fn get_affected(original: &FatTerm, changes: &Change) -> (res: Vec<String>)
    ensures
        strings_view(res@) == affected_terms(original@, *changes),
{
    let mut affected_terms: Vec<String> = Vec::new();
    match changes {
        Change::Changes(term_changes, original_name, updated_term) => {
            let ghost cs = term_changes_view(term_changes@);
            let ghost renamed = original_name@ != updated_term@.name;
            let mut include_referred_by = false;
            let mut include_mentioned = false;

            if *original_name != updated_term.meta.term.name {
                include_referred_by = true;
                include_mentioned = true;
            }
            assert(cs.take(0) =~= Seq::<TermChangeView>::empty());
            let mut k: usize = 0;
            while k < term_changes.len()
                invariant
                    k <= term_changes@.len(),
                    cs == term_changes_view(term_changes@),
                    renamed == (original_name@ != updated_term@.name),
                    include_mentioned == renamed,
                    include_referred_by == (renamed || exists|i: int|
                        0 <= i < k && is_arg_changes(#[trigger] cs[i])),
                    strings_view(affected_terms@) == if renamed {
                        Seq::empty()
                    } else {
                        rule_change_affected(cs.take(k as int), original@, updated_term@)
                    },
                decreases term_changes@.len() - k,
            {
                assert(cs.take(k + 1).drop_last() =~= cs.take(k as int));
                assert(cs[k as int] == term_changes@[k as int]@);
                match &term_changes[k] {
                    TermChange::DescriptionChange | TermChange::FactsChange | TermChange::ArgRename => {},
                    TermChange::ArgChanges(_) => {
                        assert(is_arg_changes(cs[k as int]));
                        include_referred_by = true;
                    },
                    TermChange::RuleChanges => {
                        if include_mentioned {
                            // all mentioned are already included so there's no need to figure out
                            // new and old
                        } else {
                            let (mut new, mut removed) = changes_in_mentioned_terms(original, updated_term);
                            let ghost before = affected_terms@;
                            affected_terms.append(&mut new);
                            affected_terms.append(&mut removed);
                            assert(strings_view(affected_terms@) =~= strings_view(before)
                                + mention_changes(original@, updated_term@).0 + mention_changes(
                                original@,
                                updated_term@,
                            ).1);
                        }
                    },
                }
                proof {
                    if !is_arg_changes(cs[k as int]) {
                        assert((exists|i: int| 0 <= i < k + 1 && is_arg_changes(#[trigger] cs[i]))
                            == (exists|i: int| 0 <= i < k && is_arg_changes(#[trigger] cs[i])));
                    }
                }
                k = k + 1;
            }
            assert(cs.take(k as int) =~= cs);
            let ghost after_rules = affected_terms@;
            if include_referred_by {
                let mut referred_by = copy_strings(&updated_term.meta.referred_by);
                affected_terms.append(&mut referred_by);
            }
            let ghost after_referred = affected_terms@;
            if include_mentioned {
                let old_mentioned = get_mentioned_terms(original);
                let current_mentioned = get_mentioned_terms(updated_term);
                let mut union = copy_strings(&old_mentioned);
                let mut only_current = strings_not_in(&current_mentioned, &old_mentioned);
                affected_terms.append(&mut union);
                affected_terms.append(&mut only_current);
            }
            assert(strings_view(affected_terms@) =~= affected_by_changes(
                original@,
                cs,
                original_name@,
                updated_term@,
            ));
        },
        Change::Deleted(_) => {
            // need to remove the term from all the terms' "referred by" field
            let mut mentioned = get_mentioned_terms(original);
            affected_terms.append(&mut mentioned);
            // need to remove the term from all the terms' rules that refer to it
            let mut referred_by = copy_strings(&original.meta.referred_by);
            affected_terms.append(&mut referred_by);
            assert(strings_view(affected_terms@) =~= mentioned_terms(original@) + original@.referred_by);
        },
    }
    affected_terms
}

/// Bindings follow the arguments they bind: when an argument list with no
/// pending move has one argument moved, the order it records, replayed on a
/// binding that holds one value per argument, moves the bound values the
/// same way as the arguments.
pub proof fn lemma_recorded_move_keeps_bindings_aligned(b: Seq<Seq<char>>, from: int, to: int)
    requires
        0 <= from < b.len(),
        0 <= to < b.len(),
        b.len() <= usize::MAX,
    ensures
        edit_applies(ListEdit::Moved(order_after_move(identity_order(b.len()), from, to)), b),
        binding_after_edit(ListEdit::Moved(order_after_move(identity_order(b.len()), from, to)), b)
            == moved_items(b, from, to),
{
    let order = order_after_move(identity_order(b.len()), from, to);
    lemma_single_move_records_origins(b, from, to);
    assert(binding_after_edit(ListEdit::Moved(order), b) =~= moved_items(b, from, to));
}

/// Removing the argument that was just pushed gives the binding back.
pub proof fn lemma_remove_undoes_push(b: Seq<Seq<char>>)
    requires
        b.len() < usize::MAX,
    ensures
        edit_applies(ListEdit::Removed(b.len() as usize), binding_after_edit(ListEdit::Pushed, b)),
        binding_after_edit(ListEdit::Removed(b.len() as usize), binding_after_edit(ListEdit::Pushed, b))
            == b,
{
    assert(b.push(unbound()).remove(b.len() as int) =~= b);
}

/// Filtering keeps a sequence free of repetitions.
pub proof fn lemma_filter_no_duplicates<A>(s: Seq<A>, pred: spec_fn(A) -> bool)
    requires
        s.no_duplicates(),
    ensures
        s.filter(pred).no_duplicates(),
    decreases s.len(),
{
    broadcast use vstd::seq_lib::group_filter_ensures;

    reveal(Seq::filter);
    if s.len() > 0 {
        let rest = s.drop_last();
        assert forall|i: int, j: int| 0 <= i < rest.len() && 0 <= j < rest.len() && i != j implies rest[i] != rest[j] by {
            assert(rest[i] == s[i] && rest[j] == s[j]);
        }
        lemma_filter_no_duplicates(rest, pred);
        if pred(s.last()) {
            let f = rest.filter(pred);
            assert forall|i: int| 0 <= i < f.len() implies f[i] != s.last() by {
                if f[i] == s.last() {
                    rest.lemma_filter_contains_rev(pred, s.last());
                    let k = choose|k: int| 0 <= k < rest.len() && rest[k] == s.last();
                    assert(s[k] == s[s.len() - 1]);
                }
            }
            assert forall|i: int, j: int|
                0 <= i < f.len() + 1 && 0 <= j < f.len() + 1 && i != j implies f.push(s.last())[i]
                != f.push(s.last())[j] by {
                if i < f.len() && j < f.len() {
                    assert(f.push(s.last())[i] == f[i] && f.push(s.last())[j] == f[j]);
                }
            }
        }
    }
}

/// The terms newly mentioned after an edit are exactly those mentioned after
/// it and not before, those no longer mentioned are the reverse, and each
/// is listed once.
pub proof fn lemma_mention_changes(original: FatTermView, updated: FatTermView)
    ensures
        forall|n: Seq<char>|
            #[trigger] mention_changes(original, updated).0.contains(n) <==> (rule_body_names(
                updated.rules,
            ).contains(n) && !rule_body_names(original.rules).contains(n)),
        forall|n: Seq<char>|
            #[trigger] mention_changes(original, updated).1.contains(n) <==> (rule_body_names(
                original.rules,
            ).contains(n) && !rule_body_names(updated.rules).contains(n)),
        mention_changes(original, updated).0.no_duplicates(),
        mention_changes(original, updated).1.no_duplicates(),
{
    broadcast use vstd::seq_lib::group_filter_ensures;

    lemma_distinct(rule_body_names(original.rules));
    lemma_distinct(rule_body_names(updated.rules));
    let old_m = mentioned_terms(original);
    let new_m = mentioned_terms(updated);
    let p_new = |n: Seq<char>| !old_m.contains(n);
    let p_old = |n: Seq<char>| !new_m.contains(n);
    lemma_filter_no_duplicates(new_m, p_new);
    lemma_filter_no_duplicates(old_m, p_old);
    assert forall|n: Seq<char>| #[trigger] new_m.filter(p_new).contains(n) <==> (new_m.contains(n) && p_new(n)) by {
        if new_m.filter(p_new).contains(n) {
            new_m.lemma_filter_contains_rev(p_new, n);
            let k = choose|k: int| 0 <= k < new_m.filter(p_new).len() && new_m.filter(p_new)[k] == n;
            new_m.lemma_filter_pred(p_new, k);
        }
        if new_m.contains(n) && p_new(n) {
            let k = choose|k: int| 0 <= k < new_m.len() && new_m[k] == n;
            new_m.lemma_filter_contains(p_new, k);
        }
    }
    assert forall|n: Seq<char>| #[trigger] old_m.filter(p_old).contains(n) <==> (old_m.contains(n) && p_old(n)) by {
        if old_m.filter(p_old).contains(n) {
            old_m.lemma_filter_contains_rev(p_old, n);
            let k = choose|k: int| 0 <= k < old_m.filter(p_old).len() && old_m.filter(p_old)[k] == n;
            old_m.lemma_filter_pred(p_old, k);
        }
        if old_m.contains(n) && p_old(n) {
            let k = choose|k: int| 0 <= k < old_m.len() && old_m[k] == n;
            old_m.lemma_filter_contains(p_old, k);
        }
    }
}

/// Whether a change stays inside the term: a new description, new facts, or
/// renamed arguments.
pub open spec fn is_internal_change(c: TermChangeView) -> bool {
    c is DescriptionChange || c is FactsChange || c is ArgRename
}

/// Changes that stay inside a term and keep its name affect no other term,
/// and their propagation only stores the updated term under its name.
pub proof fn lemma_internal_changes_stay_internal(
    s: Store,
    original: FatTermView,
    cs: Seq<TermChangeView>,
    name: Seq<char>,
    updated: FatTermView,
)
    requires
        name == updated.name,
        forall|i: int| 0 <= i < cs.len() ==> is_internal_change(#[trigger] cs[i]),
    ensures
        affected_by_changes(original, cs, name, updated) == Seq::<Seq<char>>::empty(),
        store_after_term_changes(put_entry(s, name, updated), cs, name, original, updated) == Some(
            put_entry(s, name, updated),
        ),
        store_after_rename(put_entry(s, name, updated), name, updated) == put_entry(s, name, updated),
    decreases cs.len(),
{
    if cs.len() > 0 {
        lemma_internal_changes_stay_internal(s, original, cs.drop_last(), name, updated);
        assert(is_internal_change(cs[cs.len() - 1]));
    }
    assert forall|i: int| 0 <= i < cs.len() implies !is_arg_changes(#[trigger] cs[i]) by {
        assert(is_internal_change(cs[i]));
    }
    assert(affected_by_changes(original, cs, name, updated) =~= Seq::<Seq<char>>::empty());
}


/// Whether no rule of the term mentions `name`.
pub open spec fn mentions_none_of(t: FatTermView, name: Seq<char>) -> bool {
    forall|i: int, j: int|
        0 <= i < t.rules.len() && 0 <= j < t.rules[i].body.len() ==> #[trigger] t.rules[i].body[j].name
            != name
}

/// A deleted term leaves no reference behind among the terms it was related
/// to: once its deletion is propagated, no stored term that referred to it
/// mentions it in its rules, and no stored term that it mentioned records it
/// among its referrers.
pub proof fn lemma_deletion_leaves_no_reference(s: Store, name: Seq<char>, original: FatTermView)
    ensures
        store_after_deletion(s, name, original).len() == s.len(),
        forall|i: int|
            0 <= i < s.len() && original.referred_by.contains(
                #[trigger] store_after_deletion(s, name, original)[i].0,
            ) ==> mentions_none_of(store_after_deletion(s, name, original)[i].1, name),
        forall|i: int|
            0 <= i < s.len() && rule_body_names(original.rules).contains(
                #[trigger] store_after_deletion(s, name, original)[i].0,
            ) ==> !store_after_deletion(s, name, original)[i].1.referred_by.contains(name),
{
    broadcast use vstd::seq_lib::group_filter_ensures;

    let mentioned = rule_body_names(original.rules);
    let s1 = modify_each(s, mentioned, without_referrer_fn(name));
    let r = store_after_deletion(s, name, original);
    let p_ref = |t: FatTermView| !t.referred_by.contains(name);
    let p_men = |t: FatTermView| mentions_none_of(t, name);
    assert forall|t: FatTermView| #[trigger] p_ref(without_referrer_fn(name)(t)) by {
        let pred = |x: Seq<char>| x != name;
        if t.referred_by.filter(pred).contains(name) {
            t.referred_by.lemma_filter_contains_rev(pred, name);
        }
    }
    assert forall|t: FatTermView| p_ref(t) implies #[trigger] p_ref(without_mentions_fn(name)(t)) by {}
    assert forall|t: FatTermView| #[trigger] p_men(without_mentions_fn(name)(t)) by {
        let u = without_mentions_fn(name)(t);
        let pred = |bt: BoundTermView| bt.name != name;
        assert forall|i: int, j: int|
            0 <= i < u.rules.len() && 0 <= j < u.rules[i].body.len() implies #[trigger] u.rules[i].body[j].name
            != name by {
            assert(u.rules[i].body == t.rules[i].body.filter(pred));
            t.rules[i].body.lemma_filter_pred(pred, j);
        }
    }
    lemma_modify_each_establishes(s, mentioned, without_referrer_fn(name), p_ref);
    lemma_modify_each_preserves(s1, original.referred_by, without_mentions_fn(name), p_ref);
    lemma_modify_each_establishes(s1, original.referred_by, without_mentions_fn(name), p_men);
    assert forall|i: int|
        0 <= i < s.len() && mentioned.contains(#[trigger] r[i].0) implies !r[i].1.referred_by.contains(
        name,
    ) by {
        assert(r[i].0 == s1[i].0);
        assert(s1[i].0 == s[i].0);
        assert(p_ref(s1[i].1));
        assert(p_ref(r[i].1));
    }
    assert forall|i: int|
        0 <= i < s.len() && original.referred_by.contains(#[trigger] r[i].0) implies mentions_none_of(
        r[i].1,
        name,
    ) by {
        assert(p_men(r[i].1));
    }
}


/// A renamed term leaves no reference to its old name behind among the
/// terms it is related to: once a renaming of `name` to `updated`'s name is
/// propagated, no stored term that refers to it mentions the old name in its
/// rules, and no stored term that it mentions records the old name among its
/// referrers.
pub proof fn lemma_rename_leaves_no_old_reference(s: Store, name: Seq<char>, updated: FatTermView)
    requires
        name != updated.name,
    ensures
        store_after_rename(s, name, updated).len() == s.len(),
        forall|i: int|
            0 <= i < s.len() && updated.referred_by.contains(
                #[trigger] store_after_rename(s, name, updated)[i].0,
            ) ==> mentions_none_of(store_after_rename(s, name, updated)[i].1, name),
        forall|i: int|
            0 <= i < s.len() && rule_body_names(updated.rules).contains(
                #[trigger] store_after_rename(s, name, updated)[i].0,
            ) ==> !store_after_rename(s, name, updated)[i].1.referred_by.contains(name),
{
    let new_name = updated.name;
    let mentioned = rule_body_names(updated.rules);
    let s1 = modify_each(s, mentioned, renamed_referrer_fn(name, new_name));
    let r = store_after_rename(s, name, updated);
    let p_ref = |t: FatTermView| !t.referred_by.contains(name);
    let p_men = |t: FatTermView| mentions_none_of(t, name);
    assert forall|t: FatTermView| #[trigger] p_ref(renamed_referrer_fn(name, new_name)(t)) by {
        let u = renamed_referrer_fn(name, new_name)(t);
        if u.referred_by.contains(name) {
            let k = choose|k: int| 0 <= k < u.referred_by.len() && u.referred_by[k] == name;
            assert(u.referred_by[k] == if t.referred_by[k] == name {
                new_name
            } else {
                t.referred_by[k]
            });
        }
    }
    assert forall|t: FatTermView| p_ref(t) implies #[trigger] p_ref(
        renamed_mentions_fn(name, new_name)(t),
    ) by {}
    assert forall|t: FatTermView| #[trigger] p_men(renamed_mentions_fn(name, new_name)(t)) by {
        let u = renamed_mentions_fn(name, new_name)(t);
        assert forall|i: int, j: int|
            0 <= i < u.rules.len() && 0 <= j < u.rules[i].body.len() implies #[trigger] u.rules[i].body[j].name
            != name by {
            let bt = t.rules[i].body[j];
            assert(u.rules[i].body[j] == if bt.name == name {
                BoundTermView { name: new_name, args: bt.args }
            } else {
                bt
            });
        }
    }
    lemma_modify_each_establishes(s, mentioned, renamed_referrer_fn(name, new_name), p_ref);
    lemma_modify_each_preserves(s1, updated.referred_by, renamed_mentions_fn(name, new_name), p_ref);
    lemma_modify_each_establishes(s1, updated.referred_by, renamed_mentions_fn(name, new_name), p_men);
    assert forall|i: int|
        0 <= i < s.len() && mentioned.contains(#[trigger] r[i].0) implies !r[i].1.referred_by.contains(
        name,
    ) by {
        assert(r[i].0 == s1[i].0);
        assert(s1[i].0 == s[i].0);
        assert(p_ref(s1[i].1));
        assert(p_ref(r[i].1));
    }
    assert forall|i: int|
        0 <= i < s.len() && updated.referred_by.contains(#[trigger] r[i].0) implies mentions_none_of(
        r[i].1,
        name,
    ) by {
        assert(p_men(r[i].1));
    }
}


/// The edit of a binding that a recorded change of a list stands for.
pub open spec fn list_edit<T>(c: ChangeView<T>) -> ListEdit {
    match c {
        ChangeView::Pushed => ListEdit::Pushed,
        ChangeView::Moved(order) => ListEdit::Moved(order),
        ChangeView::Removed(idx, _) => ListEdit::Removed(idx),
    }
}

/// Rebinding and replaying the same edits keep two sequences of one length
/// at one length.
proof fn lemma_rebinding_length<T>(r: Seq<Option<T>>, cs: Seq<ChangeView<T>>, b: Seq<Seq<char>>)
    requires
        r.len() == b.len(),
        edits_apply(cs.map_values(|c: ChangeView<T>| list_edit(c)), b),
    ensures
        bindings_after_edits(cs.map_values(|c: ChangeView<T>| list_edit(c)), b).len() == replay(
            r,
            cs,
        ).len(),
    decreases cs.len(),
{
    if cs.len() > 0 {
        let es = cs.map_values(|c: ChangeView<T>| list_edit(c));
        assert(es.drop_last() =~= cs.drop_last().map_values(|c: ChangeView<T>| list_edit(c)));
        lemma_rebinding_length(r, cs.drop_last(), b);
        assert(es.last() == list_edit(cs.last()));
    }
}

/// Bindings follow the list of arguments they bind: a binding that holds
/// one value per argument the list started from, rebound with the edits the
/// list recorded, holds one value per argument the list holds now (when no
/// reordering is pending).
pub proof fn lemma_rebinding_follows_the_list<T>(v: ChangeTrackingView<T>, base: Seq<T>, b: Seq<Seq<char>>)
    requires
        replays_to(v, base),
        !v.order_has_changed,
        b.len() == base.len(),
        edits_apply(v.changes.map_values(|c: ChangeView<T>| list_edit(c)), b),
    ensures
        bindings_after_edits(v.changes.map_values(|c: ChangeView<T>| list_edit(c)), b).len()
            == v.items.len(),
{
    lemma_rebinding_length(base.map_values(|x: T| Some(x)), v.changes, b);
}

/// Whether the change at position `k` edits the arguments with an edit at
/// position `j` that is not a move, that is, which adds or removes an
/// argument.
pub open spec fn argument_added_or_removed_at(cs: Seq<TermChange>, k: int, j: int) -> bool {
    &&& 0 <= k < cs.len()
    &&& cs[k] matches TermChange::ArgChanges(edits) && 0 <= j < edits@.len() && !(edits@[j] is Moved)
}

/// When changes need confirmation: a deletion always does; other changes do
/// exactly when some term refers to the changed one and one of the changes
/// pushes or removes an argument (every argument edit but a move). Moving
/// arguments, renaming, and changes of the description, facts or rules are
/// propagated without asking.
pub proof fn lemma_confirmation_exactly_for_added_or_removed_arguments(changes: Change)
    ensures
        confirmation_needed(changes) <==> match changes {
            Change::Deleted(_) => true,
            Change::Changes(cs, _, updated) => updated@.referred_by.len() > 0 && exists|k: int, j: int|
                #[trigger] argument_added_or_removed_at(cs@, k, j),
        },
{
    if let Change::Changes(cs, _, updated) = changes {
        let v = term_changes_view(cs@);
        if updated@.referred_by.len() > 0 {
            if confirmation_needed(changes) {
                let k = choose|k: int| 0 <= k < v.len() && adds_or_removes_argument(#[trigger] v[k]);
                assert(v[k] == cs@[k]@);
                if let TermChange::ArgChanges(edits) = cs@[k] {
                    let es = edits_of(edits@);
                    assert(v[k] == TermChangeView::ArgChanges(es));
                    let j = choose|j: int| 0 <= j < es.len() && adds_or_removes(#[trigger] es[j]);
                    assert(es[j] == edits@[j].edit());
                    assert(argument_added_or_removed_at(cs@, k, j));
                }
            }
            if exists|k: int, j: int| #[trigger] argument_added_or_removed_at(cs@, k, j) {
                let (k, j) = choose|k: int, j: int| #[trigger] argument_added_or_removed_at(cs@, k, j);
                if let TermChange::ArgChanges(edits) = cs@[k] {
                    let es = edits_of(edits@);
                    assert(v[k] == cs@[k]@);
                    assert(es[j] == edits@[j].edit());
                    assert(adds_or_removes(es[j]));
                    assert(adds_or_removes_argument(v[k]));
                }
            }
        }
    }
}

/// Whether the body of one of the rules mentions the term `n`.
pub open spec fn rules_mention(rules: Seq<RuleView>, n: Seq<char>) -> bool {
    exists|i: int, j: int|
        0 <= i < rules.len() && 0 <= j < rules[i].body.len() && (#[trigger] rules[i].body[j]).name == n
}

/// The names collected from the rules' bodies are the names the bodies
/// mention.
pub proof fn lemma_rule_body_names_mentions(rules: Seq<RuleView>, n: Seq<char>)
    ensures
        rule_body_names(rules).contains(n) <==> rules_mention(rules, n),
    decreases rules.len(),
{
    if rules.len() > 0 {
        let init = rules.drop_last();
        let last = rules.last().body.map_values(|bt: BoundTermView| bt.name);
        lemma_rule_body_names_mentions(init, n);
        let names = rule_body_names(rules);
        assert(names == rule_body_names(init) + last);
        if names.contains(n) {
            let k = choose|k: int| 0 <= k < names.len() && names[k] == n;
            if k < rule_body_names(init).len() {
                assert(rule_body_names(init)[k] == n);
                let (i, j) = choose|i: int, j: int|
                    0 <= i < init.len() && 0 <= j < init[i].body.len() && (#[trigger] init[i].body[j]).name == n;
                assert(rules[i] == init[i]);
            } else {
                let j = k - rule_body_names(init).len();
                assert(last[j] == n);
                assert(rules[rules.len() - 1].body[j].name == n);
            }
        }
        if rules_mention(rules, n) {
            let (i, j) = choose|i: int, j: int|
                0 <= i < rules.len() && 0 <= j < rules[i].body.len() && (#[trigger] rules[i].body[j]).name == n;
            if i < rules.len() - 1 {
                assert(init[i] == rules[i]);
                assert(init[i].body[j].name == n);
                assert(rule_body_names(init).contains(n));
                let k = choose|k: int| 0 <= k < rule_body_names(init).len() && rule_body_names(init)[k] == n;
                assert(names[k] == n);
            } else {
                assert(last[j] == n);
                assert(names[rule_body_names(init).len() + j] == n);
            }
        }
    }
}

/// A term is among those mentioned by a term exactly when one of its
/// rules' bodies mentions it.
pub proof fn lemma_mentioned_terms_contains(t: FatTermView, n: Seq<char>)
    ensures
        mentioned_terms(t).contains(n) <==> rules_mention(t.rules, n),
{
    lemma_distinct(rule_body_names(t.rules));
    lemma_rule_body_names_mentions(t.rules, n);
}

/// The terms affected by the rule changes of a sequence are the terms
/// mentioned after or before but not both, when some change edits the
/// rules, and none otherwise.
proof fn lemma_rule_change_affected_contains(
    cs: Seq<TermChangeView>,
    original: FatTermView,
    updated: FatTermView,
    n: Seq<char>,
)
    ensures
        rule_change_affected(cs, original, updated).contains(n) <==> ((exists|k: int|
            0 <= k < cs.len() && (#[trigger] cs[k]) is RuleChanges) && (mention_changes(original, updated).0.contains(n)
            || mention_changes(original, updated).1.contains(n))),
    decreases cs.len(),
{
    if cs.len() > 0 {
        let init = cs.drop_last();
        lemma_rule_change_affected_contains(init, original, updated, n);
        let m = mention_changes(original, updated).0 + mention_changes(original, updated).1;
        lemma_seq_concat_contains(mention_changes(original, updated).0, mention_changes(original, updated).1, n);
        let tail = if cs.last() is RuleChanges {
            m
        } else {
            Seq::empty()
        };
        lemma_seq_concat_contains(rule_change_affected(init, original, updated), tail, n);
        if exists|k: int| 0 <= k < init.len() && (#[trigger] init[k]) is RuleChanges {
            let k = choose|k: int| 0 <= k < init.len() && (#[trigger] init[k]) is RuleChanges;
            assert(cs[k] == init[k]);
        }
        if exists|k: int| 0 <= k < cs.len() && (#[trigger] cs[k]) is RuleChanges {
            let k = choose|k: int| 0 <= k < cs.len() && (#[trigger] cs[k]) is RuleChanges;
            if k < cs.len() - 1 {
                assert(init[k] == cs[k]);
            }
        }
    }
}

/// An element is in two sequences joined exactly when it is in one of them.
proof fn lemma_seq_concat_contains<A>(a: Seq<A>, b: Seq<A>, x: A)
    ensures
        (a + b).contains(x) <==> (a.contains(x) || b.contains(x)),
{
    if (a + b).contains(x) {
        let k = choose|k: int| 0 <= k < (a + b).len() && (a + b)[k] == x;
        if k < a.len() {
            assert(a[k] == x);
        } else {
            assert(b[k - a.len()] == x);
        }
    }
    if a.contains(x) {
        let k = choose|k: int| 0 <= k < a.len() && a[k] == x;
        assert((a + b)[k] == x);
    }
    if b.contains(x) {
        let k = choose|k: int| 0 <= k < b.len() && b[k] == x;
        assert((a + b)[a.len() + k] == x);
    }
}

/// Which terms the outcome of editing `original` affects. For a deletion:
/// exactly the terms its rules mention and the terms that refer to it. For
/// other changes, with `renamed` when the name changed: the terms that
/// refer to the updated term when it was renamed or its arguments were
/// edited; every term mentioned by the rules before or after when it was
/// renamed; and, when it was not renamed but its rules were edited, every
/// term mentioned before and not after or after and not before. No other
/// term is affected.
pub proof fn lemma_affected_terms_are_exactly(original: FatTermView, changes: Change, n: Seq<char>)
    ensures
        affected_terms(original, changes).contains(n) <==> match changes {
            Change::Deleted(_) => rules_mention(original.rules, n) || original.referred_by.contains(n),
            Change::Changes(cs, name, updated) => {
                let renamed = name@ != updated@.name;
                let args_edited = exists|k: int| 0 <= k < cs@.len() && (#[trigger] cs@[k]) is ArgChanges;
                let rules_edited = exists|k: int| 0 <= k < cs@.len() && (#[trigger] cs@[k]) is RuleChanges;
                let before = rules_mention(original.rules, n);
                let after = rules_mention(updated@.rules, n);
                ||| (renamed || args_edited) && updated@.referred_by.contains(n)
                ||| renamed && (before || after)
                ||| !renamed && rules_edited && before != after
            },
        },
{
    broadcast use vstd::seq_lib::group_filter_ensures;

    match changes {
        Change::Deleted(_) => {
            lemma_seq_concat_contains(mentioned_terms(original), original.referred_by, n);
            lemma_mentioned_terms_contains(original, n);
        },
        Change::Changes(cs, name, updated) => {
            let v = term_changes_view(cs@);
            let u = updated@;
            let renamed = name@ != u.name;
            let old_m = mentioned_terms(original);
            let new_m = mentioned_terms(u);
            lemma_mentioned_terms_contains(original, n);
            lemma_mentioned_terms_contains(u, n);
            lemma_distinct(rule_body_names(original.rules));
            lemma_distinct(rule_body_names(u.rules));
            lemma_mention_changes(original, u);
            lemma_rule_body_names_mentions(original.rules, n);
            lemma_rule_body_names_mentions(u.rules, n);
            lemma_rule_change_affected_contains(v, original, u, n);
            assert((exists|k: int| 0 <= k < v.len() && (#[trigger] v[k]) is RuleChanges) <==> (exists|k: int|
                0 <= k < cs@.len() && (#[trigger] cs@[k]) is RuleChanges)) by {
                if exists|k: int| 0 <= k < v.len() && (#[trigger] v[k]) is RuleChanges {
                    let k = choose|k: int| 0 <= k < v.len() && (#[trigger] v[k]) is RuleChanges;
                    assert(v[k] == cs@[k]@);
                }
                if exists|k: int| 0 <= k < cs@.len() && (#[trigger] cs@[k]) is RuleChanges {
                    let k = choose|k: int| 0 <= k < cs@.len() && (#[trigger] cs@[k]) is RuleChanges;
                    assert(v[k] == cs@[k]@);
                }
            }
            assert((exists|k: int| 0 <= k < v.len() && is_arg_changes(#[trigger] v[k])) <==> (exists|k: int|
                0 <= k < cs@.len() && (#[trigger] cs@[k]) is ArgChanges)) by {
                if exists|k: int| 0 <= k < v.len() && is_arg_changes(#[trigger] v[k]) {
                    let k = choose|k: int| 0 <= k < v.len() && is_arg_changes(#[trigger] v[k]);
                    assert(v[k] == cs@[k]@);
                }
                if exists|k: int| 0 <= k < cs@.len() && (#[trigger] cs@[k]) is ArgChanges {
                    let k = choose|k: int| 0 <= k < cs@.len() && (#[trigger] cs@[k]) is ArgChanges;
                    assert(v[k] == cs@[k]@);
                }
            }
            let only_new = new_m.filter(|x: Seq<char>| !old_m.contains(x));
            assert(only_new.contains(n) <==> (new_m.contains(n) && !old_m.contains(n))) by {
                if only_new.contains(n) {
                    let k = choose|k: int| 0 <= k < only_new.len() && only_new[k] == n;
                    assert(new_m.contains(only_new[k]));
                }
                if new_m.contains(n) && !old_m.contains(n) {
                    let k = choose|k: int| 0 <= k < new_m.len() && new_m[k] == n;
                    new_m.lemma_filter_contains(|x: Seq<char>| !old_m.contains(x), k);
                }
            }
            lemma_seq_concat_contains(old_m, only_new, n);
            let a = if renamed {
                Seq::empty()
            } else {
                rule_change_affected(v, original, u)
            };
            let b = if renamed || exists|i: int| 0 <= i < v.len() && is_arg_changes(#[trigger] v[i]) {
                u.referred_by
            } else {
                Seq::empty()
            };
            let c = if renamed {
                old_m + only_new
            } else {
                Seq::empty()
            };
            assert(affected_terms(original, changes) == a + b + c);
            lemma_seq_concat_contains(a + b, c, n);
            lemma_seq_concat_contains(a, b, n);
        },
    }
}

} // verus!

