//! The screen on which one version of a term is edited: its parts are held
//! in lists that record how they were edited, and an editing session ends
//! with the list of the kinds of changes it made.
use vstd::prelude::*;
use crate::change_tracking_list::{self, after_push, after_remove, ChangeTrackingView, ChangeView};
use crate::change_propagator::{apply_head_args_change, binding_after_edit, edit_applies, rule_after_head_edit};
use crate::drag_and_drop::{
    self, landing_position, move_allowed, single_move_order, DragAndDrop, DragAndDropView, ListEdit,
};
use crate::model::{
    copy_strings, strings_view, ArgsBinding, Comment, FatTerm, FatTermView, NameDescription, Rule,
    RuleView, Term,
};
use crate::placeholder::{
    fresh_rule_placeholder, rule_of, FactPlaceholder, RulePlaceholder, RulePlaceholderView,
};

verus! {

/// One kind of change that an editing session made to a term.
pub enum EditChange {
    Rename,
    DescriptionChange,
    FactsChange,
    ArgRename,
    /// The arguments were pushed, moved or removed, by these edits in order.
    ArgChanges(Vec<change_tracking_list::Change<NameDescription>>),
    RuleChanges,
}

/// The mathematical value of an [`EditChange`].
pub enum EditChangeView {
    Rename,
    DescriptionChange,
    FactsChange,
    ArgRename,
    ArgChanges(Seq<ChangeView<NameDescription>>),
    RuleChanges,
}

impl View for EditChange {
    type V = EditChangeView;

    open spec fn view(&self) -> EditChangeView {
        match self {
            EditChange::Rename => EditChangeView::Rename,
            EditChange::DescriptionChange => EditChangeView::DescriptionChange,
            EditChange::FactsChange => EditChangeView::FactsChange,
            EditChange::ArgRename => EditChangeView::ArgRename,
            EditChange::ArgChanges(cs) => EditChangeView::ArgChanges(
                cs@.map_values(|c: change_tracking_list::Change<NameDescription>| c@),
            ),
            EditChange::RuleChanges => EditChangeView::RuleChanges,
        }
    }
}

/// The mathematical value of a [`TermScreenPIT`].
pub struct EditScreenView {
    /// The name the term had when the editing session began.
    pub original_name: Seq<char>,
    pub name: Seq<char>,
    pub desc: Seq<char>,
    pub arguments: DragAndDropView<NameDescription>,
    pub rules: DragAndDropView<Rule>,
    pub facts: DragAndDropView<ArgsBinding>,
    /// The names of the terms that refer to the term.
    pub related: Seq<Seq<char>>,
    pub fact_placeholder: Seq<Seq<char>>,
    /// The fact taken out of the facts to be edited, if any.
    pub fact_editing: Option<Seq<Seq<char>>>,
    pub rule_placeholder: RulePlaceholderView,
    /// The rule taken out of the rules to be edited, if any.
    pub rule_editing: Option<RulePlaceholderView>,
    pub arg_placeholder: (Seq<char>, Seq<char>),
    /// Whether an argument was renamed.
    pub arg_rename: bool,
    /// Whether the description was changed.
    pub description_change: bool,
}

/// The term a screen shows.
pub open spec fn term_of(v: EditScreenView) -> FatTermView {
    FatTermView {
        name: v.name,
        desc: v.desc,
        args: v.arguments.list.items.map_values(|a: NameDescription| a@),
        referred_by: v.related,
        facts: v.facts.list.items.map_values(|f: ArgsBinding| f@),
        rules: v.rules.list.items.map_values(|r: Rule| r@),
    }
}

/// The kinds of changes an editing session made, in this order: a new name,
/// renamed arguments, a new description, edited facts, edited arguments
/// (with their edits), edited rules.
pub open spec fn edit_changes(v: EditScreenView) -> Seq<EditChangeView> {
    (if v.original_name != v.name {
        seq![EditChangeView::Rename]
    } else {
        Seq::empty()
    }) + (if v.arg_rename {
        seq![EditChangeView::ArgRename]
    } else {
        Seq::empty()
    }) + (if v.description_change {
        seq![EditChangeView::DescriptionChange]
    } else {
        Seq::empty()
    }) + (if v.facts.list.changes.len() > 0 {
        seq![EditChangeView::FactsChange]
    } else {
        Seq::empty()
    }) + (if v.arguments.list.changes.len() > 0 {
        seq![EditChangeView::ArgChanges(v.arguments.list.changes)]
    } else {
        Seq::empty()
    }) + (if v.rules.list.changes.len() > 0 {
        seq![EditChangeView::RuleChanges]
    } else {
        Seq::empty()
    })
}

/// Whether an edit of the arguments can be applied to every rule's head and
/// every fact.
pub open spec fn heads_accept(v: EditScreenView, e: ListEdit) -> bool {
    &&& forall|i: int|
        0 <= i < v.rules.list.items.len() ==> edit_applies(e, #[trigger] v.rules.list.items[i]@.head)
    &&& forall|i: int| 0 <= i < v.facts.list.items.len() ==> edit_applies(e, #[trigger] v.facts.list.items[i]@)
}

/// The rules and facts of `after` are those of `before` with an edit of the
/// arguments applied to every rule's head and every fact, in place: the
/// lists record no edit for it.
pub open spec fn heads_edited(before: EditScreenView, after: EditScreenView, e: ListEdit) -> bool {
    &&& after.rules.list.items.map_values(|r: Rule| r@) == before.rules.list.items.map_values(
        |r: Rule| r@,
    ).map_values(|r: RuleView| rule_after_head_edit(r, e))
    &&& after.facts.list.items.map_values(|f: ArgsBinding| f@) == before.facts.list.items.map_values(
        |f: ArgsBinding| f@,
    ).map_values(|f: Seq<Seq<char>>| binding_after_edit(e, f))
    &&& after.rules == DragAndDropView {
        list: ChangeTrackingView { items: after.rules.list.items, ..before.rules.list },
        ..before.rules
    }
    &&& after.facts == DragAndDropView {
        list: ChangeTrackingView { items: after.facts.list.items, ..before.facts.list },
        ..before.facts
    }
}

/// A list that is no longer editable and whose edits were taken.
pub open spec fn locked<T>(d: DragAndDropView<T>) -> DragAndDropView<T> {
    DragAndDropView { active: false, list: ChangeTrackingView { changes: Seq::empty(), ..d.list } }
}

/// A list that is editable.
pub open spec fn unlocked<T>(d: DragAndDropView<T>) -> DragAndDropView<T> {
    DragAndDropView { active: true, ..d }
}

/// Copies rules.
fn copy_rules(v: &Vec<Rule>) -> (res: Vec<Rule>)
    ensures
        res@.map_values(|r: Rule| r@) == v@.map_values(|r: Rule| r@),
{
    let mut res: Vec<Rule> = Vec::new();
    let mut i: usize = 0;
    while i < v.len()
        invariant
            i <= v@.len(),
            res@.len() == i,
            forall|j: int| 0 <= j < i ==> #[trigger] res@[j]@ == v@[j]@,
        decreases v@.len() - i,
    {
        res.push(v[i].copy());
        i = i + 1;
    }
    assert(res@.map_values(|r: Rule| r@) =~= v@.map_values(|r: Rule| r@));
    res
}

/// Copies facts.
fn copy_facts(v: &Vec<ArgsBinding>) -> (res: Vec<ArgsBinding>)
    ensures
        res@.map_values(|f: ArgsBinding| f@) == v@.map_values(|f: ArgsBinding| f@),
{
    let mut res: Vec<ArgsBinding> = Vec::new();
    let mut i: usize = 0;
    while i < v.len()
        invariant
            i <= v@.len(),
            res@.len() == i,
            forall|j: int| 0 <= j < i ==> #[trigger] res@[j]@ == v@[j]@,
        decreases v@.len() - i,
    {
        res.push(v[i].copy());
        i = i + 1;
    }
    assert(res@.map_values(|f: ArgsBinding| f@) =~= v@.map_values(|f: ArgsBinding| f@));
    res
}

/// Copies arguments.
fn copy_args(v: &Vec<NameDescription>) -> (res: Vec<NameDescription>)
    ensures
        res@.map_values(|a: NameDescription| a@) == v@.map_values(|a: NameDescription| a@),
{
    let mut res: Vec<NameDescription> = Vec::new();
    let mut i: usize = 0;
    while i < v.len()
        invariant
            i <= v@.len(),
            res@.len() == i,
            forall|j: int| 0 <= j < i ==> #[trigger] res@[j]@ == v@[j]@,
        decreases v@.len() - i,
    {
        res.push(v[i].copy());
        i = i + 1;
    }
    assert(res@.map_values(|a: NameDescription| a@) =~= v@.map_values(|a: NameDescription| a@));
    res
}

/// The edit screen of one version of a term.
pub struct TermScreenPIT {
    original_term_name: String,
    name: String,
    desc: String,
    arguments: DragAndDrop<NameDescription>,
    rules: DragAndDrop<Rule>,
    facts: DragAndDrop<ArgsBinding>,
    related: Vec<String>,
    fact_placeholder: FactPlaceholder,
    fact_editing: Option<FactPlaceholder>,
    rule_placeholder: RulePlaceholder,
    rule_editing: Option<RulePlaceholder>,
    arg_placeholder: NameDescription,
    arg_rename: bool,
    description_change: bool,
}

impl View for TermScreenPIT {
    type V = EditScreenView;

    closed spec fn view(&self) -> EditScreenView {
        EditScreenView {
            original_name: self.original_term_name@,
            name: self.name@,
            desc: self.desc@,
            arguments: self.arguments@,
            rules: self.rules@,
            facts: self.facts@,
            related: strings_view(self.related@),
            fact_placeholder: self.fact_placeholder@,
            fact_editing: match self.fact_editing {
                Some(p) => Some(p@),
                None => None,
            },
            rule_placeholder: self.rule_placeholder@,
            rule_editing: match self.rule_editing {
                Some(p) => Some(p@),
                None => None,
            },
            arg_placeholder: self.arg_placeholder@,
            arg_rename: self.arg_rename,
            description_change: self.description_change,
        }
    }
}

impl TermScreenPIT {
    /// Validity: the lists of the term's parts are valid.
    pub closed spec fn wf(&self) -> bool {
        &&& self.arguments.wf()
        &&& self.rules.wf()
        &&& self.facts.wf()
    }

    /// The edit screen of `term`, not yet editable, with empty placeholders.
    pub fn new(term: &FatTerm) -> (res: Self)
        ensures
            res.wf(),
            term_of(res@) == term@,
            res@.original_name == term@.name,
            !res@.arguments.active && !res@.rules.active && !res@.facts.active,
            res@.arguments.list.changes.len() == 0,
            res@.rules.list.changes.len() == 0,
            res@.facts.list.changes.len() == 0,
            !res@.arguments.list.order_has_changed && !res@.rules.list.order_has_changed
                && !res@.facts.list.order_has_changed,
            res@.fact_placeholder == Seq::<Seq<char>>::empty(),
            res@.fact_editing is None,
            res@.rule_placeholder == fresh_rule_placeholder(),
            res@.rule_editing is None,
            res@.arg_placeholder == (Seq::<char>::empty(), Seq::<char>::empty()),
            !res@.arg_rename,
            !res@.description_change,
    {
        let no_values: Vec<String> = Vec::new();
        let res = Self {
            original_term_name: term.meta.term.name.clone(),
            name: term.meta.term.name.clone(),
            desc: term.meta.term.desc.clone(),
            arguments: DragAndDrop::new(copy_args(&term.meta.args)),
            rules: DragAndDrop::new(copy_rules(&term.term.rules)),
            facts: DragAndDrop::new(copy_facts(&term.term.facts)),
            related: copy_strings(&term.meta.referred_by),
            fact_placeholder: FactPlaceholder::new(no_values.as_slice()),
            fact_editing: None,
            rule_placeholder: RulePlaceholder::new(),
            rule_editing: None,
            arg_placeholder: NameDescription { name: String::new(), desc: String::new() },
            arg_rename: false,
            description_change: false,
        };
        assert(res@.fact_placeholder =~= Seq::<Seq<char>>::empty());
        assert(term_of(res@) == term@);
        res
    }

    /// The name of the term as edited.
    pub fn name(&self) -> (res: String)
        ensures
            res@ == self@.name,
    {
        self.name.clone()
    }

    /// The term as edited.
    pub fn extract_term(&self) -> (res: FatTerm)
        requires
            self.wf(),
        ensures
            res@ == term_of(self@),
    {
        let res = FatTerm::new(
            Comment::new(
                NameDescription { name: self.name.clone(), desc: self.desc.clone() },
                copy_args(self.arguments.items()),
                copy_strings(&self.related),
            ),
            Term::new(copy_facts(self.facts.items()), copy_rules(self.rules.items())),
        );
        assert(res@ == term_of(self@));
        res
    }

    /// Begins an editing session: the name the term has now is remembered
    /// and its arguments, rules and facts become editable.
    pub fn start_changes(&mut self)
        requires
            old(self).wf(),
        ensures
            final(self).wf(),
            final(self)@ == (EditScreenView {
                original_name: old(self)@.name,
                arguments: unlocked(old(self)@.arguments),
                rules: unlocked(old(self)@.rules),
                facts: unlocked(old(self)@.facts),
                ..old(self)@
            }),
    {
        self.original_term_name = self.name.clone();
        self.arguments.unlock();
        self.rules.unlock();
        self.facts.unlock();
    }

    /// Ends an editing session: the lists are no longer editable, their
    /// edits are taken, the placeholders are emptied, and the kinds of
    /// changes made are handed out with the term as edited, unless nothing
    /// changed; after a change, the term's current name counts as its name
    /// before the next session.
    #[verifier::spinoff_prover]
    #[verifier::rlimit(40)]
    pub fn finish_changes(&mut self) -> (res: Option<(Vec<EditChange>, FatTerm)>)
        requires
            old(self).wf(),
        ensures
            final(self).wf(),
            ({
                let v = old(self)@;
                let changed = edit_changes(v).len() > 0;
                &&& final(self)@ == (EditScreenView {
                    original_name: if changed {
                        v.name
                    } else {
                        v.original_name
                    },
                    arguments: locked(v.arguments),
                    rules: locked(v.rules),
                    facts: locked(v.facts),
                    fact_placeholder: Seq::empty(),
                    rule_placeholder: fresh_rule_placeholder(),
                    arg_placeholder: (Seq::empty(), Seq::empty()),
                    arg_rename: false,
                    description_change: false,
                    ..v
                })
                &&& match res {
                    Some((changes, term)) => changed && changes@.map_values(|c: EditChange| c@)
                        == edit_changes(v) && term@ == term_of(v),
                    None => !changed,
                }
            }),
    {
        let ghost v = self@;
        let mut changes: Vec<EditChange> = Vec::new();
        if self.original_term_name != self.name {
            changes.push(EditChange::Rename);
        }
        if self.arg_rename {
            changes.push(EditChange::ArgRename);
            self.arg_rename = false;
        }
        if self.description_change {
            changes.push(EditChange::DescriptionChange);
            self.description_change = false;
        }
        let ghost before_facts = changes@;
        let facts_changes = self.facts.lock();
        if facts_changes.len() > 0 {
            changes.push(EditChange::FactsChange);
        }
        let argument_changes = self.arguments.lock();
        let ghost arg_edits = argument_changes@.map_values(
            |c: change_tracking_list::Change<NameDescription>| c@,
        );
        let ghost before_args = changes@;
        if argument_changes.len() > 0 {
            changes.push(EditChange::ArgChanges(argument_changes));
            assert(changes@.last()@ == EditChangeView::ArgChanges(v.arguments.list.changes));
        }
        let rules_changes = self.rules.lock();
        if rules_changes.len() > 0 {
            changes.push(EditChange::RuleChanges);
        }
        let no_values: Vec<String> = Vec::new();
        self.rule_placeholder = RulePlaceholder::new();
        self.fact_placeholder = FactPlaceholder::new(no_values.as_slice());
        self.arg_placeholder = NameDescription { name: String::new(), desc: String::new() };
        assert(self@.fact_placeholder =~= Seq::<Seq<char>>::empty());
        assert(changes@.map_values(|c: EditChange| c@) =~= edit_changes(v));
        if changes.len() > 0 {
            let updated_term = self.extract_term();
            self.original_term_name = self.name.clone();
            assert(updated_term@ == term_of(v));
            return Some((changes, updated_term));
        }
        None
    }

    /// Takes the fact at `idx` out of the facts (the removal is recorded)
    /// and into a placeholder, to edit it.
    pub fn edit_fact(&mut self, idx: usize)
        requires
            old(self).wf(),
            idx < old(self)@.facts.list.items.len(),
            old(self)@.fact_editing is None,
        ensures
            final(self).wf(),
            final(self)@ == (EditScreenView {
                facts: DragAndDropView { list: after_remove(old(self)@.facts.list, idx), ..old(self)@.facts },
                fact_editing: Some(old(self)@.facts.list.items[idx as int]@),
                ..old(self)@
            }),
    {
        let fact = self.facts.items()[idx].copy();
        self.facts.remove(idx);
        self.fact_editing = Some(FactPlaceholder::new(fact.binding.as_slice()));
    }

    /// Puts the fact being edited back at the end of the facts (the push is
    /// recorded).
    pub fn finish_fact_edit(&mut self)
        requires
            old(self).wf(),
            old(self)@.fact_editing is Some,
        ensures
            final(self).wf(),
            final(self)@.facts.list.items.len() == old(self)@.facts.list.items.len() + 1,
            final(self)@.facts.list.items.last()@ == old(self)@.fact_editing->Some_0,
            final(self)@ == (EditScreenView {
                facts: DragAndDropView {
                    list: after_push(old(self)@.facts.list, final(self)@.facts.list.items.last()),
                    ..old(self)@.facts
                },
                fact_editing: None,
                ..old(self)@
            }),
    {
        let mut editing: Option<FactPlaceholder> = None;
        std::mem::swap(&mut editing, &mut self.fact_editing);
        match editing {
            Some(mut placeholder) => {
                let fact = placeholder.take_fact();
                self.facts.push(fact);
            },
            None => {},
        }
    }

    /// Adds the fact written in the fact placeholder at the end of the facts
    /// (the push is recorded), and empties the placeholder.
    pub fn add_fact(&mut self)
        requires
            old(self).wf(),
        ensures
            final(self).wf(),
            final(self)@.facts.list.items.len() == old(self)@.facts.list.items.len() + 1,
            final(self)@.facts.list.items.last()@ == old(self)@.fact_placeholder,
            final(self)@ == (EditScreenView {
                facts: DragAndDropView {
                    list: after_push(old(self)@.facts.list, final(self)@.facts.list.items.last()),
                    ..old(self)@.facts
                },
                fact_placeholder: Seq::empty(),
                ..old(self)@
            }),
    {
        let fact = self.fact_placeholder.take_fact();
        self.facts.push(fact);
    }

    /// Takes the rule at `idx` out of the rules (the removal is recorded)
    /// and into a placeholder, to edit it.
    pub fn edit_rule(&mut self, idx: usize)
        requires
            old(self).wf(),
            idx < old(self)@.rules.list.items.len(),
            old(self)@.rule_editing is None,
        ensures
            final(self).wf(),
            final(self)@.rule_editing matches Some(p) && p.head == old(self)@.rules.list.items[idx as int]@.head
                && p.body == old(self)@.rules.list.items[idx as int]@.body.map_values(
                |b: crate::model::BoundTermView| (b.name, b.args),
            ),
            final(self)@ == (EditScreenView {
                rules: DragAndDropView { list: after_remove(old(self)@.rules.list, idx), ..old(self)@.rules },
                rule_editing: final(self)@.rule_editing,
                ..old(self)@
            }),
    {
        let rule = self.rules.items()[idx].copy();
        self.rules.remove(idx);
        self.rule_editing = Some(RulePlaceholder::from_rule(rule));
    }

    /// Puts the rule being edited back at the end of the rules (the push is
    /// recorded): its head, and its body terms that have a name.
    pub fn finish_rule_edit(&mut self)
        requires
            old(self).wf(),
            old(self)@.rule_editing is Some,
        ensures
            final(self).wf(),
            final(self)@.rules.list.items.len() == old(self)@.rules.list.items.len() + 1,
            final(self)@.rules.list.items.last()@ == rule_of(old(self)@.rule_editing->Some_0),
            final(self)@ == (EditScreenView {
                rules: DragAndDropView {
                    list: after_push(old(self)@.rules.list, final(self)@.rules.list.items.last()),
                    ..old(self)@.rules
                },
                rule_editing: None,
                ..old(self)@
            }),
    {
        let mut editing: Option<RulePlaceholder> = None;
        std::mem::swap(&mut editing, &mut self.rule_editing);
        match editing {
            Some(placeholder) => {
                let rule = placeholder.into_rule();
                self.rules.push(rule);
            },
            None => {},
        }
    }

    /// Adds the rule written in the rule placeholder at the end of the rules
    /// (the push is recorded), and starts the placeholder over.
    pub fn add_rule(&mut self)
        requires
            old(self).wf(),
        ensures
            final(self).wf(),
            final(self)@.rules.list.items.len() == old(self)@.rules.list.items.len() + 1,
            final(self)@.rules.list.items.last()@ == rule_of(old(self)@.rule_placeholder),
            final(self)@ == (EditScreenView {
                rules: DragAndDropView {
                    list: after_push(old(self)@.rules.list, final(self)@.rules.list.items.last()),
                    ..old(self)@.rules
                },
                rule_placeholder: fresh_rule_placeholder(),
                ..old(self)@
            }),
    {
        let rule = self.rule_placeholder.take_rule();
        self.rules.push(rule);
    }

    /// Applies an edit of the arguments to every rule's head and every fact.
    fn apply_to_heads(&mut self, change: &drag_and_drop::Change<NameDescription>)
        requires
            old(self).wf(),
            heads_accept(old(self)@, change.edit()),
        ensures
            final(self).wf(),
            heads_edited(old(self)@, final(self)@, change.edit()),
            final(self)@ == (EditScreenView {
                rules: final(self)@.rules,
                facts: final(self)@.facts,
                ..old(self)@
            }),
    {
        let mut edited = FatTerm::new(
            Comment::new(
                NameDescription { name: String::new(), desc: String::new() },
                Vec::new(),
                Vec::new(),
            ),
            Term::new(copy_facts(self.facts.items()), copy_rules(self.rules.items())),
        );
        assert forall|i: int| 0 <= i < edited@.rules.len() implies edit_applies(
            change.edit(),
            #[trigger] edited@.rules[i].head,
        ) by {
            assert(edited@.rules[i] == self@.rules.list.items[i]@);
        }
        assert forall|i: int| 0 <= i < edited@.facts.len() implies edit_applies(
            change.edit(),
            #[trigger] edited@.facts[i],
        ) by {
            assert(edited@.facts[i] == self@.facts.list.items[i]@);
        }
        let ghost before = edited@;
        apply_head_args_change(&mut edited, change);
        assert(edited@.rules.len() == before.rules.len());
        assert(edited@.facts.len() == before.facts.len());
        assert(edited@.rules.len() == edited.term.rules@.len());
        assert(edited@.facts.len() == edited.term.facts@.len());
        assert(before.rules.len() == self.rules@.list.items.len());
        assert(before.facts.len() == self.facts@.list.items.len());
        let FatTerm { meta: _, term: Term { facts, rules } } = edited;
        self.rules.update_items(rules);
        self.facts.update_items(facts);
        assert(self@.rules.list.items.map_values(|r: Rule| r@) =~= old(self)@.rules.list.items.map_values(
            |r: Rule| r@,
        ).map_values(|r: RuleView| rule_after_head_edit(r, change.edit())));
        assert(self@.facts.list.items.map_values(|f: ArgsBinding| f@) =~= old(self)@.facts.list.items.map_values(
            |f: ArgsBinding| f@,
        ).map_values(|f: Seq<Seq<char>>| binding_after_edit(change.edit(), f)));
    }

    /// Adds the argument written in the argument placeholder, which is
    /// emptied; every rule's head and every fact get one more value, `_`.
    pub fn add_argument(&mut self)
        requires
            old(self).wf(),
        ensures
            final(self).wf(),
            final(self)@.arguments.list.items.len() == old(self)@.arguments.list.items.len() + 1,
            final(self)@.arguments.list.items.last()@ == old(self)@.arg_placeholder,
            final(self)@.arguments == (DragAndDropView {
                list: after_push(old(self)@.arguments.list, final(self)@.arguments.list.items.last()),
                ..old(self)@.arguments
            }),
            heads_edited(old(self)@, final(self)@, ListEdit::Pushed),
            final(self)@ == (EditScreenView {
                arguments: final(self)@.arguments,
                rules: final(self)@.rules,
                facts: final(self)@.facts,
                arg_placeholder: (Seq::empty(), Seq::empty()),
                ..old(self)@
            }),
    {
        let mut arg = NameDescription { name: String::new(), desc: String::new() };
        std::mem::swap(&mut arg, &mut self.arg_placeholder);
        self.arguments.push(arg.copy());
        self.apply_to_heads(&drag_and_drop::Change::Pushed(arg));
    }

    /// Removes the argument at `idx`; every rule's head and every fact lose
    /// the value at `idx`, and in a rule's body the removed head value
    /// becomes `_`.
    pub fn remove_argument(&mut self, idx: usize)
        requires
            old(self).wf(),
            idx < old(self)@.arguments.list.items.len(),
            heads_accept(old(self)@, ListEdit::Removed(idx)),
        ensures
            final(self).wf(),
            final(self)@.arguments == (DragAndDropView {
                list: after_remove(old(self)@.arguments.list, idx),
                ..old(self)@.arguments
            }),
            heads_edited(old(self)@, final(self)@, ListEdit::Removed(idx)),
            final(self)@ == (EditScreenView {
                arguments: final(self)@.arguments,
                rules: final(self)@.rules,
                facts: final(self)@.facts,
                ..old(self)@
            }),
    {
        let removed = self.arguments.items()[idx].copy();
        self.arguments.remove(idx);
        assert(self@.rules == old(self)@.rules && self@.facts == old(self)@.facts);
        self.apply_to_heads(&drag_and_drop::Change::Removed(idx, removed));
    }

    /// Drops the argument dragged from `from` at position `target`; when it
    /// moves, every rule's head and every fact have their values moved the
    /// same way.
    pub fn drag_argument(&mut self, from: usize, target: usize)
        requires
            old(self).wf(),
            from < old(self)@.arguments.list.items.len(),
            old(self)@.arguments.active ==> move_allowed(
                old(self)@.arguments.list,
                from as int,
                landing_position(old(self)@.arguments.list.items.len(), target as nat) as int,
            ),
            old(self)@.arguments.active ==> forall|i: int|
                0 <= i < old(self)@.rules.list.items.len() ==> (
                #[trigger] old(self)@.rules.list.items[i])@.head.len()
                    >= old(self)@.arguments.list.items.len(),
            old(self)@.arguments.active ==> forall|i: int|
                0 <= i < old(self)@.facts.list.items.len() ==> (
                #[trigger] old(self)@.facts.list.items[i])@.len()
                    >= old(self)@.arguments.list.items.len(),
        ensures
            final(self).wf(),
            ({
                let len = old(self)@.arguments.list.items.len();
                let to = landing_position(len, target as nat);
                if old(self)@.arguments.active && to != from {
                    &&& final(self)@.arguments == (DragAndDropView {
                        list: ChangeTrackingView {
                            items: crate::change_tracking_list::moved_items(
                                old(self)@.arguments.list.items,
                                from as int,
                                to as int,
                            ),
                            order: crate::change_tracking_list::order_after_move(
                                old(self)@.arguments.list.order,
                                from as int,
                                to as int,
                            ),
                            order_has_changed: true,
                            ..old(self)@.arguments.list
                        },
                        ..old(self)@.arguments
                    })
                    &&& heads_edited(
                        old(self)@,
                        final(self)@,
                        ListEdit::Moved(
                            crate::change_tracking_list::moved_items(
                                crate::change_tracking_list::identity_order(len),
                                from as int,
                                to as int,
                            ),
                        ),
                    )
                    &&& final(self)@ == (EditScreenView {
                        arguments: final(self)@.arguments,
                        rules: final(self)@.rules,
                        facts: final(self)@.facts,
                        ..old(self)@
                    })
                } else {
                    final(self)@ == old(self)@
                }
            }),
    {
        let len = self.arguments.len();
        match self.arguments.drag_to(from, target) {
            Some((moved_from, moved_to)) => {
                let order = single_move_order(len, moved_from, moved_to);
                let ghost o = order@;
                assert forall|k: int| 0 <= k < o.len() implies #[trigger] o[k] < len by {
                    let id = crate::change_tracking_list::identity_order(len as nat);
                    let removed = id.remove(moved_from as int);
                    if k < moved_to {
                        if k < moved_from {
                            assert(removed[k] == id[k]);
                        } else {
                            assert(removed[k] == id[k + 1]);
                        }
                    } else if k > moved_to {
                        if k - 1 < moved_from {
                            assert(removed[k - 1] == id[k - 1]);
                        } else {
                            assert(removed[k - 1] == id[k]);
                        }
                    }
                }
                assert(self@.rules == old(self)@.rules && self@.facts == old(self)@.facts);
                assert(old(self)@.arguments.active);
                assert forall|i: int| 0 <= i < self@.rules.list.items.len() implies edit_applies(
                    ListEdit::Moved(o),
                    #[trigger] self@.rules.list.items[i]@.head,
                ) by {
                    assert(old(self)@.rules.list.items[i]@.head.len() >= len);
                }
                assert forall|i: int| 0 <= i < self@.facts.list.items.len() implies edit_applies(
                    ListEdit::Moved(o),
                    #[trigger] self@.facts.list.items[i]@,
                ) by {
                    assert(old(self)@.facts.list.items[i]@.len() >= len);
                }
                self.apply_to_heads(&drag_and_drop::Change::Moved(order));
            },
            None => {},
        }
    }

    /// Renames or redescribes the argument at `idx`, which counts as a
    /// change.
    pub fn rename_argument(&mut self, idx: usize, arg: NameDescription)
        requires
            old(self).wf(),
            idx < old(self)@.arguments.list.items.len(),
        ensures
            final(self).wf(),
            final(self)@ == (EditScreenView {
                arguments: DragAndDropView {
                    list: ChangeTrackingView {
                        items: old(self)@.arguments.list.items.update(idx as int, arg),
                        ..old(self)@.arguments.list
                    },
                    ..old(self)@.arguments
                },
                arg_rename: true,
                ..old(self)@
            }),
    {
        self.arguments.set_item(idx, arg);
        self.arg_rename = true;
    }

    /// Removes the fact at `idx` (the removal is recorded).
    pub fn remove_fact(&mut self, idx: usize)
        requires
            old(self).wf(),
            idx < old(self)@.facts.list.items.len(),
        ensures
            final(self).wf(),
            final(self)@ == (EditScreenView {
                facts: DragAndDropView { list: after_remove(old(self)@.facts.list, idx), ..old(self)@.facts },
                ..old(self)@
            }),
    {
        self.facts.remove(idx);
    }

    /// Removes the rule at `idx` (the removal is recorded).
    pub fn remove_rule(&mut self, idx: usize)
        requires
            old(self).wf(),
            idx < old(self)@.rules.list.items.len(),
        ensures
            final(self).wf(),
            final(self)@ == (EditScreenView {
                rules: DragAndDropView { list: after_remove(old(self)@.rules.list, idx), ..old(self)@.rules },
                ..old(self)@
            }),
    {
        self.rules.remove(idx);
    }

    /// The placeholder in which a new fact is written.
    pub fn fact_placeholder_mut(&mut self) -> (res: &mut FactPlaceholder)
        requires
            old(self).wf(),
        ensures
            (*res)@ == old(self)@.fact_placeholder,
            final(self).wf(),
            final(self)@ == (EditScreenView { fact_placeholder: (*final(res))@, ..old(self)@ }),
    {
        &mut self.fact_placeholder
    }

    /// The placeholder in which a new rule is written.
    pub fn rule_placeholder_mut(&mut self) -> (res: &mut RulePlaceholder)
        requires
            old(self).wf(),
        ensures
            (*res)@ == old(self)@.rule_placeholder,
            final(self).wf(),
            final(self)@ == (EditScreenView { rule_placeholder: (*final(res))@, ..old(self)@ }),
    {
        &mut self.rule_placeholder
    }

    /// The placeholder in which a new argument is written.
    pub fn arg_placeholder_mut(&mut self) -> (res: &mut NameDescription)
        requires
            old(self).wf(),
        ensures
            (*res)@ == old(self)@.arg_placeholder,
            final(self).wf(),
            final(self)@ == (EditScreenView { arg_placeholder: (*final(res))@, ..old(self)@ }),
    {
        &mut self.arg_placeholder
    }

    /// The arguments of the term, in order.
    pub fn arguments(&self) -> (res: &Vec<NameDescription>)
        ensures
            res@ == self@.arguments.list.items,
    {
        self.arguments.items()
    }

    /// The facts of the term, in order.
    pub fn facts(&self) -> (res: &Vec<ArgsBinding>)
        ensures
            res@ == self@.facts.list.items,
    {
        self.facts.items()
    }

    /// The rules of the term, in order.
    pub fn rules(&self) -> (res: &Vec<Rule>)
        ensures
            res@ == self@.rules.list.items,
    {
        self.rules.items()
    }

    /// Whether the term's parts can be edited.
    pub fn in_session(&self) -> (res: bool)
        ensures
            res == self@.arguments.active,
    {
        self.arguments.is_active()
    }

    /// Names the term.
    pub fn set_name(&mut self, name: String)
        requires
            old(self).wf(),
        ensures
            final(self).wf(),
            final(self)@ == (EditScreenView { name: name@, ..old(self)@ }),
    {
        self.name = name;
    }

    /// Gives the term a new description, which counts as a change.
    pub fn set_description(&mut self, desc: String)
        requires
            old(self).wf(),
        ensures
            final(self).wf(),
            final(self)@ == (EditScreenView { desc: desc@, description_change: true, ..old(self)@ }),
    {
        self.desc = desc;
        self.description_change = true;
    }
}

/// An element is in two sequences joined exactly when it is in one of them.
proof fn lemma_concat_contains<A>(a: Seq<A>, b: Seq<A>, x: A)
    ensures
        (a + b).contains(x) <==> (a.contains(x) || b.contains(x)),
{
    if (a + b).contains(x) {
        let k = choose|k: int| 0 <= k < (a + b).len() && (a + b)[k] == x;
        if k < a.len() {
            assert(a[k] == x);
        } else {
            assert(b[k - a.len()] == x);
        }
    }
    if a.contains(x) {
        let k = choose|k: int| 0 <= k < a.len() && a[k] == x;
        assert((a + b)[k] == x);
    }
    if b.contains(x) {
        let k = choose|k: int| 0 <= k < b.len() && b[k] == x;
        assert((a + b)[a.len() + k] == x);
    }
}

/// An element is in the sequence holding `y` when `b` holds, and in no
/// other, exactly when `b` holds and it is `y`.
proof fn lemma_optional_contains<A>(b: bool, y: A, x: A)
    ensures
        (if b {
            seq![y]
        } else {
            Seq::<A>::empty()
        }).contains(x) <==> (b && x == y),
{
    if b {
        assert(seq![y][0] == y);
    }
}

/// Each kind of change is reported exactly when the session made it,
/// whatever else the session made: a new name when the name differs from
/// the one the session began with, renamed arguments, a new description,
/// edited facts, edited arguments (reported with the edits the arguments
/// recorded) and edited rules each when their own list or flag says so.
/// Nothing else is reported.
pub proof fn lemma_each_kind_of_change_is_reported(v: EditScreenView)
    ensures
        forall|x: EditChangeView| #[trigger] edit_changes(v).contains(x) <==> {
            ||| x == EditChangeView::Rename && v.original_name != v.name
            ||| x == EditChangeView::ArgRename && v.arg_rename
            ||| x == EditChangeView::DescriptionChange && v.description_change
            ||| x == EditChangeView::FactsChange && v.facts.list.changes.len() > 0
            ||| x == EditChangeView::ArgChanges(v.arguments.list.changes) && v.arguments.list.changes.len() > 0
            ||| x == EditChangeView::RuleChanges && v.rules.list.changes.len() > 0
        },
        edit_changes(v).contains(EditChangeView::RuleChanges) <==> v.rules.list.changes.len() > 0,
        edit_changes(v).contains(EditChangeView::FactsChange) <==> v.facts.list.changes.len() > 0,
        edit_changes(v).contains(EditChangeView::ArgChanges(v.arguments.list.changes))
            <==> v.arguments.list.changes.len() > 0,
        edit_changes(v).contains(EditChangeView::Rename) <==> v.original_name != v.name,
        edit_changes(v).contains(EditChangeView::ArgRename) <==> v.arg_rename,
        edit_changes(v).contains(EditChangeView::DescriptionChange) <==> v.description_change,
{
    let p1 = if v.original_name != v.name {
        seq![EditChangeView::Rename]
    } else {
        Seq::empty()
    };
    let p2 = if v.arg_rename {
        seq![EditChangeView::ArgRename]
    } else {
        Seq::empty()
    };
    let p3 = if v.description_change {
        seq![EditChangeView::DescriptionChange]
    } else {
        Seq::empty()
    };
    let p4 = if v.facts.list.changes.len() > 0 {
        seq![EditChangeView::FactsChange]
    } else {
        Seq::empty()
    };
    let p5 = if v.arguments.list.changes.len() > 0 {
        seq![EditChangeView::ArgChanges(v.arguments.list.changes)]
    } else {
        Seq::empty()
    };
    let p6 = if v.rules.list.changes.len() > 0 {
        seq![EditChangeView::RuleChanges]
    } else {
        Seq::empty()
    };
    assert(edit_changes(v) == p1 + p2 + p3 + p4 + p5 + p6);
    assert forall|x: EditChangeView| #[trigger] edit_changes(v).contains(x) <==> {
        ||| x == EditChangeView::Rename && v.original_name != v.name
        ||| x == EditChangeView::ArgRename && v.arg_rename
        ||| x == EditChangeView::DescriptionChange && v.description_change
        ||| x == EditChangeView::FactsChange && v.facts.list.changes.len() > 0
        ||| x == EditChangeView::ArgChanges(v.arguments.list.changes) && v.arguments.list.changes.len() > 0
        ||| x == EditChangeView::RuleChanges && v.rules.list.changes.len() > 0
    } by {
        lemma_concat_contains(p1 + p2 + p3 + p4 + p5, p6, x);
        lemma_concat_contains(p1 + p2 + p3 + p4, p5, x);
        lemma_concat_contains(p1 + p2 + p3, p4, x);
        lemma_concat_contains(p1 + p2, p3, x);
        lemma_concat_contains(p1, p2, x);
        lemma_optional_contains(v.original_name != v.name, EditChangeView::Rename, x);
        lemma_optional_contains(v.arg_rename, EditChangeView::ArgRename, x);
        lemma_optional_contains(v.description_change, EditChangeView::DescriptionChange, x);
        lemma_optional_contains(v.facts.list.changes.len() > 0, EditChangeView::FactsChange, x);
        lemma_optional_contains(
            v.arguments.list.changes.len() > 0,
            EditChangeView::ArgChanges(v.arguments.list.changes),
            x,
        );
        lemma_optional_contains(v.rules.list.changes.len() > 0, EditChangeView::RuleChanges, x);
    }
    assert(edit_changes(v).contains(EditChangeView::RuleChanges) <==> v.rules.list.changes.len() > 0);
    assert(edit_changes(v).contains(EditChangeView::FactsChange) <==> v.facts.list.changes.len() > 0);
    assert(edit_changes(v).contains(EditChangeView::ArgChanges(v.arguments.list.changes))
        <==> v.arguments.list.changes.len() > 0);
    assert(edit_changes(v).contains(EditChangeView::Rename) <==> v.original_name != v.name);
    assert(edit_changes(v).contains(EditChangeView::ArgRename) <==> v.arg_rename);
    assert(edit_changes(v).contains(EditChangeView::DescriptionChange) <==> v.description_change);
}

/// The place of a kind of change in the order in which a session reports
/// them: a new name, renamed arguments, a new description, edited facts,
/// edited arguments, edited rules.
pub open spec fn report_rank(c: EditChangeView) -> int {
    match c {
        EditChangeView::Rename => 0,
        EditChangeView::ArgRename => 1,
        EditChangeView::DescriptionChange => 2,
        EditChangeView::FactsChange => 3,
        EditChangeView::ArgChanges(_) => 4,
        EditChangeView::RuleChanges => 5,
    }
}

/// Whether the kinds of change come strictly in report order, so each
/// kind at most once.
pub open spec fn in_report_order(s: Seq<EditChangeView>) -> bool {
    forall|i: int, j: int| 0 <= i < j < s.len() ==> report_rank(#[trigger] s[i]) < report_rank(#[trigger] s[j])
}

/// Appending at most one kind, which comes after all the reported ones,
/// keeps the report order.
proof fn lemma_report_order_append(a: Seq<EditChangeView>, t: Seq<EditChangeView>, y: EditChangeView)
    requires
        in_report_order(a),
        forall|i: int| 0 <= i < a.len() ==> report_rank(#[trigger] a[i]) < report_rank(y),
        t.len() <= 1,
        forall|k: int| 0 <= k < t.len() ==> t[k] == y,
    ensures
        in_report_order(a + t),
        forall|i: int| 0 <= i < (a + t).len() ==> report_rank(#[trigger] (a + t)[i]) <= report_rank(y),
{
    let s = a + t;
    assert forall|i: int| 0 <= i < s.len() implies #[trigger] s[i] == if i < a.len() {
        a[i]
    } else {
        y
    } by {}
}

/// A session reports the kinds of change it made in a fixed order, each at
/// most once: a new name, renamed arguments, a new description, edited
/// facts, edited arguments, edited rules.
pub proof fn lemma_changes_are_reported_in_order(v: EditScreenView)
    ensures
        in_report_order(edit_changes(v)),
        edit_changes(v).no_duplicates(),
{
    let e = Seq::<EditChangeView>::empty();
    let p1 = if v.original_name != v.name {
        seq![EditChangeView::Rename]
    } else {
        e
    };
    let p2 = if v.arg_rename {
        seq![EditChangeView::ArgRename]
    } else {
        e
    };
    let p3 = if v.description_change {
        seq![EditChangeView::DescriptionChange]
    } else {
        e
    };
    let p4 = if v.facts.list.changes.len() > 0 {
        seq![EditChangeView::FactsChange]
    } else {
        e
    };
    let p5 = if v.arguments.list.changes.len() > 0 {
        seq![EditChangeView::ArgChanges(v.arguments.list.changes)]
    } else {
        e
    };
    let p6 = if v.rules.list.changes.len() > 0 {
        seq![EditChangeView::RuleChanges]
    } else {
        e
    };
    assert(edit_changes(v) == p1 + p2 + p3 + p4 + p5 + p6);
    lemma_report_order_append(e, p1, EditChangeView::Rename);
    assert(e + p1 == p1);
    lemma_report_order_append(p1, p2, EditChangeView::ArgRename);
    lemma_report_order_append(p1 + p2, p3, EditChangeView::DescriptionChange);
    lemma_report_order_append(p1 + p2 + p3, p4, EditChangeView::FactsChange);
    lemma_report_order_append(p1 + p2 + p3 + p4, p5, EditChangeView::ArgChanges(v.arguments.list.changes));
    lemma_report_order_append(p1 + p2 + p3 + p4 + p5, p6, EditChangeView::RuleChanges);
    let all = edit_changes(v);
    assert forall|i: int, j: int| 0 <= i < all.len() && 0 <= j < all.len() && i != j implies all[i] != all[j] by {
        if i < j {
            assert(report_rank(all[i]) < report_rank(all[j]));
        } else {
            assert(report_rank(all[j]) < report_rank(all[i]));
        }
    }
}

} // verus!

