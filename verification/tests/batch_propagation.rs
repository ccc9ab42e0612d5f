use std::collections::HashMap;

use term_editor::batch_propagation::apply_changes;
use term_editor::change_propagator::need_confirmation;
use term_editor::drag_and_drop;
use term_editor::model::{ArgsBinding, BoundTerm, Comment, FatTerm, NameDescription, Rule, Term};
use term_editor::term_screen::{Change, TermChange};
use term_editor::terms_filter::TermsFilter;

fn strings(v: &[&str]) -> Vec<String> {
    v.iter().map(|s| s.to_string()).collect()
}

fn rule(head: &[&str], body: &[(&str, &[&str])]) -> Rule {
    Rule {
        arg_bindings: ArgsBinding {
            binding: strings(head),
        },
        body: body
            .iter()
            .map(|(name, args)| BoundTerm {
                name: name.to_string(),
                arg_bindings: ArgsBinding {
                    binding: strings(args),
                },
            })
            .collect(),
    }
}

fn term(name: &str, args: &[&str], referred_by: &[&str], rules: Vec<Rule>) -> FatTerm {
    FatTerm::new(
        Comment::new(
            NameDescription::new(name, "description"),
            args.iter().map(|a| NameDescription::new(a, "")).collect(),
            strings(referred_by),
        ),
        Term::new(vec![], rules),
    )
}

fn edited() -> FatTerm {
    term(
        "edited",
        &["First", "Second"],
        &["referrer"],
        vec![rule(&["X", "Y"], &[("mentioned", &["X"])])],
    )
}

fn referrer() -> FatTerm {
    term(
        "referrer",
        &["A"],
        &[],
        vec![rule(&["A"], &[("edited", &["A", "B"]), ("other", &["B"])])],
    )
}

fn mentioned() -> FatTerm {
    term("mentioned", &["M"], &["edited"], vec![])
}

fn knowledge_base(terms: &[FatTerm]) -> TermsFilter {
    let mut kb = TermsFilter::empty();
    for t in terms {
        kb.put(&t.meta.term.name, t);
    }
    kb
}

fn as_map(filter: TermsFilter) -> HashMap<String, FatTerm> {
    filter.all_terms().into_iter().collect()
}

#[test]
fn pushed_argument_reaches_referrers_and_needs_confirmation() {
    let kb = knowledge_base(&[edited(), referrer(), mentioned()]);
    let mut updated = edited();
    updated.meta.args.push(NameDescription::new("Third", ""));
    let changes = Change::Changes(
        vec![TermChange::ArgChanges(vec![drag_and_drop::Change::Pushed(
            NameDescription::new("Third", ""),
        )])],
        "edited".to_string(),
        updated.clone(),
    );

    let (result, needs_confirmation) = apply_changes(&changes, &kb);
    let result = as_map(result);

    assert!(needs_confirmation);
    assert_eq!(result.len(), 2);
    let mut expected_referrer = referrer();
    expected_referrer.term.rules[0].body[0]
        .arg_bindings
        .binding
        .push("_".to_string());
    assert_eq!(result["referrer"], expected_referrer);
    assert_eq!(result["edited"], updated);
}

#[test]
fn moved_arguments_need_no_confirmation() {
    let kb = knowledge_base(&[edited(), referrer(), mentioned()]);
    let mut updated = edited();
    updated.meta.args.swap(0, 1);
    let changes = Change::Changes(
        vec![TermChange::ArgChanges(vec![drag_and_drop::Change::Moved(vec![1, 0])])],
        "edited".to_string(),
        updated.clone(),
    );

    let (result, needs_confirmation) = apply_changes(&changes, &kb);
    let result = as_map(result);

    assert!(!needs_confirmation);
    assert_eq!(
        result["referrer"].term.rules[0].body[0].arg_bindings.binding,
        strings(&["B", "A"])
    );
    assert_eq!(result["edited"], updated);
}

#[test]
fn removed_argument_without_referrers_needs_no_confirmation() {
    let mut lonely = edited();
    lonely.meta.referred_by.clear();
    let kb = knowledge_base(&[lonely.clone(), mentioned()]);
    let mut updated = lonely.clone();
    updated.meta.args.remove(0);
    let changes = Change::Changes(
        vec![TermChange::ArgChanges(vec![drag_and_drop::Change::Removed(
            0,
            NameDescription::new("First", ""),
        )])],
        "edited".to_string(),
        updated.clone(),
    );

    let (result, needs_confirmation) = apply_changes(&changes, &kb);
    let result = as_map(result);

    assert!(!needs_confirmation);
    assert_eq!(result.len(), 1);
    assert_eq!(result["edited"], updated);
}

#[test]
fn internal_changes_touch_only_the_edited_term() {
    let kb = knowledge_base(&[edited(), referrer(), mentioned()]);
    let mut updated = edited();
    updated.meta.term.desc = "new description".to_string();
    let changes = Change::Changes(
        vec![TermChange::DescriptionChange, TermChange::FactsChange],
        "edited".to_string(),
        updated.clone(),
    );

    let (result, needs_confirmation) = apply_changes(&changes, &kb);
    let result = as_map(result);

    assert!(!needs_confirmation);
    assert_eq!(result.len(), 1);
    assert_eq!(result["edited"], updated);
}

#[test]
fn rule_changes_update_mentioned_terms_referrers() {
    let second = term("second", &["S"], &[], vec![]);
    let kb = knowledge_base(&[edited(), referrer(), mentioned(), second.clone()]);
    let mut updated = edited();
    updated.term.rules = vec![rule(&["X", "Y"], &[("second", &["Y"])])];
    let changes = Change::Changes(
        vec![TermChange::RuleChanges],
        "edited".to_string(),
        updated.clone(),
    );

    let (result, needs_confirmation) = apply_changes(&changes, &kb);
    let result = as_map(result);

    assert!(!needs_confirmation);
    assert_eq!(result["mentioned"].meta.referred_by, Vec::<String>::new());
    assert_eq!(result["second"].meta.referred_by, strings(&["edited"]));
    assert_eq!(result["edited"], updated);
}

#[test]
fn rename_updates_mentioned_and_referring_terms() {
    let kb = knowledge_base(&[edited(), referrer(), mentioned()]);
    let mut updated = edited();
    updated.meta.term.name = "renamed".to_string();
    let changes = Change::Changes(vec![], "edited".to_string(), updated.clone());

    let (result, needs_confirmation) = apply_changes(&changes, &kb);
    let result = as_map(result);

    assert!(!needs_confirmation);
    assert_eq!(result["mentioned"].meta.referred_by, strings(&["renamed"]));
    assert_eq!(result["referrer"].term.rules[0].body[0].name, "renamed");
    assert_eq!(result["referrer"].term.rules[0].body[1].name, "other");
    // the updated term is kept under its old name
    assert_eq!(result["edited"], updated);
}

#[test]
fn deletion_drops_mentions_and_needs_confirmation() {
    let kb = knowledge_base(&[edited(), referrer(), mentioned()]);
    let changes = Change::Deleted("edited".to_string());

    let (result, needs_confirmation) = apply_changes(&changes, &kb);
    let result = as_map(result);

    assert!(needs_confirmation);
    assert_eq!(result.len(), 2);
    assert_eq!(result["mentioned"].meta.referred_by, Vec::<String>::new());
    let mut expected_referrer = referrer();
    expected_referrer.term.rules[0].body.remove(0);
    assert_eq!(result["referrer"], expected_referrer);
}

#[test]
fn deletion_already_confirmed_needs_no_confirmation() {
    let mut confirmed_referrer = referrer();
    confirmed_referrer.term.rules[0].body.remove(0);
    let kb = knowledge_base(&[edited(), confirmed_referrer.clone(), mentioned()]);
    let changes = Change::Deleted("edited".to_string());

    let (result, needs_confirmation) = apply_changes(&changes, &kb);
    let result = as_map(result);

    assert!(!needs_confirmation);
    assert_eq!(result["referrer"], confirmed_referrer);
}

#[test]
fn batch_flag_agrees_with_need_confirmation() {
    let kb = knowledge_base(&[edited(), referrer(), mentioned()]);
    let cases = vec![
        vec![TermChange::ArgChanges(vec![drag_and_drop::Change::Pushed(
            NameDescription::new("Third", ""),
        )])],
        vec![TermChange::ArgChanges(vec![drag_and_drop::Change::Moved(vec![1, 0])])],
        vec![TermChange::FactsChange],
    ];
    for case in cases {
        let changes = Change::Changes(case, "edited".to_string(), edited());
        let (_, flag) = apply_changes(&changes, &kb);
        assert_eq!(flag, need_confirmation(&changes));
    }
}
