use term_editor::change_propagator::{
    apply_binding_change, apply_head_arg_changes, apply_head_args_change, get_affected,
    get_mentioned_terms, need_confirmation,
};
use term_editor::change_tracking_list::ChangeTrackingVec;
use term_editor::drag_and_drop;
use term_editor::model::{ArgsBinding, BoundTerm, Comment, FatTerm, NameDescription, Rule, Term};
use term_editor::term_screen::{Change, TermChange};
use term_editor::related_terms::update_related_terms;
use term_editor::terms_filter::TermsFilter;

fn strings(v: &[&str]) -> Vec<String> {
    v.iter().map(|s| s.to_string()).collect()
}

fn binding(v: &[&str]) -> ArgsBinding {
    ArgsBinding {
        binding: strings(v),
    }
}

fn rule(head: &[&str], body: &[(&str, &[&str])]) -> Rule {
    Rule {
        arg_bindings: binding(head),
        body: body
            .iter()
            .map(|(name, args)| BoundTerm {
                name: name.to_string(),
                arg_bindings: binding(args),
            })
            .collect(),
    }
}

fn term(name: &str, referred_by: &[&str], facts: Vec<ArgsBinding>, rules: Vec<Rule>) -> FatTerm {
    FatTerm::new(
        Comment::new(
            NameDescription::new(name, ""),
            vec![NameDescription::new("A", ""), NameDescription::new("B", "")],
            strings(referred_by),
        ),
        Term::new(facts, rules),
    )
}

fn pushed() -> drag_and_drop::Change<NameDescription> {
    drag_and_drop::Change::Pushed(NameDescription::new("C", ""))
}

#[test]
fn put_then_get_gives_back_the_term() {
    let first = term("first", &[], vec![], vec![]);
    let second = term("second", &[], vec![], vec![]);
    let mut store = TermsFilter::empty();
    assert!(store.get(&"first".to_string()).is_none());
    store.put(&"first".to_string(), &first);
    store.put(&"second".to_string(), &second);
    assert_eq!(store.get(&"first".to_string()), Some(&first));

    let replaced = term("first", &["second"], vec![], vec![]);
    store.put(&"first".to_string(), &replaced);
    assert_eq!(store.len(), 2);
    assert_eq!(store.get(&"first".to_string()), Some(&replaced));
    assert_eq!(store.get(&"second".to_string()), Some(&second));
}

#[test]
fn pushed_then_removed_argument_restores_the_binding() {
    let mut b = binding(&["x", "y"]);
    assert_eq!(apply_binding_change(&pushed(), &mut b), None);
    assert_eq!(b.binding, strings(&["x", "y", "_"]));
    let removed = drag_and_drop::Change::Removed(2, NameDescription::new("C", ""));
    assert_eq!(apply_binding_change(&removed, &mut b), Some("_".to_string()));
    assert_eq!(b.binding, strings(&["x", "y"]));
}

#[test]
fn moved_arguments_follow_the_recorded_order() {
    let mut b = binding(&["x", "y", "z"]);
    let moved = drag_and_drop::Change::Moved(vec![2, 0, 1]);
    assert_eq!(apply_binding_change(&moved, &mut b), None);
    assert_eq!(b.binding, strings(&["z", "x", "y"]));
}

#[test]
fn recorded_move_reorders_bindings_like_the_list() {
    let mut args = ChangeTrackingVec::new(strings(&["A", "B", "C"]));
    args.move_item(0, 2);
    let order = args.flush_order_changes().unwrap();
    let mut b = binding(&["a", "b", "c"]);
    apply_binding_change(&drag_and_drop::Change::Moved(order), &mut b);
    let lowered: Vec<String> = args.items().iter().map(|s| s.to_lowercase()).collect();
    assert_eq!(b.binding, lowered);
}

#[test]
fn removed_head_argument_unbinds_it_in_rule_bodies() {
    let mut t = term(
        "t",
        &[],
        vec![binding(&["1", "2"])],
        vec![rule(&["X", "Y"], &[("other", &["Y", "X"]), ("more", &["X"])])],
    );
    let removed = drag_and_drop::Change::Removed(0, NameDescription::new("A", ""));
    apply_head_args_change(&mut t, &removed);
    assert_eq!(t.term.facts[0].binding, strings(&["2"]));
    assert_eq!(t.term.rules[0].arg_bindings.binding, strings(&["Y"]));
    assert_eq!(t.term.rules[0].body[0].arg_bindings.binding, strings(&["Y", "_"]));
    assert_eq!(t.term.rules[0].body[1].arg_bindings.binding, strings(&["_"]));
}

#[test]
fn head_argument_changes_apply_in_order() {
    let mut t = term(
        "t",
        &[],
        vec![binding(&["1", "2"])],
        vec![rule(&["X", "Y"], &[("other", &["X"])])],
    );
    apply_head_arg_changes(
        &mut t,
        &vec![pushed(), drag_and_drop::Change::Moved(vec![2, 0, 1])],
    );
    assert_eq!(t.term.facts[0].binding, strings(&["_", "1", "2"]));
    assert_eq!(t.term.rules[0].arg_bindings.binding, strings(&["_", "X", "Y"]));
    assert_eq!(t.term.rules[0].body[0].arg_bindings.binding, strings(&["X"]));
}

#[test]
fn mentioned_terms_are_listed_once_in_order() {
    let t = term(
        "t",
        &[],
        vec![],
        vec![
            rule(&["X"], &[("b", &["X"]), ("a", &["X"])]),
            rule(&["X"], &[("b", &["X"]), ("c", &["X"])]),
        ],
    );
    assert_eq!(get_mentioned_terms(&t), strings(&["b", "a", "c"]));
}

fn args_added() -> Vec<TermChange> {
    vec![TermChange::ArgChanges(vec![pushed()])]
}

#[test]
fn confirmation_needs_an_added_or_removed_argument_and_a_referrer() {
    let referred = term("t", &["r"], vec![], vec![]);
    let unreferred = term("t", &[], vec![], vec![]);
    let args_moved = vec![TermChange::ArgChanges(vec![drag_and_drop::Change::Moved(vec![1, 0])])];

    assert!(need_confirmation(&Change::Changes(
        args_added(),
        "t".to_string(),
        referred.clone()
    )));
    assert!(!need_confirmation(&Change::Changes(
        args_added(),
        "t".to_string(),
        unreferred
    )));
    assert!(!need_confirmation(&Change::Changes(
        args_moved,
        "t".to_string(),
        referred.clone()
    )));
    assert!(!need_confirmation(&Change::Changes(
        vec![TermChange::RuleChanges, TermChange::DescriptionChange],
        "t".to_string(),
        referred
    )));
    assert!(need_confirmation(&Change::Deleted("t".to_string())));
}

#[test]
fn deletion_affects_mentioned_and_referring_terms() {
    let t = term(
        "t",
        &["r1", "r2"],
        vec![],
        vec![rule(&["X"], &[("m1", &["X"]), ("m2", &["X"]), ("m1", &["X"])])],
    );
    assert_eq!(
        get_affected(&t, &Change::Deleted("t".to_string())),
        strings(&["m1", "m2", "r1", "r2"])
    );
}

#[test]
fn edited_rules_update_who_refers_to_whom() {
    let mut store = TermsFilter::empty();
    for (name, referred_by) in [("a", vec![]), ("b", vec!["t"]), ("c", vec!["t"])] {
        store.put(&name.to_string(), &term(name, &referred_by, vec![], vec![]));
    }
    let current_rules = vec![rule(&["X"], &[("a", &["X"]), ("c", &["X"])])];
    let changes = vec![
        drag_and_drop::Change::Pushed(rule(&["X"], &[("a", &["X"]), ("z", &["X"])])),
        drag_and_drop::Change::Moved(vec![0]),
        drag_and_drop::Change::Removed(0, rule(&["X"], &[("b", &["X"]), ("c", &["X"])])),
    ];

    update_related_terms(&mut store, &"t".to_string(), &current_rules, &changes);

    assert_eq!(store.len(), 3);
    assert_eq!(
        store.get(&"a".to_string()).unwrap().meta.referred_by,
        strings(&["t"])
    );
    assert!(store
        .get(&"b".to_string())
        .unwrap()
        .meta
        .referred_by
        .is_empty());
    assert_eq!(
        store.get(&"c".to_string()).unwrap().meta.referred_by,
        strings(&["t"])
    );
    assert!(store.get(&"z".to_string()).is_none());
}

#[test]
fn putting_several_terms_keeps_the_last_of_each_name() {
    let mut store = TermsFilter::new(&term("a", &[], vec![], vec![]));
    let entries = vec![
        ("b".to_string(), term("b", &[], vec![], vec![])),
        ("a".to_string(), term("a", &["x"], vec![], vec![])),
        ("b".to_string(), term("b", &["y"], vec![], vec![])),
    ];
    store.put_all(&entries);
    assert_eq!(store.len(), 2);
    assert_eq!(store.get(&"a".to_string()).unwrap().meta.referred_by, strings(&["x"]));
    assert_eq!(store.get(&"b".to_string()).unwrap().meta.referred_by, strings(&["y"]));
}

#[test]
fn deleted_term_leaves_no_reference_behind() {
    let deleted = term(
        "gone",
        &["user"],
        vec![],
        vec![rule(&["X"], &[("base", &["X"])])],
    );
    let user = term(
        "user",
        &[],
        vec![],
        vec![rule(&["Y"], &[("gone", &["Y"]), ("base", &["Y"]), ("gone", &["Y"])])],
    );
    let base = term("base", &["gone", "user"], vec![], vec![]);
    let mut store = TermsFilter::empty();
    for t in [&deleted, &user, &base] {
        store.put(&t.meta.term.name, t);
    }
    term_editor::change_propagator::apply_changes(&Change::Deleted("gone".to_string()), &deleted, &mut store);

    let user_after = store.get(&"user".to_string()).unwrap();
    assert_eq!(user_after.term.rules[0].body.len(), 1);
    assert_eq!(user_after.term.rules[0].body[0].name, "base");
    assert_eq!(
        store.get(&"base".to_string()).unwrap().meta.referred_by,
        strings(&["user"])
    );
}

#[test]
fn renamed_term_leaves_no_old_name_behind() {
    let original = term("old", &["user"], vec![], vec![rule(&["X"], &[("base", &["X"])])]);
    let mut renamed = original.clone();
    renamed.meta.term.name = "new".to_string();
    let user = term("user", &[], vec![], vec![rule(&["Y"], &[("old", &["Y"])])]);
    let base = term("base", &["old"], vec![], vec![]);
    let mut store = TermsFilter::empty();
    for t in [&original, &user, &base] {
        store.put(&t.meta.term.name, t);
    }
    let changes = Change::Changes(vec![], "old".to_string(), renamed.clone());
    term_editor::change_propagator::apply_changes(&changes, &original, &mut store);

    assert_eq!(
        store.get(&"user".to_string()).unwrap().term.rules[0].body[0].name,
        "new"
    );
    assert_eq!(
        store.get(&"base".to_string()).unwrap().meta.referred_by,
        strings(&["new"])
    );
}

#[test]
fn bindings_rebound_with_recorded_edits_follow_the_arguments() {
    let mut args = ChangeTrackingVec::new(strings(&["A", "B", "C"]));
    args.push("D".to_string());
    args.move_item(3, 0);
    args.remove(2);
    args.push("E".to_string());
    let mut b = binding(&["a", "b", "c"]);
    for change in args.get_current_changes() {
        let edit = match change {
            term_editor::change_tracking_list::Change::Pushed() => {
                drag_and_drop::Change::Pushed(NameDescription::new("", ""))
            }
            term_editor::change_tracking_list::Change::Moved(order) => {
                drag_and_drop::Change::Moved(order)
            }
            term_editor::change_tracking_list::Change::Removed(idx, _) => {
                drag_and_drop::Change::Removed(idx, NameDescription::new("", ""))
            }
        };
        apply_binding_change(&edit, &mut b);
    }
    assert_eq!(b.binding.len(), args.len());
    assert_eq!(*args.items(), strings(&["D", "A", "C", "E"]));
    assert_eq!(b.binding, strings(&["_", "a", "c", "_"]));
}
