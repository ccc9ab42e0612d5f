use term_editor::change_tracking_list::Change as ListChange;
use term_editor::edit_screen::{EditChange, TermScreenPIT};
use term_editor::model::{ArgsBinding, BoundTerm, Comment, FatTerm, NameDescription, Rule, Term};

fn strings(v: &[&str]) -> Vec<String> {
    v.iter().map(|s| s.to_string()).collect()
}

fn binding(v: &[&str]) -> ArgsBinding {
    ArgsBinding {
        binding: strings(v),
    }
}

fn sample() -> FatTerm {
    FatTerm::new(
        Comment::new(
            NameDescription::new("parent", "a parent"),
            vec![NameDescription::new("P", ""), NameDescription::new("C", "")],
            strings(&["family"]),
        ),
        Term::new(
            vec![binding(&["ann", "bob"])],
            vec![Rule {
                arg_bindings: binding(&["X", "Y"]),
                body: vec![BoundTerm {
                    name: "father".to_string(),
                    arg_bindings: binding(&["X", "Y"]),
                }],
            }],
        ),
    )
}

fn kinds(changes: &[EditChange]) -> Vec<&'static str> {
    changes
        .iter()
        .map(|c| match c {
            EditChange::Rename => "rename",
            EditChange::DescriptionChange => "description",
            EditChange::FactsChange => "facts",
            EditChange::ArgRename => "arg rename",
            EditChange::ArgChanges(_) => "args",
            EditChange::RuleChanges => "rules",
        })
        .collect()
}

#[test]
fn screen_shows_the_term_it_was_made_of() {
    let screen = TermScreenPIT::new(&sample());
    assert_eq!(screen.name(), "parent");
    assert_eq!(screen.extract_term(), sample());
    assert!(!screen.in_session());
}

#[test]
fn a_session_without_changes_hands_out_nothing() {
    let mut screen = TermScreenPIT::new(&sample());
    screen.start_changes();
    assert!(screen.in_session());
    assert!(screen.finish_changes().is_none());
    assert!(!screen.in_session());
}

#[test]
fn a_session_lists_the_kinds_of_changes() {
    let mut screen = TermScreenPIT::new(&sample());
    screen.start_changes();
    screen.set_name("ancestor".to_string());
    screen.set_description("an ancestor".to_string());
    screen.fact_placeholder_mut().head.binding = strings(&["cid", "dan"]);
    screen.add_fact();
    screen.remove_rule(0);

    let (changes, term) = screen.finish_changes().unwrap();
    assert_eq!(kinds(&changes), vec!["rename", "description", "facts", "rules"]);
    assert_eq!(term.meta.term.name, "ancestor");
    assert_eq!(term.meta.term.desc, "an ancestor");
    assert_eq!(term.term.facts, vec![binding(&["ann", "bob"]), binding(&["cid", "dan"])]);
    assert!(term.term.rules.is_empty());

    // the new name counts as the name before the next session
    screen.start_changes();
    assert!(screen.finish_changes().is_none());
}

#[test]
fn added_argument_extends_heads_and_facts() {
    let mut screen = TermScreenPIT::new(&sample());
    screen.start_changes();
    *screen.arg_placeholder_mut() = NameDescription::new("G", "grandchild");
    screen.add_argument();
    assert_eq!(screen.arguments().len(), 3);
    assert_eq!(screen.arguments()[2], NameDescription::new("G", "grandchild"));
    assert_eq!(screen.facts()[0], binding(&["ann", "bob", "_"]));
    assert_eq!(screen.rules()[0].arg_bindings, binding(&["X", "Y", "_"]));

    let (changes, _) = screen.finish_changes().unwrap();
    assert_eq!(kinds(&changes), vec!["args"]);
    match &changes[0] {
        EditChange::ArgChanges(edits) => assert_eq!(*edits, vec![ListChange::Pushed()]),
        _ => panic!("argument changes were expected"),
    }
}

#[test]
fn removed_argument_unbinds_it_in_rule_bodies() {
    let mut screen = TermScreenPIT::new(&sample());
    screen.start_changes();
    screen.remove_argument(0);
    assert_eq!(screen.arguments(), &vec![NameDescription::new("C", "")]);
    assert_eq!(screen.facts()[0], binding(&["bob"]));
    assert_eq!(screen.rules()[0].arg_bindings, binding(&["Y"]));
    assert_eq!(screen.rules()[0].body[0].arg_bindings, binding(&["_", "Y"]));
}

#[test]
fn dragged_argument_moves_head_values() {
    let mut screen = TermScreenPIT::new(&sample());
    screen.drag_argument(0, 1);
    // an inactive screen does not move anything
    assert_eq!(screen.facts()[0], binding(&["ann", "bob"]));
    screen.start_changes();
    screen.drag_argument(0, 5);
    assert_eq!(
        screen.arguments(),
        &vec![NameDescription::new("C", ""), NameDescription::new("P", "")]
    );
    assert_eq!(screen.facts()[0], binding(&["bob", "ann"]));
    assert_eq!(screen.rules()[0].arg_bindings, binding(&["Y", "X"]));
}

#[test]
fn renamed_argument_counts_as_a_change() {
    let mut screen = TermScreenPIT::new(&sample());
    screen.start_changes();
    screen.rename_argument(1, NameDescription::new("Child", ""));
    let (changes, term) = screen.finish_changes().unwrap();
    assert_eq!(kinds(&changes), vec!["arg rename"]);
    assert_eq!(term.meta.args[1], NameDescription::new("Child", ""));
}

#[test]
fn edited_fact_goes_back_at_the_end() {
    let mut term = sample();
    term.term.facts.push(binding(&["eve", "fay"]));
    let mut screen = TermScreenPIT::new(&term);
    screen.start_changes();
    screen.edit_fact(0);
    assert_eq!(screen.facts().len(), 1);
    screen.finish_fact_edit();
    assert_eq!(
        screen.facts(),
        &vec![binding(&["eve", "fay"]), binding(&["ann", "bob"])]
    );
}

#[test]
fn edited_and_new_rules_are_added() {
    let mut screen = TermScreenPIT::new(&sample());
    screen.start_changes();
    screen.edit_rule(0);
    assert!(screen.rules().is_empty());
    screen.finish_rule_edit();
    assert_eq!(screen.rules(), &sample().term.rules);

    let placeholder = screen.rule_placeholder_mut();
    placeholder.head.binding = strings(&["Z"]);
    placeholder.set_body_term(0, "mother".to_string(), 1);
    placeholder.body[0].1 = strings(&["Z"]);
    screen.add_rule();
    assert_eq!(screen.rules().len(), 2);
    assert_eq!(screen.rules()[1].body[0].name, "mother");
    assert_eq!(screen.rules()[1].arg_bindings, binding(&["Z"]));
}
