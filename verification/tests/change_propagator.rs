use std::collections::HashMap;

use term_editor::change_propagator::{apply_changes, get_affected};
use term_editor::drag_and_drop;
use term_editor::model::{ArgsBinding, BoundTerm, Comment, FatTerm, NameDescription, Rule, Term};
use term_editor::term_screen::{Change, TermChange};
use term_editor::terms_filter::TermsFilter;

fn all_terms(filter: TermsFilter) -> HashMap<String, FatTerm> {
    filter.all_terms().into_iter().collect()
}

fn create_related_test_term() -> FatTerm {
    FatTerm::new(
        Comment::new(
            NameDescription::new("first_related", "related description"),
            vec![NameDescription::new("FirstArg", "First arg's description")],
            vec![],
        ),
        Term::new(
            vec![ArgsBinding {
                binding: vec!["fact_value".to_string()],
            }],
            vec![
                Rule {
                    arg_bindings: ArgsBinding {
                        binding: vec!["FirstHeadArg".to_string()],
                    },
                    body: vec![
                        BoundTerm {
                            name: "first_body_term".to_string(),
                            arg_bindings: ArgsBinding {
                                binding: vec!["with_some_arg".to_string()],
                            },
                        },
                        BoundTerm {
                            name: "second_body_term".to_string(),
                            arg_bindings: ArgsBinding {
                                binding: vec!["with_some_arg2".to_string()],
                            },
                        },
                    ],
                },
                Rule {
                    arg_bindings: ArgsBinding {
                        binding: vec!["FirstHeadArg2".to_string()],
                    },
                    body: vec![
                        BoundTerm {
                            name: "test".to_string(),
                            arg_bindings: ArgsBinding {
                                binding: vec!["FirstHeadArg2".to_string()],
                            },
                        },
                        BoundTerm {
                            name: "second_body_term2".to_string(),
                            arg_bindings: ArgsBinding {
                                binding: vec!["with_some_arg2".to_string()],
                            },
                        },
                    ],
                },
            ],
        ),
    )
}

fn create_mentioned_term() -> FatTerm {
    FatTerm::new(
        Comment::new(
            NameDescription::new("first_body_term", "first body term description"),
            vec![NameDescription::new("FirstArg", "First arg's description")],
            vec!["test".to_string()],
        ),
        Term::new(vec![], vec![]),
    )
}

fn create_test_term() -> FatTerm {
    FatTerm::new(
        Comment::new(
            NameDescription::new("test", "test description"),
            vec![NameDescription::new("FirstArg", "First arg's description")],
            vec!["first_related".to_string()],
        ),
        Term::new(
            vec![ArgsBinding {
                binding: vec!["fact_value".to_string()],
            }],
            vec![
                Rule {
                    arg_bindings: ArgsBinding {
                        binding: vec!["FirstHeadArg".to_string()],
                    },
                    body: vec![
                        BoundTerm {
                            name: "first_body_term".to_string(),
                            arg_bindings: ArgsBinding {
                                binding: vec!["with_some_arg".to_string()],
                            },
                        },
                        BoundTerm {
                            name: "second_body_term".to_string(),
                            arg_bindings: ArgsBinding {
                                binding: vec!["with_some_arg2".to_string()],
                            },
                        },
                    ],
                },
                Rule {
                    arg_bindings: ArgsBinding {
                        binding: vec!["FirstHeadArg2".to_string()],
                    },
                    body: vec![
                        BoundTerm {
                            name: "first_body_term2".to_string(),
                            arg_bindings: ArgsBinding {
                                binding: vec!["with_some_arg".to_string()],
                            },
                        },
                        BoundTerm {
                            name: "second_body_term2".to_string(),
                            arg_bindings: ArgsBinding {
                                binding: vec!["with_some_arg2".to_string()],
                            },
                        },
                    ],
                },
            ],
        ),
    )
}

#[test]
fn test_get_affected_changes_name_change() {
    let original = create_test_term();

    let mut with_name_change = original.clone();
    with_name_change.meta.term.name = "new_name".to_string();

    let mut relevant = get_affected(
        &original.clone(),
        &Change::Changes(vec![], "test".to_string(), with_name_change),
    );
    relevant.sort();
    let mut expected = vec![
        "first_related".to_string(),
        "first_body_term".to_string(),
        "second_body_term".to_string(),
        "first_body_term2".to_string(),
        "second_body_term2".to_string(),
    ];

    expected.sort();
    assert_eq!(relevant, expected);
}

#[test]
fn test_get_affected_changes_description_change() {
    let original = create_test_term();

    let mut with_descritpion_change = original.clone();
    with_descritpion_change.meta.term.desc = "new description".to_string();

    let relevant = get_affected(
        &original.clone(),
        &Change::Changes(
            vec![TermChange::DescriptionChange],
            "test".to_string(),
            with_descritpion_change,
        ),
    );
    assert_eq!(relevant.len(), 0);
}

#[test]
fn test_get_affected_changes_facts_change() {
    let original = create_test_term();

    let mut with_facts_change = original.clone();
    with_facts_change.term.facts.push(ArgsBinding {
        binding: vec!["SomeArgValue".to_string()],
    });

    let relevant = get_affected(
        &original.clone(),
        &Change::Changes(
            vec![TermChange::FactsChange],
            "test".to_string(),
            with_facts_change,
        ),
    );
    assert_eq!(relevant.len(), 0);
}

#[test]
fn test_get_affected_changes_args_rename() {
    let original = create_test_term();

    let mut with_args_rename = original.clone();
    *with_args_rename.meta.args.last_mut().unwrap() =
        NameDescription::new("NewArgName", "New desc");

    let relevant = get_affected(
        &original.clone(),
        &Change::Changes(
            vec![TermChange::ArgRename],
            "test".to_string(),
            with_args_rename,
        ),
    );
    assert_eq!(relevant.len(), 0);
}

#[test]
fn test_get_affected_changes_rules_change() {
    let original = create_test_term();

    let mut with_rules_change = original.clone();
    let new_rule = Rule {
        arg_bindings: ArgsBinding {
            binding: vec!["Arg".to_string()],
        },
        body: vec![BoundTerm {
            name: "new_rule_body_term".to_string(),
            arg_bindings: ArgsBinding {
                binding: vec!["with_some_arg".to_string()],
            },
        }],
    };

    // remove the first add another
    with_rules_change.term.rules.remove(0);
    with_rules_change.term.rules.push(new_rule.clone());

    let mut relevant = get_affected(
        &original.clone(),
        &Change::Changes(
            vec![TermChange::RuleChanges],
            "test".to_string(),
            with_rules_change,
        ),
    );
    relevant.sort();
    let mut expected = vec!["first_body_term", "second_body_term", "new_rule_body_term"];
    expected.sort();

    assert_eq!(relevant, expected);
}

#[test]
fn test_get_affected_changes_arg_changes() {
    let original = create_test_term();

    let mut with_arg_change = original.clone();
    let new_arg = NameDescription::new("SomeNewArg", "With some desc");
    with_arg_change.meta.args.push(new_arg.clone());

    let relevant = get_affected(
        &original.clone(),
        &Change::Changes(
            vec![TermChange::ArgChanges(vec![drag_and_drop::Change::Pushed(
                new_arg,
            )])],
            "test".to_string(),
            with_arg_change,
        ),
    );
    assert_eq!(relevant, vec!["first_related".to_string()]);
}

#[test]
fn test_get_affected_changes_arg_and_rules_changes() {
    let original = create_test_term();

    let mut with_changes = original.clone();
    let new_rule = Rule {
        arg_bindings: ArgsBinding {
            binding: vec!["Arg".to_string()],
        },
        body: vec![BoundTerm {
            name: "new_rule_body_term".to_string(),
            arg_bindings: ArgsBinding {
                binding: vec!["with_some_arg".to_string()],
            },
        }],
    };

    // remove the first add another
    with_changes.term.rules.remove(0);
    with_changes.term.rules.push(new_rule.clone());

    let new_arg = NameDescription::new("SomeNewArg", "With some desc");
    with_changes.meta.args.push(new_arg.clone());

    let mut relevant = get_affected(
        &original.clone(),
        &Change::Changes(
            vec![
                TermChange::ArgChanges(vec![drag_and_drop::Change::Pushed(new_arg)]),
                TermChange::RuleChanges,
            ],
            "test".to_string(),
            with_changes,
        ),
    );
    relevant.sort();

    let mut expected = vec![
        "first_related",
        "first_body_term",
        "second_body_term",
        "new_rule_body_term",
    ];
    expected.sort();
    assert_eq!(relevant, expected);
}

/*apply_changes tests*/

#[test]
fn test_apply_changes_pushed_and_moved_arg() {
    let original = create_test_term();
    let pushed_arg = NameDescription::new("New_arg", "with some descritpion");
    let mut after_change = original.clone();
    after_change.meta.args.push(pushed_arg.clone());

    let related_term = create_related_test_term();

    // Define changes for ArgChanges
    let arg_change = drag_and_drop::Change::Pushed(pushed_arg.clone());
    let changes = Change::Changes(
        vec![TermChange::ArgChanges(vec![arg_change])],
        "test".to_owned(),
        after_change.clone(),
    );

    let mut filter = TermsFilter::new(&related_term);
    apply_changes(&changes, &original, &mut filter);
    let result = all_terms(filter);

    // the original term's facts and rules' heads are also modified
    let mut after_change = result.get(&original.meta.term.name).unwrap().to_owned();
    let result = result.get(&related_term.meta.term.name).unwrap().to_owned();

    let mut expected = related_term.clone();

    let idx = expected.term.rules[1]
        .body
        .iter_mut()
        .position(|x| x.name == "test")
        .unwrap();
    expected.term.rules[1].body[idx]
        .arg_bindings
        .binding
        .push("_".to_string());

    assert_eq!(result, expected);

    // now go for a move
    after_change.meta.args.swap(1, 0);
    let changes = Change::Changes(
        vec![TermChange::ArgChanges(vec![drag_and_drop::Change::Moved(
            vec![1, 0],
        )])],
        "test".to_owned(),
        after_change.clone(),
    );

    let mut filter = TermsFilter::new(&expected);
    apply_changes(&changes, &after_change, &mut filter);
    let result = all_terms(filter)
        .get(&expected.meta.term.name)
        .unwrap()
        .to_owned();

    let idx = expected.term.rules[1]
        .body
        .iter_mut()
        .position(|x| x.name == "test")
        .unwrap();
    expected.term.rules[1].body[idx]
        .arg_bindings
        .binding
        .swap(1, 0);

    assert_eq!(result, expected);
}

#[test]
fn test_apply_changes_removed_arg() {
    let original = create_test_term();
    let mut after_change = original.clone();
    after_change.meta.args.pop();

    let related_term = create_related_test_term();

    let arg_change = drag_and_drop::Change::Removed(0, NameDescription::new("what", "ever"));
    let changes = Change::Changes(
        vec![TermChange::ArgChanges(vec![arg_change])],
        "test".to_owned(),
        after_change,
    );

    let mut filter = TermsFilter::new(&related_term);
    apply_changes(&changes, &original, &mut filter);
    let result = all_terms(filter)
        .get(&related_term.meta.term.name)
        .unwrap()
        .to_owned();
    let mut expected = related_term.clone();

    let idx = expected.term.rules[1]
        .body
        .iter_mut()
        .position(|x| x.name == "test")
        .unwrap();
    expected.term.rules[1].body[idx].arg_bindings.binding.pop();

    // Assert the result is the updated term
    assert_eq!(result, expected);
}

#[test]
fn test_apply_changes_rule_change() {
    let original = create_test_term();
    let mut after_changes = original.clone();
    after_changes.term.rules[0].body.remove(0);

    let mentioned = create_mentioned_term();
    assert_eq!(mentioned.meta.referred_by, vec!["test"]);

    // Define changes for RuleChanges
    let changes = Change::Changes(
        vec![TermChange::RuleChanges],
        "test".to_owned(),
        after_changes,
    );

    let mut filter = TermsFilter::new(&mentioned);
    apply_changes(&changes, &original, &mut filter);
    let result = all_terms(filter)
        .get(&mentioned.meta.term.name)
        .unwrap()
        .to_owned();
    let mut expected = mentioned;
    expected.meta.referred_by.clear();

    assert_eq!(result, expected);
}

#[test]
fn test_apply_changes_rename() {
    let original = create_test_term();
    let mut updated = original.clone();
    updated.meta.term.name = "new_name_who_dis".to_string();

    let mentioned = create_mentioned_term();
    assert_eq!(mentioned.meta.referred_by, vec!["test"]);
    let related = create_related_test_term();

    // Define changes for renaming
    let changes = Change::Changes(vec![], "test".to_owned(), updated.clone());

    let mut filter = TermsFilter::new(&mentioned);
    apply_changes(&changes, &original, &mut filter);
    let changed_mentioned = all_terms(filter)
        .get(&mentioned.meta.term.name)
        .unwrap()
        .to_owned();
    let mut expected_changed_mentioned = mentioned;
    expected_changed_mentioned.meta.referred_by = vec![updated.meta.term.name.clone()];
    assert_eq!(changed_mentioned, expected_changed_mentioned);

    let mut filter = TermsFilter::new(&related);
    apply_changes(&changes, &original, &mut filter);
    let changed_related = all_terms(filter)
        .get(&related.meta.term.name)
        .unwrap()
        .to_owned();
    let mut expected_changed_related = related;
    let idx = expected_changed_related.term.rules[1]
        .body
        .iter_mut()
        .position(|x| x.name == "test")
        .unwrap();
    expected_changed_related.term.rules[1].body[idx].name = updated.meta.term.name;
    assert_eq!(changed_related, expected_changed_related);
}
