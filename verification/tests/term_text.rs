use term_editor::model::{ArgsBinding, BoundTerm, Rule};
use term_editor::term_text::{fact_text, rule_text};

fn binding(v: &[&str]) -> ArgsBinding {
    ArgsBinding {
        binding: v.iter().map(|s| s.to_string()).collect(),
    }
}

#[test]
fn facts_are_written_as_calls() {
    assert_eq!(fact_text("likes", &binding(&["ann", "bob"])), "likes ( ann, bob )");
    assert_eq!(fact_text("t", &binding(&[])), "t (  )");
}

#[test]
fn rules_are_written_with_their_body() {
    let rule = Rule {
        arg_bindings: binding(&["X", "Y"]),
        body: vec![
            BoundTerm {
                name: "father".to_string(),
                arg_bindings: binding(&["X", "Y"]),
            },
            BoundTerm {
                name: "mother".to_string(),
                arg_bindings: binding(&["Y"]),
            },
        ],
    };
    assert_eq!(
        rule_text("parent", &rule),
        "parent ( X, Y ) if father ( X, Y ), mother ( Y )"
    );
    let empty_body = Rule {
        arg_bindings: binding(&["X"]),
        body: vec![],
    };
    assert_eq!(rule_text("t", &empty_body), "t ( X ) if ");
}
