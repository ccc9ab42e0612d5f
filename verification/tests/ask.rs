use term_editor::ask::{answer_rows, build_bound_term, get_next_random_var_name, Ask, Table};
use term_editor::model::NameDescription;

#[test]
fn next_var_name_advances_the_last_letter() {
    assert_eq!(get_next_random_var_name("@"), "A");
    assert_eq!(get_next_random_var_name("A"), "B");
    assert_eq!(get_next_random_var_name("Y"), "Z");
    assert_eq!(get_next_random_var_name("ZA"), "ZB");
}

#[test]
fn next_var_name_after_z_appends_a() {
    assert_eq!(get_next_random_var_name("Z"), "ZA");
    assert_eq!(get_next_random_var_name("ZZ"), "ZZA");
}

#[test]
fn bound_term_names_free_arguments_in_order() {
    let anchors = vec![None, Some("x".to_string()), None, None];
    let bound = build_bound_term("parent", &anchors).unwrap();
    assert_eq!(bound.name, "parent");
    assert_eq!(bound.arg_bindings.binding, vec!["A", "x", "B", "C"]);
}

#[test]
fn bound_term_with_no_anchors() {
    let bound = build_bound_term("t", &vec![]).unwrap();
    assert_eq!(bound.arg_bindings.binding, Vec::<String>::new());
}

#[test]
fn bound_term_refuses_uppercase_anchor() {
    let anchors = vec![None, Some("Xavier".to_string())];
    assert_eq!(
        build_bound_term("parent", &anchors),
        Err("there are anchors that would be interpreted as Prolog variables".to_string())
    );
}

#[test]
fn table_content_is_replaced() {
    let mut table = Table::new();
    assert!(table.content().is_empty());
    table.set_content(vec![vec!["a".to_string(), "b".to_string()]]);
    assert_eq!(*table.content(), vec![vec!["a".to_string(), "b".to_string()]]);
    table.set_content(vec![]);
    assert!(table.content().is_empty());
}

#[test]
fn request_uses_anchor_or_argument_name() {
    let mut ask = Ask::new();
    ask.select_term(
        &"parent".to_string(),
        vec![NameDescription::new("Parent", "p"), NameDescription::new("Child", "c")],
    );
    assert_eq!(ask.extract_anchors(), vec![None, None]);
    assert_eq!(ask.extract_request(), vec!["Parent", "Child"]);
    ask.set_anchor(1, Some("bob".to_string()));
    assert_eq!(ask.extract_request(), vec!["Parent", "bob"]);
}

fn pairs(v: &[(&str, &str)]) -> Vec<(String, String)> {
    v.iter().map(|(a, b)| (a.to_string(), b.to_string())).collect()
}

#[test]
fn answers_replace_bound_variables() {
    let query = build_bound_term("t", &vec![None, Some("x".to_string()), None]).unwrap();
    let solutions = vec![
        pairs(&[("A", "1"), ("B", "2")]),
        pairs(&[("B", "3"), ("B", "4")]),
        vec![],
    ];
    assert_eq!(
        answer_rows(&query, &solutions),
        vec![
            vec!["1", "x", "2"],
            vec!["A", "x", "3"],
            vec!["A", "x", "B"],
        ]
    );
}

#[test]
fn ask_queries_the_selected_term_and_shows_answers() {
    let mut ask = Ask::new();
    ask.select_term(
        &"parent".to_string(),
        vec![NameDescription::new("P", ""), NameDescription::new("C", "")],
    );
    ask.set_anchor(0, Some("ann".to_string()));
    let query = ask.query().unwrap();
    assert_eq!(query.name, "parent");
    assert_eq!(query.arg_bindings.binding, vec!["ann", "A"]);

    ask.set_answers(&query, &vec![pairs(&[("A", "bob")]), pairs(&[("A", "cid")])]);
    assert_eq!(
        *ask.results().content(),
        vec![vec!["ann", "bob"], vec!["ann", "cid"]]
    );

    ask.set_anchor(1, Some("Bob".to_string()));
    assert!(ask.query().is_err());
}

#[test]
fn bound_term_free_names_run_past_z() {
    let anchors: Vec<Option<String>> = vec![None; 28];
    let bound = build_bound_term("t", &anchors).unwrap();
    let args = bound.arg_bindings.binding;
    assert_eq!(args[0], "A");
    assert_eq!(args[25], "Z");
    assert_eq!(args[26], "ZA");
    assert_eq!(args[27], "ZB");
    for i in 0..args.len() {
        for j in (i + 1)..args.len() {
            assert_ne!(args[i], args[j]);
        }
    }
}

#[test]
fn bound_term_refuses_anchor_starting_with_digit() {
    let anchors = vec![Some("1x".to_string()), None];
    assert!(build_bound_term("t", &anchors).is_err());
}
