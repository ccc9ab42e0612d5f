use term_editor::change_tracking_list::Change as ChangeTrackingChange;
use term_editor::commit::{concerns_ongoing_commit, finish_commit};
use term_editor::drag_and_drop::{single_move_order, DragAndDrop};
use term_editor::model::{ArgsBinding, BoundTerm, Comment, FatTerm, NameDescription, Rule, Term};
use term_editor::placeholder::{FactPlaceholder, HeadPlaceholder, RulePlaceholder};
use term_editor::points_in_time::{ChangeSource, PointsInTime};
use term_editor::term_list::{TermList, TermListOutput};
use term_editor::tabs::{ChosenTab, Tabs};
use term_editor::edit_screen::EditChange;
use term_editor::term_screen::{Output, TermScreen};
use term_editor::terms_filter::TermsFilter;
use term_editor::two_phase_commit::{ready_for_commit, TwoPhaseCommit};

fn strings(v: &[&str]) -> Vec<String> {
    v.iter().map(|s| s.to_string()).collect()
}

fn named(name: &str) -> FatTerm {
    FatTerm::new(
        Comment::new(NameDescription::new(name, ""), vec![], vec![]),
        Term::new(vec![], vec![]),
    )
}

fn sorted(mut v: Vec<String>) -> Vec<String> {
    v.sort();
    v
}

#[test]
fn head_placeholder_is_cleared_when_the_arity_changes() {
    let mut head = HeadPlaceholder::new(&strings(&["X", "Y"]));
    head.fit_to(2);
    assert_eq!(head.binding, strings(&["X", "Y"]));
    head.fit_to(3);
    assert_eq!(head.binding, strings(&["", "", ""]));
    head.fit_to(0);
    assert!(head.binding.is_empty());
}

#[test]
fn fact_placeholder_hands_out_its_fact_and_empties() {
    let mut fact = FactPlaceholder::new(&strings(&["a", "b"]));
    let taken = fact.take_fact();
    assert_eq!(taken.binding, strings(&["a", "b"]));
    assert!(fact.head.binding.is_empty());
}

#[test]
fn rule_placeholder_drops_unnamed_body_items() {
    let mut placeholder = RulePlaceholder::new();
    assert_eq!(placeholder.body.len(), 1);
    placeholder.head = HeadPlaceholder::new(&strings(&["X"]));
    placeholder.set_body_term(0, "parent".to_string(), 2);
    assert_eq!(placeholder.body[0].1, strings(&["", ""]));
    placeholder.body[0].1 = strings(&["X", "Y"]);
    placeholder.body.push((String::new(), strings(&["ignored"])));
    placeholder.body.push(("child".to_string(), strings(&["Y"])));

    let rule = placeholder.take_rule();
    assert_eq!(rule.arg_bindings.binding, strings(&["X"]));
    assert_eq!(rule.body.len(), 2);
    assert_eq!(rule.body[0].name, "parent");
    assert_eq!(rule.body[0].arg_bindings.binding, strings(&["X", "Y"]));
    assert_eq!(rule.body[1].name, "child");
    // the placeholder starts over
    assert!(placeholder.head.binding.is_empty());
    assert_eq!(placeholder.body.len(), 1);
    assert!(placeholder.body[0].0.is_empty());
}

#[test]
fn rule_round_trips_through_its_placeholder() {
    let rule = Rule {
        arg_bindings: ArgsBinding {
            binding: strings(&["A"]),
        },
        body: vec![BoundTerm {
            name: "mentioned".to_string(),
            arg_bindings: ArgsBinding {
                binding: strings(&["A", "_"]),
            },
        }],
    };
    let back = RulePlaceholder::from_rule(rule.clone()).into_rule();
    assert_eq!(back, rule);
}

#[test]
fn points_in_time_tell_internal_from_external_changes() {
    let mut pits = PointsInTime::new(&named("term"));
    assert_eq!(pits.len(), 1);
    assert_eq!(pits.latest(), &named("term"));

    pits.push_pit(&named("term"), "term");
    pits.push_pit(&named("term"), "other");
    assert_eq!(pits.len(), 3);
    assert_eq!(pits.change_sources(), strings(&["term", "other"]));
    assert_eq!(pits.original(), &named("term"));
    assert_eq!(pits.pit_at(0), &named("term"));
}

#[test]
fn points_in_time_compare_with_the_latest_version() {
    let mut pits = PointsInTime::new(&named("old"));
    pits.push_pit(&named("new"), "old");
    // the latest version is named "new" now, so "old" is another term
    pits.push_pit(&named("new"), "old");
    pits.push_pit(&named("new"), "new");
    assert_eq!(pits.change_sources(), strings(&["old", "old", "old"]));
    assert_eq!(pits.latest(), &named("new"));
    assert_eq!(pits.pit_at(1), &named("new"));
}

#[test]
fn two_phase_commit_moves_approvals() {
    let mut commit = TwoPhaseCommit::new("origin", true);
    assert!(commit.is_initiator());
    assert_eq!(commit.origin(), "origin");
    commit.append_approval_from(&strings(&["a", "b", "a"]));
    assert_eq!(sorted(commit.waiting_for()), strings(&["a", "b"]));

    commit.approve_from("c");
    assert_eq!(sorted(commit.waiting_for()), strings(&["a", "b"]));
    assert!(commit.approved().is_empty());

    commit.approve_from("a");
    assert_eq!(commit.waiting_for(), strings(&["b"]));
    assert_eq!(commit.approved(), strings(&["a"]));

    commit.append_approval_from(&strings(&["a"]));
    commit.approve_from("a");
    assert_eq!(commit.approved(), strings(&["a"]));
}

#[test]
fn two_phase_commit_approves_its_waiters() {
    // "source" changed and waits for "mentioned", whose commit knows it.
    let mut source = TwoPhaseCommit::new("source", true);
    source.append_approval_from(&strings(&["mentioned", "other"]));
    let unrelated = TwoPhaseCommit::new("unrelated", false);
    let mut mentioned = TwoPhaseCommit::new("mentioned", false);
    assert!(!mentioned.is_initiator());
    assert!(!mentioned.is_being_waited());
    mentioned.add_approval_waiter("source".to_string());
    assert!(mentioned.is_being_waited());

    let mut commits = vec![source, unrelated];
    assert!(!ready_for_commit(&commits));
    mentioned.approve_all("mentioned", &mut commits);
    assert!(!mentioned.is_being_waited());
    assert_eq!(commits[0].waiting_for(), strings(&["other"]));
    assert_eq!(commits[0].approved(), strings(&["mentioned"]));
    assert!(commits[0].is_waiting());
    assert!(!commits[1].is_waiting());
    assert!(commits[1].approved().is_empty());
    assert!(!ready_for_commit(&commits));

    let mut other = TwoPhaseCommit::new("other", false);
    other.add_approval_waiter("source".to_string());
    other.approve_all("other", &mut commits);
    assert!(!commits[0].is_waiting());
    assert_eq!(sorted(commits[0].approved()), strings(&["mentioned", "other"]));
    assert!(ready_for_commit(&commits));
}

#[test]
fn two_phase_commit_without_waiters_approves_nothing() {
    let mut source = TwoPhaseCommit::new("source", true);
    source.append_approval_from(&strings(&["mentioned"]));
    let mut commits = vec![source];
    let mut mentioned = TwoPhaseCommit::new("mentioned", false);
    mentioned.approve_all("mentioned", &mut commits);
    assert_eq!(commits[0].waiting_for(), strings(&["mentioned"]));
    assert!(ready_for_commit(&Vec::new()));
}

#[test]
fn term_list_adds_the_filtered_name() {
    let mut list = TermList::new();
    assert!(list.filter.is_empty());
    list.filter.push_str("new_term");
    match list.add_term() {
        TermListOutput::AddTerm(name) => assert_eq!(name, "new_term"),
        TermListOutput::SelectedTerm(_) => panic!("a new term was expected"),
    }
    assert!(list.filter.is_empty());
}

#[test]
fn inactive_list_ignores_drags() {
    let mut list = DragAndDrop::new(strings(&["a", "b", "c"]));
    assert!(!list.is_active());
    assert_eq!(list.drag_to(0, 2), None);
    assert_eq!(list.items(), &strings(&["a", "b", "c"]));
}

#[test]
fn dragged_item_lands_at_most_at_the_end() {
    let mut list = DragAndDrop::new(strings(&["a", "b", "c"]));
    list.unlock();
    assert_eq!(list.drag_to(0, 7), Some((0, 2)));
    assert_eq!(list.items(), &strings(&["b", "c", "a"]));
    assert_eq!(list.drag_to(1, 1), None);
    assert_eq!(list.len(), 3);
}

#[test]
fn reported_single_move_matches_the_recorded_order() {
    assert_eq!(single_move_order(3, 0, 2), vec![1, 2, 0]);
    assert_eq!(single_move_order(4, 3, 1), vec![0, 3, 1, 2]);

    let mut list = DragAndDrop::new(strings(&["a", "b", "c"]));
    list.unlock();
    list.drag_to(0, 2);
    list.push("d".to_string());
    let changes = list.lock();
    assert!(!list.is_active());
    assert_eq!(
        changes,
        vec![
            ChangeTrackingChange::Moved(single_move_order(3, 0, 2)),
            ChangeTrackingChange::Pushed()
        ]
    );
}

#[test]
fn removal_is_recorded_with_the_item() {
    let mut list = DragAndDrop::new(strings(&["a", "b"]));
    list.unlock();
    list.remove(0);
    assert_eq!(list.items(), &strings(&["b"]));
    assert_eq!(
        list.lock(),
        vec![ChangeTrackingChange::Removed(0, "a".to_string())]
    );
}

#[test]
fn term_screen_edit_session_hands_out_changes() {
    let mut screen = TermScreen::new(&named("t"), false);
    assert!(!screen.in_edit());
    assert!(screen.is_ready_for_change());
    assert_eq!(screen.showing(), Some(0));
    assert_eq!(screen.name(), "t");

    screen.start_edit();
    assert!(screen.in_edit());
    assert_eq!(screen.showing(), None);
    assert_eq!(screen.shown(), named("t"));

    screen.editing_mut().set_description("new".to_string());
    let mut updated = named("t");
    updated.meta.term.desc = "new".to_string();
    assert_eq!(screen.shown(), updated);
    match screen.finish_edit() {
        Some(Output::Changes(changes, term)) => {
            assert_eq!(changes.len(), 1);
            assert!(matches!(changes[0], EditChange::DescriptionChange));
            assert_eq!(term, updated);
        }
        _ => panic!("changes were expected"),
    }
    assert!(!screen.in_edit());
    assert_eq!(screen.showing(), Some(0));

    screen.start_edit();
    assert!(screen.finish_edit().is_none());
}

#[test]
fn term_screen_deletes_only_when_confirmed() {
    let mut screen = TermScreen::new(&named("t"), true);
    assert!(screen.in_edit());
    assert!(screen.delete().is_none());
    assert!(!screen.in_deletion());

    screen.set_delete_confirmation("delete".to_string());
    match screen.delete() {
        Some(Output::Deleted(name)) => assert_eq!(name, "t"),
        _ => panic!("a deletion was expected"),
    }
    assert!(screen.in_deletion());
    assert!(!screen.in_edit());
}

#[test]
fn term_screen_shows_chosen_versions() {
    let mut screen = TermScreen::new(&named("t"), false);
    screen.push_pit(&named("t2"), "other");
    screen.choose_pit(1);
    assert_eq!(screen.showing(), Some(1));
    assert_eq!(screen.shown(), named("t2"));
    screen.choose_pit(5);
    assert_eq!(screen.showing(), Some(1));
    assert_eq!(screen.extract_term(), named("t2"));
    assert_eq!(screen.get_pits().len(), 2);
}

#[test]
fn tabs_are_labelled_by_name_and_editing() {
    let mut tabs = Tabs::new();
    tabs.push(&named("first"));
    tabs.add_new_term();
    assert_eq!(tabs.tab_label(0), "first");
    assert_eq!(tabs.tab_label(1), "untitled");
    assert!(tabs.selection() == ChosenTab::Term(1));
    let mut editing = Tabs::new();
    editing.push(&named("second"));
    assert_eq!(editing.tab_label(0), "second");
}

#[test]
fn closing_a_tab_keeps_the_selection_on_its_term() {
    let mut tabs = Tabs::new();
    for name in ["a", "b", "c"] {
        tabs.push(&named(name));
    }
    tabs.select(&"c".to_string());
    assert!(tabs.selection() == ChosenTab::Term(2));
    tabs.close_tab(0);
    assert!(tabs.selection() == ChosenTab::Term(1));
    assert_eq!(tabs.screen(1).name(), "c");
    tabs.close_tab(1);
    assert!(tabs.selection() == ChosenTab::Ask);
    assert_eq!(tabs.len(), 1);
}

#[test]
fn a_tab_being_edited_is_selected_instead_of_closed() {
    let mut tabs = Tabs::new();
    tabs.push(&named("a"));
    tabs.add_new_term();
    tabs.select(&"a".to_string());
    tabs.close_tab(1);
    assert_eq!(tabs.len(), 2);
    assert!(tabs.selection() == ChosenTab::Term(1));
}

#[test]
fn tabs_open_close_and_find_terms() {
    let mut kb = TermsFilter::empty();
    kb.put(&"stored".to_string(), &named("stored"));
    let mut tabs = Tabs::new();
    tabs.push(&named("a"));
    tabs.select_with_push(&"stored".to_string(), &kb);
    assert_eq!(tabs.len(), 2);
    assert!(tabs.selection() == ChosenTab::Term(1));
    tabs.select_with_push(&"a".to_string(), &kb);
    assert_eq!(tabs.len(), 2);
    assert!(tabs.selection() == ChosenTab::Term(0));

    assert_eq!(tabs.position(&"stored".to_string()), Some(1));
    assert!(tabs.get(&"missing".to_string()).is_none());
    assert_eq!(tabs.positions_of(&strings(&["stored", "a", "x"])), vec![0, 1]);

    tabs.close(&"a".to_string());
    assert!(tabs.selection() == ChosenTab::Ask);
    assert_eq!(tabs.len(), 1);
    tabs.close(&"missing".to_string());
    assert_eq!(tabs.len(), 1);
}

#[test]
fn closing_an_earlier_tab_by_name_keeps_the_selected_position() {
    let mut tabs = Tabs::new();
    tabs.push(&named("a"));
    tabs.push(&named("b"));
    tabs.select(&"b".to_string());
    tabs.close(&"a".to_string());
    // the selected position is kept as it was, past the remaining tab
    assert!(tabs.selection() == ChosenTab::Term(1));
    assert_eq!(tabs.len(), 1);
}

#[test]
fn finished_commit_deletes_and_stores_terms() {
    let mut kb = TermsFilter::empty();
    kb.put(&"a".to_string(), &named("a"));
    kb.put(&"b".to_string(), &named("b"));

    let mut deleted = TermScreen::new(&named("a"), true);
    deleted.set_delete_confirmation("delete".to_string());
    assert!(deleted.delete().is_some());
    let mut changed = TermScreen::new(&named("b"), false);
    let mut b2 = named("b");
    b2.meta.term.desc = "second version".to_string();
    changed.push_pit(&b2, "a");

    let mut tabs = Tabs::new();
    finish_commit(vec![deleted, changed], &mut tabs, &mut kb);

    assert!(kb.get(&"a".to_string()).is_none());
    assert_eq!(kb.get(&"b".to_string()), Some(&b2));
    assert_eq!(kb.len(), 1);
    assert_eq!(tabs.len(), 1);
    assert_eq!(tabs.screen(0).extract_term(), b2);
    assert!(!tabs.screen(0).in_edit());
}

#[test]
fn deleting_a_stored_term_forgets_only_it() {
    let mut kb = TermsFilter::empty();
    kb.put(&"a".to_string(), &named("a"));
    kb.put(&"b".to_string(), &named("b"));
    kb.delete(&"a".to_string());
    assert!(kb.get(&"a".to_string()).is_none());
    assert_eq!(kb.get(&"b".to_string()), Some(&named("b")));
    kb.delete(&"missing".to_string());
    assert_eq!(kb.len(), 1);
}

#[test]
fn a_newly_mentioned_commit_term_concerns_the_change() {
    let original = named("t");
    let mut updated = named("t");
    updated.term.rules.push(Rule {
        arg_bindings: ArgsBinding {
            binding: strings(&["X"]),
        },
        body: vec![BoundTerm {
            name: "in_commit".to_string(),
            arg_bindings: ArgsBinding {
                binding: strings(&["X"]),
            },
        }],
    });
    assert!(concerns_ongoing_commit(
        &original,
        &updated,
        &strings(&["other", "in_commit"])
    ));
    assert!(!concerns_ongoing_commit(&original, &updated, &strings(&["other"])));
    assert!(!concerns_ongoing_commit(
        &updated,
        &updated,
        &strings(&["in_commit"])
    ));
}

#[test]
fn a_term_being_edited_is_starred_and_kept_open() {
    let mut tabs = Tabs::new();
    tabs.push(&named("a"));
    tabs.push(&named("b"));
    tabs.screen_mut(0).start_edit();
    assert_eq!(tabs.tab_label(0), "a*");
    assert_eq!(tabs.tab_label(1), "b");
    tabs.close_tab(0);
    assert_eq!(tabs.len(), 2);
    assert!(tabs.selection() == ChosenTab::Term(0));
    assert!(tabs.screen_mut(0).finish_edit().is_none());
    assert_eq!(tabs.tab_label(0), "a");
    tabs.close_tab(0);
    assert_eq!(tabs.len(), 1);
    assert!(tabs.selection() == ChosenTab::Ask);
}

#[test]
fn a_version_pushed_for_confirmation_is_shown() {
    let mut screen = TermScreen::new(&named("t"), false);
    let mut second = named("t");
    second.meta.term.desc = "from another term".to_string();
    screen.push_for_confirmation(&second, "other");
    assert_eq!(screen.showing(), Some(1));
    assert_eq!(screen.shown(), second);
    assert_eq!(screen.get_pits().change_sources(), strings(&["other"]));
}

#[test]
fn change_sources_are_described() {
    assert_eq!(ChangeSource::Internal.text(), "Internal");
    assert_eq!(ChangeSource::External("other".to_string()).text(), "other");
}

#[test]
fn a_new_term_is_named_in_its_own_tab_once() {
    let mut tabs = Tabs::new();
    tabs.push(&named("a"));
    tabs.add_term("fresh".to_string());
    assert_eq!(tabs.len(), 2);
    assert!(tabs.selection() == ChosenTab::Term(1));
    assert!(tabs.screen(1).in_edit());
    assert_eq!(tabs.screen(1).shown().meta.term.name, "fresh");
    // the unnamed tab is still there until the term is saved
    tabs.select(&"a".to_string());
    tabs.add_term("other".to_string());
    assert_eq!(tabs.len(), 2);
    assert!(tabs.selection() == ChosenTab::Term(1));
}

#[test]
fn requested_close_keeps_a_term_tab_selected() {
    let mut tabs = Tabs::new();
    for name in ["a", "b", "c", "d"] {
        tabs.push(&named(name));
    }
    tabs.select(&"c".to_string());
    assert!(tabs.request_close(0));
    assert!(tabs.selection() == ChosenTab::Term(1));
    assert_eq!(tabs.screen(1).name(), "c");

    // closing the selected tab selects the one that takes its place
    assert!(tabs.request_close(1));
    assert!(tabs.selection() == ChosenTab::Term(1));
    assert_eq!(tabs.screen(1).name(), "d");

    // closing the selected last tab selects the new last one
    assert!(tabs.request_close(1));
    assert!(tabs.selection() == ChosenTab::Term(0));
    assert_eq!(tabs.screen(0).name(), "b");

    // closing the only tab selects the query tab
    assert!(tabs.request_close(0));
    assert!(tabs.selection() == ChosenTab::Ask);
    assert_eq!(tabs.len(), 0);
}

#[test]
fn requested_close_after_the_selection_keeps_it() {
    let mut tabs = Tabs::new();
    for name in ["a", "b", "c"] {
        tabs.push(&named(name));
    }
    tabs.select(&"a".to_string());
    assert!(tabs.request_close(2));
    assert!(tabs.selection() == ChosenTab::Term(0));
    assert_eq!(tabs.len(), 2);
}

#[test]
fn requested_close_of_an_edited_tab_selects_it() {
    let mut tabs = Tabs::new();
    tabs.push(&named("a"));
    tabs.add_new_term();
    tabs.select(&"a".to_string());
    assert!(!tabs.request_close(1));
    assert_eq!(tabs.len(), 2);
    assert!(tabs.selection() == ChosenTab::Term(1));
}
