use term_editor::load_module::repo_name_of;

#[test]
fn repo_name_is_the_last_path_segment() {
    assert_eq!(
        repo_name_of("git@github.com:knowledge/yields.power"),
        "yields.power"
    );
    assert_eq!(repo_name_of("https://host/org/repo.git"), "repo");
}

#[test]
fn repo_name_drops_every_trailing_git() {
    assert_eq!(repo_name_of("host/name.git.git"), "name");
    assert_eq!(repo_name_of("host/.git"), "");
    assert_eq!(repo_name_of("host/name.gi"), "name.gi");
}

#[test]
fn repo_name_after_a_trailing_slash_is_empty() {
    assert_eq!(repo_name_of("host/org/"), "");
}
