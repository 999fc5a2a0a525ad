use agent_teams::paths::{
    default_tasks_root, default_teams_root, json_file, json_stem, tasks_root_in, teams_root_in,
};

#[test]
fn a_document_file_is_the_stem_with_json() {
    assert_eq!(json_file("alice"), "alice.json");
    assert_eq!(json_file(""), ".json");
    assert_eq!(json_file("a.b"), "a.b.json");
}

#[test]
fn a_file_name_stands_for_its_stem() {
    assert_eq!(json_stem("alice.json"), Some("alice".to_string()));
    assert_eq!(json_stem("a.b.json"), Some("a.b".to_string()));
    assert_eq!(json_stem("\u{e9}t\u{e9}.json"), Some("\u{e9}t\u{e9}".to_string()));
    assert_eq!(json_stem("x.json"), Some("x".to_string()));
}

#[test]
fn other_files_are_no_documents() {
    assert_eq!(json_stem(".json"), None);
    assert_eq!(json_stem("json"), None);
    assert_eq!(json_stem(""), None);
    assert_eq!(json_stem("alice.JSON"), None);
    assert_eq!(json_stem("alice.json.bak"), None);
    assert_eq!(json_stem("alice.jso"), None);
    assert_eq!(json_stem("alicejson"), None);
}

#[test]
fn the_stem_of_a_document_file_is_found_again() {
    for stem in ["alice", "b", "with space", "dots.in.name"] {
        assert_eq!(json_stem(&json_file(stem)), Some(stem.to_string()));
    }
}

#[test]
fn roots_lie_in_the_home_directory() {
    let home = Some("/home/alice".to_string());
    assert_eq!(teams_root_in(&home), "/home/alice/.codex/teams");
    assert_eq!(tasks_root_in(&home), "/home/alice/.codex/tasks");
}

#[test]
fn roots_without_a_home_lie_in_the_current_directory() {
    assert_eq!(teams_root_in(&None), "./.codex/teams");
    assert_eq!(tasks_root_in(&None), "./.codex/tasks");
}

#[test]
fn default_roots_end_in_the_store_names() {
    let teams = default_teams_root();
    let tasks = default_tasks_root();
    assert!(teams.ends_with("/.codex/teams"));
    assert!(tasks.ends_with("/.codex/tasks"));
    assert_eq!(teams.strip_suffix("teams"), tasks.strip_suffix("tasks"));
}
