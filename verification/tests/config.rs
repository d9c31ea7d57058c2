use gitgui::config::{push_recent, recent_candidates, recent_text, same_path_exec, MAX_RECENT};

#[test]
fn opening_moves_a_repository_to_the_front_once() {
    let mut list = vec!["/a".to_string(), "/b".to_string(), "/c".to_string()];
    push_recent(&mut list, "/b");
    assert_eq!(list, vec!["/b", "/a", "/c"]);
    push_recent(&mut list, "/d");
    assert_eq!(list, vec!["/d", "/b", "/a", "/c"]);
}

#[test]
fn the_recent_list_keeps_twelve() {
    let mut list: Vec<String> = (0..MAX_RECENT).map(|i| format!("/r{i}")).collect();
    push_recent(&mut list, "/new");
    assert_eq!(list.len(), MAX_RECENT);
    assert_eq!(list[0], "/new");
    assert_eq!(list[MAX_RECENT - 1], "/r10");
}

#[test]
fn the_settings_file_round_trips() {
    let list = vec!["/a b".to_string(), "/c".to_string()];
    let text = recent_text(&list);
    assert_eq!(text, "/a b\n/c\n");
    assert_eq!(recent_candidates(&text), list);
    assert_eq!(recent_candidates("  /x  \n\n\r\n/y"), vec!["/x", "/y"]);
}

#[test]
fn the_same_path_written_differently_is_listed_once() {
    let mut list = vec!["/repo/".to_string(), "/x".to_string(), "/repo//".to_string(), "/repo/.".to_string()];
    push_recent(&mut list, "/repo");
    assert_eq!(list, vec!["/repo", "/x"]);
    let mut list = vec!["/work//repo".to_string(), "repo".to_string(), "./repo".to_string()];
    push_recent(&mut list, "/work/repo");
    assert_eq!(list, vec!["/work/repo", "repo", "./repo"], "a relative path is another path");
}

#[test]
fn paths_compare_by_components() {
    assert!(same_path_exec("/repo/", "/repo"));
    assert!(same_path_exec("/a//b/./c", "/a/b/c"));
    assert!(!same_path_exec("/a/b", "a/b"));
    assert!(!same_path_exec("./a", "a"));
    assert!(!same_path_exec("/a/b", "/a/c"));
    assert!(same_path_exec("", ""));
}
