use xmlmerge::identity::{extract_worktree_name, generate_interpreter_name, interpreter_name_part};
use xmlmerge::api::workspace_mentions_project;
use xmlmerge::payload::dirname;

#[test]
fn worktree_from_trees_segment() {
    assert_eq!(extract_worktree_name("/home/me/trees/feature-x/src"), "feature-x");
    assert_eq!(extract_worktree_name("/home/me/trees/feature-x"), "feature-x");
}

#[test]
fn worktree_falls_back_to_directory_name() {
    assert_eq!(extract_worktree_name("/home/me/project"), "project");
    assert_eq!(extract_worktree_name("/home/me/project/"), "project");
    assert_eq!(extract_worktree_name(""), "unknown");
    assert_eq!(extract_worktree_name("///"), "unknown");
}

#[test]
fn name_part_under_a_worktree_is_scope_slash_leaf() {
    assert_eq!(interpreter_name_part("/home/me/trees/main/app"), "main/app");
    assert_eq!(interpreter_name_part("/home/me/app"), "app");
}

#[test]
fn display_name_follows_the_convention() {
    assert_eq!(
        generate_interpreter_name("/home/me/trees/main/app", "3.2.0", "2024-06-01"),
        "Ruby 3.2.0 (main/app) + marker 2024-06-01"
    );
    assert_eq!(
        generate_interpreter_name("/home/me/app", "3.2.0", "2024-06-01"),
        "Ruby 3.2.0 (app) + marker 2024-06-01"
    );
}

#[test]
fn dirname_of_paths() {
    assert_eq!(dirname("/opt/rubies/3.2.0/bin/ruby"), "/opt/rubies/3.2.0/bin");
    assert_eq!(dirname("/ruby"), "/");
    assert_eq!(dirname("ruby"), "");
    assert_eq!(dirname("a/b"), "a");
}

#[test]
fn workspace_mention_checks() {
    assert!(workspace_mentions_project("path is /home/me/app here", "/home/me/app"));
    assert!(workspace_mentions_project("uses $PROJECT_DIR$/src", "/elsewhere/thing"));
    assert!(workspace_mentions_project("module app only", "/home/me/app"));
    assert!(!workspace_mentions_project("nothing relevant", "/home/me/app"));
}
