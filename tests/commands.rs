use git_mirror::{commands_for, existing_repo_commands, repo_exists};
use std::path::Path;

#[test]
fn test_repo_exists_false() {
    let tmp = Path::new("/nonexistent/git_mirror_repo_exists_false_unit");
    assert!(!repo_exists(tmp.exists(), tmp.join(".git").is_dir()));
}

#[test]
fn checkout_needs_both_probes() {
    assert!(repo_exists(true, true));
    assert!(!repo_exists(true, false));
    assert!(!repo_exists(false, true));
    assert!(!repo_exists(false, false));
}

#[test]
fn test_existing_repo_commands_print_cd() {
    let tmp = Path::new("/tmp/git_mirror_existing_commands_cd_unit");
    let s = existing_repo_commands(tmp, true);
    assert!(s.starts_with("cd \""));
    assert!(!s.contains("pull"));
}

#[test]
fn test_existing_repo_commands_pull() {
    let tmp = Path::new("/tmp/git_mirror_existing_commands_pull_unit");
    let s = existing_repo_commands(tmp, false);
    assert!(s.contains("git -C"));
    assert!(s.contains("pull --ff-only"));
}

#[test]
fn commands_text_is_exact() {
    assert_eq!(commands_for("/p/q", true), "cd \"/p/q\"");
    assert_eq!(commands_for("/p/q", false), "cd \"/p/q\"\ngit -C \"/p/q\" pull --ff-only");
}

