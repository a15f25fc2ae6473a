use git_mirror::{
    classify_identifier, first_label, form_host, get_host_from_repo, get_host_from_repo_full,
    parse_identifier, path_segments, resolve_host, strip_credentials, FormKind,
};

#[test]
fn test_https() {
    let repo = "https://github.com/owner/repo.git";
    let h = get_host_from_repo(repo).expect("should parse");
    assert_eq!(h, "github");
}

#[test]
fn test_git_plus_https() {
    let repo = "git+https://gitlab.com/owner/repo.git";
    let h = get_host_from_repo(repo).expect("should parse");
    assert_eq!(h, "gitlab");
}

#[test]
fn test_scp_style() {
    let repo = "git@bitbucket.org:owner/repo.git";
    let h = get_host_from_repo(repo).expect("should parse");
    assert_eq!(h, "bitbucket");
}

#[test]
fn test_plain_host_path() {
    let repo = "github.com/owner/repo.git";
    let h = get_host_from_repo(repo).expect("should parse");
    assert_eq!(h, "github");
}

#[test]
fn test_invalid() {
    let repo = "not-a-repo";
    assert!(get_host_from_repo(repo).is_err());
}

#[test]
fn full_host_of_each_form() {
    assert_eq!(get_host_from_repo_full("https://git.example.com/a/b").unwrap(), "git.example.com");
    assert_eq!(get_host_from_repo_full("git@git.example.com:a/b.git").unwrap(), "git.example.com");
    assert_eq!(get_host_from_repo_full("git.example.com/a/b").unwrap(), "git.example.com");
    assert_eq!(resolve_host("deploy@git.example.com:a/b", false).unwrap(), "git");
}

#[test]
fn url_parser_normalises_the_host() {
    let f = parse_identifier("https://GitHub.com/Owner/Repo.git").unwrap();
    assert_eq!(f.kind, FormKind::Url);
    assert_eq!(f.host, "github.com");
    assert_eq!(f.path, "/Owner/Repo.git");
}

#[test]
fn classification_given_the_url_result() {
    let f = classify_identifier("x", Some(("h.io".to_string(), "/p".to_string()))).unwrap();
    assert_eq!(f.kind, FormKind::Url);
    assert_eq!(f.host, "h.io");
    let f = classify_identifier("git@h.io:o/r.git", None).unwrap();
    assert_eq!(f.kind, FormKind::Scp);
    assert_eq!(f.host, "h.io");
    assert_eq!(f.path, "o/r.git");
    let f = classify_identifier("h.io/o/r", None).unwrap();
    assert_eq!(f.kind, FormKind::Plain);
    assert_eq!(f.host, "h.io");
    assert_eq!(f.path, "o/r");
    assert!(classify_identifier("nohost/o/r", None).is_none());
}

#[test]
fn empty_host_is_invalid() {
    assert!(get_host_from_repo_full("git@:owner/repo").is_err());
    let f = parse_identifier("git@:owner/repo").unwrap();
    assert!(form_host(&f, true).is_none());
}

#[test]
fn segments_drop_empties_and_git_suffix() {
    assert_eq!(path_segments("/owner//sub/repo.git/"), vec!["owner", "sub", "repo"]);
    assert_eq!(path_segments(".git"), Vec::<String>::new());
    assert_eq!(path_segments("a.git/b.git"), vec!["a.git", "b"]);
}

#[test]
fn first_label_of_hosts() {
    assert_eq!(first_label("github.com"), "github");
    assert_eq!(first_label("localhost"), "localhost");
}

#[test]
fn credentials_are_stripped() {
    assert_eq!(strip_credentials("https://u:p@host/x"), "https://host/x");
    assert_eq!(strip_credentials("git+ssh://a@b@host/x@y"), "git+ssh://host/x@y");
    assert_eq!(strip_credentials("git@host:x"), "git@host:x");
}

#[test]
fn empty_short_label_is_invalid() {
    assert!(get_host_from_repo("git@.x:o").is_err());
    assert_eq!(get_host_from_repo_full("git@.x:o").unwrap(), ".x");
    let f = parse_identifier("git@.x:o").unwrap();
    assert!(form_host(&f, false).is_none());
}
