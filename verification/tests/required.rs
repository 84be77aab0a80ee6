use sara::capture::{extract_title, is_url};
use sara::commands::sync::resolve_github_token_from;
use sara::db::{derive_link_label, Anchor, GithubSyncSettings, SOURCE_MANUAL};
use sara::git::parse_github_owner_repo;
use sara::project::project_root_for;
use sara::vault::slugify;

#[test]
fn detects_urls() {
    assert!(is_url("https://example.com"));
    assert!(!is_url("hello world"));
}

#[test]
fn extracts_title_from_html() {
    let html = "<html><head><title>Hello</title></head></html>";
    assert_eq!(extract_title(html), Some("Hello".into()));
}

#[test]
fn gh_token_takes_precedence_over_github_token() {
    let token = resolve_github_token_from(
        |key: &str| match key {
            "GH_TOKEN" => Some("gh-token".into()),
            "GITHUB_TOKEN" => Some("github-token".into()),
            _ => None,
        },
        || Some("gh-cli-token".into()),
    )
    .unwrap();
    assert_eq!(token, "gh-token");
}

#[test]
fn falls_back_to_github_token_when_gh_token_absent() {
    let token = resolve_github_token_from(
        |key: &str| match key {
            "GH_TOKEN" => None,
            "GITHUB_TOKEN" => Some("github-token".into()),
            _ => None,
        },
        || Some("gh-cli-token".into()),
    )
    .unwrap();
    assert_eq!(token, "github-token");
}

#[test]
fn falls_back_to_gh_auth_token_when_env_absent() {
    let token = resolve_github_token_from(|_: &str| None, || Some("gh-cli-token".into())).unwrap();
    assert_eq!(token, "gh-cli-token");
}

#[test]
fn env_token_wins_over_gh_auth_token() {
    let token = resolve_github_token_from(
        |key: &str| if key == "GH_TOKEN" { Some("gh-token".into()) } else { None },
        || Some("gh-cli-token".into()),
    )
    .unwrap();
    assert_eq!(token, "gh-token");
}

#[test]
fn fails_with_clear_error_when_no_token_anywhere() {
    let err = resolve_github_token_from(|_: &str| None, || None).unwrap_err();
    let msg = err.to_string();
    assert!(msg.contains("GH_TOKEN"), "{msg}");
    assert!(msg.contains("GITHUB_TOKEN"), "{msg}");
    assert!(msg.contains("gh auth login"), "{msg}");
}

#[test]
fn github_pr_url_gets_nice_label() {
    assert_eq!(
        derive_link_label("https://github.com/acme/widgets/pull/42"),
        Some("PR #42 · acme/widgets".to_string())
    );
    assert_eq!(
        derive_link_label("https://github.com/acme/widgets/issues/7"),
        Some("Issue #7 · acme/widgets".to_string())
    );
    assert_eq!(derive_link_label("https://example.com/foo"), None);
}

#[test]
fn is_url_detects_links_vs_paths() {
    assert!(sara::db::is_url("https://github.com/a/b/pull/1"));
    assert!(sara::db::is_url("http://example.com"));
    assert!(sara::db::is_url("www.test.dk"));
    assert!(!sara::db::is_url("src/main.rs"));
    assert!(!sara::db::is_url("Cargo.toml"));
}

#[test]
fn anchor_location_formats_partial_ranges() {
    let single = Anchor {
        path: "x".into(),
        source: SOURCE_MANUAL.into(),
        reason: None,
        symbol: None,
        line_start: Some(42),
        line_end: None,
    };
    assert_eq!(single.location(), " (L42)");

    let bare = Anchor {
        path: "x".into(),
        source: SOURCE_MANUAL.into(),
        reason: None,
        symbol: Some("foo".into()),
        line_start: None,
        line_end: None,
    };
    assert_eq!(bare.location(), " :: foo");
}

#[test]
fn github_sync_no_secret_field_in_settings_struct() {
    let s = GithubSyncSettings {
        repo: Some("org/repo".into()),
        login: Some("user".into()),
        scope: Some("issues".into()),
    };
    assert!(
        !s.login.as_deref().unwrap_or("").starts_with("ghp_"),
        "login field should hold a username, not a PAT"
    );
}

#[test]
fn parses_ssh_remote_url() {
    let (o, r) = parse_github_owner_repo("git@github.com:owner/repo.git").unwrap();
    assert_eq!(o, "owner");
    assert_eq!(r, "repo");
}

#[test]
fn parses_https_url_with_git_suffix() {
    let (o, r) = parse_github_owner_repo("https://github.com/owner/repo.git").unwrap();
    assert_eq!(o, "owner");
    assert_eq!(r, "repo");
}

#[test]
fn parses_https_url_without_git_suffix() {
    let (o, r) = parse_github_owner_repo("https://github.com/owner/repo").unwrap();
    assert_eq!(o, "owner");
    assert_eq!(r, "repo");
}

#[test]
fn parses_http_url() {
    let (o, r) = parse_github_owner_repo("http://github.com/owner/repo.git").unwrap();
    assert_eq!(o, "owner");
    assert_eq!(r, "repo");
}

#[test]
fn parses_url_with_surrounding_whitespace() {
    let (o, r) = parse_github_owner_repo("  git@github.com:owner/repo.git\n").unwrap();
    assert_eq!(o, "owner");
    assert_eq!(r, "repo");
}

#[test]
fn rejects_non_github_url() {
    assert!(parse_github_owner_repo("https://gitlab.com/user/repo.git").is_none());
}

#[test]
fn rejects_url_with_empty_owner() {
    assert!(parse_github_owner_repo("git@github.com:/repo.git").is_none());
}

#[test]
fn rejects_url_with_empty_repo() {
    assert!(parse_github_owner_repo("https://github.com/owner/").is_none());
}

#[test]
fn home_dotfiles_repo_does_not_capture_subfolder() {
    let home = "/home/u";
    let dir = "/home/u/workspace";
    assert_eq!(project_root_for(dir, Some(home), Some(home)), "/home/u/workspace");
}

#[test]
fn real_repo_under_home_is_used_as_root() {
    let home = "/home/u";
    let repo = "/home/u/projects/myrepo";
    let dir = "/home/u/projects/myrepo/src";
    assert_eq!(project_root_for(dir, Some(repo), Some(home)), "/home/u/projects/myrepo");
}

#[test]
fn no_git_root_falls_back_to_dir() {
    let dir = "/home/u/workspace";
    assert_eq!(project_root_for(dir, None, Some("/home/u")), "/home/u/workspace");
}

#[test]
fn git_root_above_home_is_rejected() {
    let dir = "/home/u/workspace";
    assert_eq!(project_root_for(dir, Some("/"), Some("/home/u")), "/home/u/workspace");
}

#[test]
fn git_root_equal_to_dir_is_used() {
    let home = "/home/u";
    let dir = "/home/u/projects/myrepo";
    assert_eq!(project_root_for(dir, Some(dir), Some(home)), "/home/u/projects/myrepo");
}

#[test]
fn slugify_sanitizes_titles() {
    assert_eq!(slugify("Hello World!"), "hello-world");
    assert_eq!(slugify("///"), "untitled");
}
