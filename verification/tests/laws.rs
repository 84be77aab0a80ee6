use sara::db::derive_link_label;
use sara::git::parse_github_owner_repo;
use sara::project::{build_tree_summary, parse_add_tokens};
use sara::vault::slugify;
use sara::dates::UtcTime;
use sara::model::{add_months, format_duration};
use sara::project::project_root_for;

#[test]
fn slugs_are_clean_and_stable() {
    for t in ["Hello, World!", "--a--b--", "///", "Ünïcode & more", "x"] {
        let s = slugify(t);
        assert!(!s.is_empty());
        assert!(s.chars().all(|c| c.is_ascii_lowercase() || c.is_ascii_digit() || c == '-'));
        assert!(!s.starts_with('-') && !s.ends_with('-') && !s.contains("--"));
        assert_eq!(slugify(&s), s);
    }
    assert_eq!(slugify("///"), "untitled");
}

#[test]
fn owner_and_repo_round_trip() {
    for p in ["git@github.com:", "https://github.com/", "http://github.com/"] {
        let r = Some(("me".to_string(), "tool".to_string()));
        assert_eq!(parse_github_owner_repo(&format!("{p}me/tool.git")), r);
        assert_eq!(parse_github_owner_repo(&format!("{p}me/tool")), r);
    }
}

#[test]
fn github_links_label_themselves() {
    assert_eq!(derive_link_label("https://github.com/o/r/pull/12"), Some("PR #12 · o/r".to_string()));
    assert_eq!(derive_link_label("github.com/o/r/issues/7"), Some("Issue #7 · o/r".to_string()));
    assert_eq!(derive_link_label("https://example.com/foo"), None);
}

#[test]
fn tree_summary_lists_eighty_files_and_a_count() {
    let files: Vec<String> = (0..85).map(|i| format!("f{i}.rs")).collect();
    let s = build_tree_summary("/w/proj", &files);
    let lines: Vec<&str> = s.split('\n').collect();
    assert_eq!(lines.len(), 82);
    assert_eq!(lines[0], "proj/");
    assert_eq!(lines[1], "  f0.rs");
    assert_eq!(lines[81], "  ... (5 more files)");
    assert_eq!(build_tree_summary("/w/proj", &vec!["a.rs".to_string()]), "proj/\n  a.rs");
}

#[test]
fn add_words_split_into_tokens_and_description() {
    let args: Vec<String> = ["pri:H", "+x", "fix", "the", "+bug", "project:web", "--yes"].iter().map(|s| s.to_string()).collect();
    let t = parse_add_tokens(&args);
    assert_eq!(t.description, "fix the");
    assert_eq!(t.tags.len(), 2);
}

#[test]
fn capture_links_are_store_links() {
    for s in ["https://example.com", "  http://a.b/c ", "www.test.dk", "hello world", "ftp://x"] {
        if sara::capture::is_url(s) {
            assert!(sara::db::is_url(s));
        }
    }
    assert!(!sara::capture::is_url("www.test.dk"));
    assert!(sara::db::is_url("www.test.dk"));
}

#[test]
fn check_in_prompt_appends_the_profile() {
    let bare = sara::llm::brief_system_prompt(None);
    let with = sara::llm::brief_system_prompt(Some("Likes mornings."));
    assert_eq!(with, format!("{bare}\n\nBackground on the user:\nLikes mornings."));
    assert_eq!(bare, sara::llm::brief_system_prompt(None));
}

fn request(goal: Option<&str>, tasks: Vec<(String, String)>, description: &str) -> sara::llm::EnrichmentRequest {
    sara::llm::EnrichmentRequest {
        description: description.to_string(),
        project_name: "sara".to_string(),
        project_goal: goal.map(|g| g.to_string()),
        project_stack: None,
        project_notes: None,
        existing_tasks: tasks,
        repo_tree: None,
        project_commands: None,
    }
}

#[test]
fn planner_prompt_grows_by_known_parts() {
    let base = sara::llm::system_prompt(&request(None, vec![], "a"));
    assert!(base.ends_with("\n\nProject: sara"));
    assert_eq!(base, sara::llm::system_prompt(&request(None, vec![], "something else")));
    let with_goal = sara::llm::system_prompt(&request(Some("ship it"), vec![], "a"));
    assert_eq!(with_goal, format!("{base}\n\nProject goal: ship it"));
    let with_task = sara::llm::system_prompt(&request(None, vec![("7".to_string(), "fix login".to_string())], "a"));
    assert!(with_task.ends_with(":\n  7: fix login"));
}

#[test]
fn durations_round_down_to_whole_minutes() {
    assert_eq!(format_duration(0), "0m");
    assert_eq!(format_duration(119), "1m");
    assert_eq!(format_duration(3599), "59m");
    assert_eq!(format_duration(3600 + 59), "1h 0m");
    assert_eq!(format_duration(5400), "1h 30m");
    assert_eq!(format_duration(7 * 3600 + 61), "7h 1m");
}

#[test]
fn the_root_never_holds_home() {
    assert_eq!(project_root_for("/home/u/w", Some("/"), Some("/home/u")), "/home/u/w");
    assert_eq!(project_root_for("/home/u/w/src", Some("/home/u/w"), Some("/home/u")), "/home/u/w");
    assert_eq!(project_root_for("/srv/x", Some("/srv"), None), "/srv");
}

#[test]
fn a_month_on_keeps_the_time_of_day() {
    // 2026-01-31T09:00:00.5Z plus a month is 2026-02-28T09:00:00.5Z.
    let t = UtcTime { secs: 1_769_850_000, nanos: 500_000_000 };
    let r = add_months(t, 1).unwrap();
    assert_eq!(r.secs % 86_400, t.secs % 86_400);
    assert_eq!(r.nanos, t.nanos);
    assert_eq!(r.secs, 1_772_269_200);
}
