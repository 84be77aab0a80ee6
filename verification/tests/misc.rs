use sara::capture::{extract_og_title, extract_title, note_title};
use sara::commands::annotate::{annotation_text, anchor_source, parse_line_range, parse_on_ref, OnTarget};
use sara::commands::import::truncate as import_truncate;
use sara::commands::info::{compute_overlaps, focusables, BranchedTask, EditField, Focusable};
use sara::commands::init::stack_summary;
use sara::commands::list::{dep_column_text, dep_mark, due_class, empty_list_message, fmt_id_list, link_badge, list_summary, truncate, DueClass};
use sara::commands::reset::resolve_name;
use sara::config::{config_path, db_path, legacy_tk_config_path, vault_path, Config, LlmConfig};
use sara::db::{display_label, fmt_estimate, fts_literal, link_flags, next_display_id, non_empty, step_at_index, task_label, DepInfo, Link};
use sara::git::{branch_from_output, changed_files, default_base, git_result, output_value};
use sara::project::{build_tree_summary, parse_add_tokens, project_identity_for_dir, project_name_from_root};
use sara::tui::review_form::{can_submit, next_due_preset, next_focus, prev_focus, selected_indices, selection_flags, toggle, Focus};
use sara::vault::{item_filename, item_relative_path, split_frontmatter, Item};

fn strings(v: &[&str]) -> Vec<String> {
    v.iter().map(|s| s.to_string()).collect()
}

#[test]
fn add_tokens_are_read_only_at_the_edges() {
    let p = parse_add_tokens(&strings(&["project:web", "+auth", "fix", "the", "project:foo", "bug", "pri:h", "--yes", "+ui"]));
    assert_eq!(p.description, "fix the project:foo bug");
    assert_eq!(p.project.as_deref(), Some("web"));
    assert_eq!(p.priority.as_deref(), Some("H"));
    assert_eq!(p.tags, strings(&["auth", "ui"]));
    assert_eq!(p.recur, None);
}

#[test]
fn leading_tokens_win_and_trailing_tags_come_outermost_first() {
    let p = parse_add_tokens(&strings(&["PRI:l", "every:Weekly", "write", "docs", "+a", "+b", "pri:H", "project:x"]));
    assert_eq!(p.description, "write docs");
    assert_eq!(p.priority.as_deref(), Some("L"));
    assert_eq!(p.recur.as_deref(), Some("weekly"));
    assert_eq!(p.project.as_deref(), Some("x"));
    assert_eq!(p.tags, strings(&["b", "a"]));
}

#[test]
fn all_tokens_leave_an_empty_description() {
    let p = parse_add_tokens(&strings(&["+a", "project:p"]));
    assert_eq!(p.description, "");
    assert_eq!(p.tags, strings(&["a"]));
    assert_eq!(p.project.as_deref(), Some("p"));
}

#[test]
fn display_ids_fill_the_first_gap() {
    assert_eq!(next_display_id(&vec![]), 1);
    assert_eq!(next_display_id(&vec![1, 2, 3]), 4);
    assert_eq!(next_display_id(&vec![1, 2, 4, 5]), 3);
    assert_eq!(next_display_id(&vec![2, 3]), 1);
}

#[test]
fn estimates_and_blank_values() {
    assert_eq!(fmt_estimate(90), "1h30m");
    assert_eq!(fmt_estimate(120), "2h");
    assert_eq!(fmt_estimate(45), "45m");
    assert_eq!(fmt_estimate(-3), "-3m");
    assert_eq!(non_empty("  "), None);
    assert_eq!(non_empty(" x "), Some(" x ".to_string()));
    assert_eq!(task_label(Some(7), "Ship it"), "[7] Ship it");
    assert_eq!(task_label(None, "x"), "[0] x");
}

#[test]
fn links_show_their_label_or_a_derived_one() {
    let l = Link { id: 1, url: "https://github.com/a/b/pull/9".into(), label: None, entry: sara::dates::UtcTime { secs: 1_700_000_000, nanos: 0 } };
    assert_eq!(l.display(), "PR #9 · a/b");
    assert_eq!(display_label("https://x.y/z", Some("Spec")), "Spec");
    assert_eq!(display_label("https://x.y/z", None), "https://x.y/z");
    assert_eq!(display_label("github.com/a/b/issues/12x", None), "Issue #12 · a/b");
    let flags = link_flags(&strings(&["https://x.y", "https://github.com/o/r/pull/3"]));
    assert!(flags.any && flags.pr);
    let flags = link_flags(&strings(&["https://github.com/o/r/issues/3"]));
    assert!(flags.any && !flags.pr);
    assert!(!link_flags(&vec![]).any);
}

#[test]
fn dependency_column_and_markers() {
    let blocked = DepInfo::new(&vec![9, 3], 0);
    assert_eq!(blocked.blocked_by, vec![3, 9]);
    assert!(blocked.is_blocked());
    assert_eq!(dep_column_text(Some(&blocked)), "blocked by 3,9");
    assert_eq!(dep_mark(Some(&blocked)), "⊘");
    let blocking = DepInfo::new(&vec![], 2);
    assert_eq!(dep_column_text(Some(&blocking)), "blocks 2 tasks");
    assert_eq!(dep_column_text(Some(&DepInfo::new(&vec![], 1))), "blocks 1 task");
    assert_eq!(dep_mark(Some(&blocking)), "⛓");
    assert_eq!(dep_column_text(None), "");
    assert_eq!(fmt_id_list(&vec![1, 22, 3]), "1,22,3");
    assert_eq!(link_badge(true, true), "[PR] ");
    assert_eq!(link_badge(false, true), "[link] ");
    assert_eq!(due_class(-1), DueClass::Overdue);
    assert_eq!(due_class(1), DueClass::Soon);
    assert_eq!(due_class(2), DueClass::Later);
    assert_eq!(list_summary(1, None), "Showing 1 task");
    assert_eq!(list_summary(3, Some("web")), "Showing 3 tasks for project 'web'");
    assert_eq!(empty_list_message(None), "No pending tasks for any project.");
    assert_eq!(truncate("abcdef", 4), "abc…");
    assert_eq!(truncate("abc", 4), "abc");
    assert_eq!(import_truncate("abcdef", 0), "…");
    assert_eq!(import_truncate("abcdef", 3), "ab…");
}

#[test]
fn search_queries_are_quoted() {
    assert_eq!(fts_literal("say \"hi\""), "\"say \"\"hi\"\"\"");
    assert_eq!(step_at_index(&vec![10, 11], 1), Some(10));
    assert_eq!(step_at_index(&vec![10, 11], 0), None);
    assert_eq!(step_at_index(&vec![10, 11], 3), None);
}

#[test]
fn titles_are_found_in_pages() {
    assert_eq!(extract_title("<TITLE>  Big  </Title>"), Some("Big".to_string()));
    assert_eq!(extract_title("<title> </title>"), None);
    assert_eq!(extract_title("no title"), None);
    let html = "<head>\n<meta property=\"OG:TITLE\" content=\" Card \">\n</head>";
    assert_eq!(extract_og_title(html), Some("Card".to_string()));
    assert_eq!(extract_og_title("<meta property=\"og:title\" content=\"\">"), None);
    assert_eq!(note_title("first line\r\nsecond"), "first line");
    assert_eq!(note_title(""), "Untitled");
    assert_eq!(note_title(&"x".repeat(100)), "x".repeat(80));
}

#[test]
fn git_answers_are_read() {
    assert_eq!(git_result(true, b" main \n", b""), Ok("main".to_string()));
    assert_eq!(git_result(false, b"", b"  "), Err("git command failed".to_string()));
    assert_eq!(git_result(false, b"", b"fatal: x\n"), Err("fatal: x".to_string()));
    assert_eq!(git_result(true, b"a\xffb", b""), Ok("a\u{FFFD}b".to_string()));
    assert_eq!(branch_from_output(true, b"HEAD\n"), None);
    assert_eq!(branch_from_output(true, b"feature/x\n"), Some("feature/x".to_string()));
    assert_eq!(branch_from_output(false, b"main"), None);
    assert_eq!(output_value(true, b" abc123 "), Some("abc123".to_string()));
    assert_eq!(output_value(true, b"  "), None);
    assert_eq!(default_base(Some("origin/main"), true, true), "origin/main");
    assert_eq!(default_base(Some(""), false, true), "master");
    assert_eq!(default_base(None, false, false), "main");
    let (base, files) = changed_files("feat", "main", "a.rs\n\n  b.rs \r\n");
    assert_eq!(base, "main");
    assert_eq!(files, strings(&["a.rs", "b.rs"]));
    assert!(changed_files("main", "main", "a.rs").1.is_empty());
}

#[test]
fn project_names_and_trees() {
    assert_eq!(project_name_from_root("/home/u/web-app"), "web-app");
    assert_eq!(project_name_from_root("/"), "inbox");
    assert_eq!(
        project_identity_for_dir("/home/u/work", Some("/home/u"), Some("/home/u"), "inbox"),
        ("work".to_string(), "/home/u/work".to_string())
    );
    assert_eq!(
        project_identity_for_dir("/", None, None, "inbox"),
        ("inbox".to_string(), "/".to_string())
    );
    assert_eq!(build_tree_summary("/x/app", &strings(&["a", "b"])), "app/\n  a\n  b");
    let many: Vec<String> = (0..82).map(|i| i.to_string()).collect();
    let s = build_tree_summary("/", &many);
    assert!(s.starts_with("project/\n  0\n"));
    assert!(s.ends_with("  79\n  ... (2 more files)"));
    assert_eq!(resolve_name(Some("x"), Some("/r/y"), "inbox"), "x");
    assert_eq!(resolve_name(None, Some("/r/y"), "inbox"), "y");
    assert_eq!(resolve_name(None, None, "inbox"), "inbox");
}

#[test]
fn items_live_under_their_kind() {
    let mut item = Item::new_note("Hello, World!".into(), "body".into());
    assert_eq!(item.uuid.len(), 36);
    item.uuid = "0123456789abcdef".into();
    item.display_id = Some(4);
    assert_eq!(item.handle(), "n4");
    assert_eq!(item_filename(&item), "hello-world-01234567.md");
    assert_eq!(item_relative_path(&item), "3 Resources/notes/hello-world-01234567.md");
    let link = Item::new_link("https://x".into(), "T".into(), "".into());
    assert_eq!(link.kind, "link");
    assert_eq!(link.handle(), "l0");
    assert_eq!(
        split_frontmatter("---\ntype: note\n---\n\nbody text\n"),
        Ok(("type: note".to_string(), "body text".to_string()))
    );
    assert_eq!(split_frontmatter("nothing"), Err("Missing frontmatter".to_string()));
    assert_eq!(split_frontmatter("---\nno end"), Err("Missing frontmatter end".to_string()));
}

#[test]
fn config_choices_follow_the_active_profile() {
    let mut cfg = Config::default();
    assert_eq!(cfg.effective_llm().provider, "ollama");
    assert_eq!(cfg.effective_embeddings_provider(), "ollama");
    assert_eq!(cfg.effective_embeddings_model(), "nomic-embed-text");
    let mut az = LlmConfig::default();
    az.provider = "azure_openai".into();
    cfg.providers.push(("work".into(), az));
    cfg.active_provider = Some("work".into());
    assert_eq!(cfg.effective_llm().provider, "azure_openai");
    assert_eq!(cfg.effective_embeddings_provider(), "azure");
    assert_eq!(cfg.effective_embeddings_model(), "text-embedding-3-small");
    cfg.embeddings.model = "custom".into();
    assert_eq!(cfg.effective_embeddings_provider(), "ollama");
    assert_eq!(cfg.effective_embeddings_model(), "custom");
    cfg.active_provider = Some("missing".into());
    assert_eq!(cfg.effective_llm().provider, "ollama");
    assert_eq!(config_path("/c/sara"), "/c/sara/config.toml");
    assert_eq!(db_path("/d/sara"), "/d/sara/tasks.db");
    assert_eq!(legacy_tk_config_path(None), None);
    assert_eq!(vault_path(&cfg, "/w"), "/w/Sara");
}

#[test]
fn annotation_words_and_references() {
    assert_eq!(annotation_text(&strings(&["spoke", "--kind", "with", "design"])), "spoke with design");
    assert_eq!(parse_on_ref("step:2"), Ok(OnTarget::Step(2)));
    assert_eq!(parse_on_ref("acceptance:1"), Ok(OnTarget::Acceptance(1)));
    assert_eq!(parse_on_ref("anchor:a:b"), Ok(OnTarget::Anchor("a:b".into())));
    assert_eq!(parse_on_ref("note:n1"), Ok(OnTarget::Note("n1".into())));
    assert_eq!(parse_on_ref("step:x"), Err("--on index must be a number".to_string()));
    assert_eq!(parse_on_ref("foo:1"), Err("unknown --on target kind: foo".to_string()));
    assert!(parse_on_ref("step").unwrap_err().starts_with("--on must look like"));
    assert_eq!(parse_line_range("10-57"), (Some(10), Some(57)));
    assert_eq!(parse_line_range(" 3 : 9 "), (Some(3), Some(9)));
    assert_eq!(parse_line_range("42"), (Some(42), None));
    assert_eq!(parse_line_range("x-2-3"), (None, Some(2)));
    assert_eq!(anchor_source(Some("ai")), "suggested");
    assert_eq!(anchor_source(None), "manual");
}

#[test]
fn stacks_are_listed_in_marker_order() {
    let mut present = vec![false; 12];
    assert_eq!(stack_summary(&present, false), "unknown");
    present[0] = true;
    present[2] = true;
    present[3] = true;
    assert_eq!(stack_summary(&present, true), "Rust, Python, Python, Swift");
}

#[test]
fn review_form_cursor_and_choices() {
    assert_eq!(next_focus(Focus::Cancel), Focus::Description);
    assert_eq!(prev_focus(Focus::Description), Focus::Cancel);
    assert_eq!(prev_focus(next_focus(Focus::Due)), Focus::Due);
    let mut flags = selection_flags(4, &vec![3, 1, 9]);
    assert_eq!(flags, vec![false, true, false, true]);
    toggle(&mut flags, Some(0));
    toggle(&mut flags, Some(7));
    assert_eq!(selected_indices(&flags), vec![0, 1, 3]);
    assert_eq!(next_due_preset("", true), 1);
    assert_eq!(next_due_preset(" +1w ", true), 6);
    assert_eq!(next_due_preset("friday", false), 8);
    assert_eq!(next_due_preset("today", false), 0);
    assert!(can_submit("x", false));
    assert!(!can_submit("  ", false));
    assert!(!can_submit("x", true));
}

#[test]
fn detail_view_items_and_overlaps() {
    let f = focusables(1, &strings(&["a.rs"]), &strings(&["b.rs"]));
    assert_eq!(f.len(), 8);
    assert_eq!(f[0], Focusable::Field(EditField::Description));
    assert_eq!(f[5], Focusable::Link(0));
    assert_eq!(f[7], Focusable::File("b.rs".into()));
    assert_eq!(EditField::Tags.label(), "Tags");
    let others = vec![
        BranchedTask { id: 2, description: "other".into(), branch: "b2".into(), files: Some(strings(&["z.rs", "a.rs", "a.rs"])) },
        BranchedTask { id: 3, description: "none".into(), branch: "b3".into(), files: None },
        BranchedTask { id: 4, description: "x".into(), branch: "b4".into(), files: Some(strings(&["q.rs"])) },
    ];
    let mine = Some(strings(&["a.rs", "z.rs", "m.rs"]));
    let ov = compute_overlaps(&mine, &others);
    assert_eq!(ov.len(), 1);
    assert_eq!(ov[0].id, 2);
    assert_eq!(ov[0].shared_files, strings(&["a.rs", "z.rs"]));
    assert!(compute_overlaps(&None, &others).is_empty());
}
