use sara::db::{field_changes, tracked_values, TrackedTask};
use sara::commands::activity::activity_totals;
use sara::db::dep_info_by_task;
use sara::commands::board::{build_lines, feature_for, feature_header, task_line_for, BoardAction, BoardCursor, BoardKey, BoardRow, Feature};
use sara::commands::info::{
    detail_lines, focusables, CommentRow, DetailText, git_panel_lines, history_change_text, history_lines, BranchOverlap, BranchPanel, DetailAction, DetailCursor,
    DetailKey, EditField, HistoryRow,
};
use sara::commands::plan::{plan_dependencies, planned_task, DepTarget, PlanTask};
use sara::llm::RelevantFile;
use sara::model::{Priority, TaskFields};
use sara::tui::review_form::{FormAction, FormContext, FormInput, FormKey, FormState, Focus};
use sara::tui::{Piece, Tone};

fn strings(v: &[&str]) -> Vec<String> {
    v.iter().map(|s| s.to_string()).collect()
}

fn texts(line: &[Piece]) -> Vec<String> {
    line.iter().map(|p| p.text.clone()).collect()
}

fn ctx(n_deps: usize, n_files: usize) -> FormContext {
    FormContext {
        initial: FormInput {
            description: "write docs".to_string(),
            project: "web".to_string(),
            priority: Some(Priority::M),
            due: String::new(),
            tags: String::new(),
            selected_deps: vec![1, 7],
            selected_files: vec![],
        },
        available_deps: (0..n_deps).map(|i| (i.to_string(), format!("task {i}"))).collect(),
        available_files: (0..n_files).map(|i| format!("src/f{i}.rs")).collect(),
        suggested_dep_indices: vec![],
        suggested_file_indices: vec![],
    }
}

#[test]
fn form_opens_on_description_with_initial_choices() {
    let st = FormState::new(&ctx(3, 0));
    assert_eq!(st.focus, Focus::Description);
    assert_eq!(st.priority, Some(Priority::M));
    assert_eq!(st.selected_deps, vec![false, true, false]);
    assert_eq!(st.dep_cursor, Some(0));
    assert_eq!(st.file_cursor, None);
    assert!(!st.submitted && !st.cancelled && !st.due_error);
}

#[test]
fn form_keys_move_toggle_and_submit() {
    let mut st = FormState::new(&ctx(3, 2));
    assert_eq!(st.on_key(FormKey::Tab, "x", ""), FormAction::Nothing);
    assert_eq!(st.focus, Focus::Project);
    assert_eq!(st.on_key(FormKey::Other, "x", ""), FormAction::EditText(Focus::Project));
    st.on_key(FormKey::Tab, "x", "");
    assert_eq!(st.on_key(FormKey::Right, "x", ""), FormAction::Nothing);
    assert_eq!(st.priority, Some(Priority::H));
    st.on_key(FormKey::Right, "x", "");
    assert_eq!(st.priority, None);
    st.on_key(FormKey::Tab, "x", "");
    assert_eq!(st.focus, Focus::Due);
    assert_eq!(st.on_key(FormKey::Right, "x", ""), FormAction::SetDue(1));
    st.on_key(FormKey::Tab, "x", "");
    st.on_key(FormKey::Tab, "x", "");
    assert_eq!(st.focus, Focus::Dependencies);
    st.on_key(FormKey::Down, "x", "");
    st.on_key(FormKey::Down, "x", "");
    st.on_key(FormKey::Down, "x", "");
    assert_eq!(st.dep_cursor, Some(2));
    st.on_key(FormKey::Space, "x", "");
    assert_eq!(st.selected_deps, vec![false, true, true]);
    st.on_key(FormKey::Up, "x", "");
    st.on_key(FormKey::Enter, "x", "");
    assert_eq!(st.selected_deps, vec![false, false, true]);
    // A blank description cannot be saved.
    st.on_key(FormKey::Save, "   ", "");
    assert!(!st.submitted);
    st.on_key(FormKey::Save, "write docs", "");
    assert!(st.submitted);
    let out = st.collect_result("write docs", "web", "", "a, b");
    assert_eq!(out.selected_deps, vec![2]);
    assert_eq!(out.tags, "a, b");
}

#[test]
fn form_escape_cancels_and_space_does_not_reach_text() {
    let mut st = FormState::new(&ctx(0, 0));
    assert_eq!(st.on_key(FormKey::Space, "x", ""), FormAction::Nothing);
    assert_eq!(st.on_key(FormKey::Left, "x", ""), FormAction::EditText(Focus::Description));
    st.on_key(FormKey::Esc, "x", "");
    assert!(st.cancelled);
}

#[test]
fn form_due_check_flags_bad_text() {
    let mut st = FormState::new(&ctx(0, 0));
    st.validate_due("not a date at all");
    assert!(st.due_error);
    st.validate_due("2026-06-20");
    assert!(!st.due_error);
    st.validate_due("   ");
    assert!(!st.due_error);
}

#[test]
fn detail_keys_edit_and_commit() {
    let items = focusables(1, &strings(&["src/a.rs"]), &strings(&["https://x.io/p"]));
    let mut c = DetailCursor::new();
    assert_eq!(c.step(&items, DetailKey::Enter, "", true), DetailAction::StartEdit(EditField::Description));
    assert!(c.editing);
    assert_eq!(c.step(&items, DetailKey::Char('q'), "", true), DetailAction::FeedEditor(EditField::Description));
    assert_eq!(c.step(&items, DetailKey::Enter, "new", true), DetailAction::Commit(EditField::Description));
    assert!(!c.editing);
    c.step(&items, DetailKey::Down, "", true);
    c.step(&items, DetailKey::Down, "", true);
    assert_eq!(c.step(&items, DetailKey::Right, "", true), DetailAction::CyclePriority(true));
    c.step(&items, DetailKey::Char('j'), "", true);
    c.step(&items, DetailKey::Char('e'), "", true);
    assert!(c.editing);
    // An unreadable due date keeps the editor open and flags it.
    assert_eq!(c.step(&items, DetailKey::Enter, "someday", false), DetailAction::Nothing);
    assert!(c.due_error && c.editing);
    c.recheck_due(EditField::Due, "", false);
    assert!(!c.due_error);
    assert_eq!(c.step(&items, DetailKey::Esc, "", true), DetailAction::Nothing);
    c.step(&items, DetailKey::Down, "", true);
    c.step(&items, DetailKey::Down, "", true);
    assert_eq!(c.step(&items, DetailKey::Enter, "", true), DetailAction::OpenLink(0));
    c.step(&items, DetailKey::Down, "", true);
    assert_eq!(c.step(&items, DetailKey::Enter, "", true), DetailAction::OpenFile(6));
    c.step(&items, DetailKey::Down, "", true);
    assert_eq!(c.step(&items, DetailKey::Enter, "", true), DetailAction::OpenUrl(7));
    c.step(&items, DetailKey::Down, "", true);
    assert_eq!(c.selected, 7);
    c.step(&items, DetailKey::PageUp, "", true);
    assert_eq!(c.scroll, 0);
    c.step(&items, DetailKey::PageDown, "", true);
    assert_eq!(c.scroll, 5);
    assert_eq!(c.step(&items, DetailKey::Char('q'), "", true), DetailAction::Quit);
}

#[test]
fn detail_on_key_reads_iso_dates() {
    let items = focusables(0, &vec![], &vec![]);
    let mut c = DetailCursor { selected: 3, editing: true, due_error: false, scroll: 0 };
    assert_eq!(c.on_key(&items, DetailKey::Enter, "2026-06-20"), DetailAction::Commit(EditField::Due));
}

#[test]
fn git_panel_without_branch_explains_how_to_tie_one() {
    let lines = git_panel_lines(&None, &vec![]);
    assert_eq!(lines.len(), 4);
    assert_eq!(texts(&lines[0]), strings(&["  No branch tied."]));
    assert!(lines[1].is_empty());
    assert_eq!(lines[0][0].tone, Tone::Dim);
}

#[test]
fn git_panel_lists_changed_files_and_overlaps() {
    let files: Vec<String> = (0..22).map(|i| format!("src/m{i}.rs")).collect();
    let panel = BranchPanel {
        branch: "feat/x".to_string(),
        base: Some("main".to_string()),
        logged: None,
        files: Some(files),
    };
    let ov = vec![BranchOverlap {
        id: 7,
        description: "A rather long description of the task".to_string(),
        branch: "feat/y".to_string(),
        shared_files: strings(&["src/m1.rs"]),
    }];
    let lines = git_panel_lines(&Some(panel), &ov);
    assert_eq!(texts(&lines[0]), strings(&["  Branch  ", "feat/x"]));
    assert_eq!(lines[0][1].tone, Tone::AccentBold);
    assert_eq!(texts(&lines[1]), strings(&["  Base    ", "main"]));
    assert!(lines[2].is_empty());
    assert_eq!(texts(&lines[3]), strings(&["  22 files changed"]));
    assert_eq!(texts(&lines[4]), strings(&["    ", "m0.rs", "  src/m0.rs"]));
    assert_eq!(texts(&lines[24]), strings(&["    +2 more"]));
    assert!(lines[25].is_empty());
    assert_eq!(texts(&lines[26]), strings(&["  ⚠  Potential overlaps"]));
    assert_eq!(texts(&lines[27]), strings(&["  [ 7] ", "A rather long descr…", " (feat/y)"]));
    assert_eq!(texts(&lines[28]), strings(&["    ↳ m1.rs"]));
    assert_eq!(lines.len(), 29);
}

#[test]
fn git_panel_with_empty_snapshot_says_no_changes() {
    let panel = BranchPanel { branch: "b".to_string(), base: None, logged: Some("2026-01-02 10:00".to_string()), files: Some(vec![]) };
    let lines = git_panel_lines(&Some(panel), &vec![]);
    assert_eq!(texts(&lines[1]), strings(&["  Logged  ", "2026-01-02 10:00"]));
    assert_eq!(texts(&lines[3]), strings(&["  No changes vs base."]));
    assert_eq!(lines.len(), 4);
    let one = BranchPanel { branch: "b".to_string(), base: None, logged: None, files: Some(strings(&["a.rs"])) };
    let lines = git_panel_lines(&Some(one), &vec![]);
    assert_eq!(texts(&lines[2]), strings(&["  1 file changed"]));
    assert_eq!(texts(&lines[3]), strings(&["    ", "a.rs", ""]));
}

fn row(field: &str, old: Option<&str>, new: Option<&str>) -> HistoryRow {
    HistoryRow {
        date: "01-02 10:00".to_string(),
        field: field.to_string(),
        old_value: old.map(|s| s.to_string()),
        new_value: new.map(|s| s.to_string()),
    }
}

#[test]
fn history_is_newest_first_with_change_shapes() {
    let h = vec![
        row("created", None, Some("task created")),
        row("annotation", Some("old note"), None),
        row("priority", None, Some("H")),
    ];
    let lines = history_lines(&h);
    assert_eq!(texts(&lines[0]), strings(&["  01-02 10:00  ", "priority    ", "—", " → ", "H"]));
    assert_eq!(texts(&lines[1]), strings(&["  01-02 10:00  ", "comment     ", "− ", "old note"]));
    assert_eq!(texts(&lines[2]), strings(&["  01-02 10:00  ", "created     ", "task created"]));
    assert_eq!(history_change_text(&h[1]), "comment removed: old note");
    assert_eq!(history_change_text(&h[2]), "priority: - -> H");
    assert_eq!(history_change_text(&row("annotation", None, Some("hi"))), "comment added: hi");
}

fn plan_task(key: Option<&str>, deps: &[&str]) -> PlanTask {
    PlanTask { key: key.map(|s| s.to_string()), description: "d".to_string(), depends_on: strings(deps), ..Default::default() }
}

#[test]
fn plan_wires_local_keys_before_existing_tasks() {
    let ts = vec![plan_task(Some("a"), &[]), plan_task(Some("b"), &["a", "42"]), plan_task(None, &["a"])];
    let edges = plan_dependencies(&ts);
    assert_eq!(edges.len(), 2);
    assert!(matches!(edges[0], (1, DepTarget::Planned(0))));
    assert!(matches!(&edges[1], (1, DepTarget::Existing(s)) if s == "42"));
}

#[test]
fn plan_duplicate_keys_belong_to_the_last_task() {
    let ts = vec![plan_task(Some("k"), &["x"]), plan_task(Some("k"), &[]), plan_task(Some("z"), &["k"])];
    let edges = plan_dependencies(&ts);
    assert_eq!(edges.len(), 2);
    assert!(matches!(&edges[0], (1, DepTarget::Existing(s)) if s == "x"));
    assert!(matches!(edges[1], (2, DepTarget::Planned(1))));
}

#[test]
fn plan_task_keeps_trimmed_non_blank_entries() {
    let mut pt = plan_task(None, &[]);
    pt.priority = Some("high".to_string());
    pt.assignment = Some("  ".to_string());
    pt.rationale = Some(" because ".to_string());
    pt.steps = strings(&[" one ", "", "two"]);
    pt.files = vec![
        RelevantFile { path: " src/a.rs ".to_string(), reason: None, symbol: None, line_start: Some(3), line_end: None },
        RelevantFile { path: "   ".to_string(), reason: None, symbol: None, line_start: None, line_end: None },
    ];
    let t = planned_task(&pt);
    assert_eq!(t.priority, Some(Priority::H));
    assert_eq!(t.assignment, None);
    assert_eq!(t.rationale.as_deref(), Some("because"));
    assert_eq!(t.steps, strings(&["one", "two"]));
    assert_eq!(t.files.len(), 1);
    assert_eq!(t.files[0].path, "src/a.rs");
    assert_eq!(t.files[0].line_start, Some(3));
}

fn brow(id: i64, desc: &str, done: bool, p: Option<Priority>) -> BoardRow {
    BoardRow { id: Some(id), description: desc.to_string(), priority: p, completed: done }
}

#[test]
fn board_features_and_lines() {
    let rows = vec![brow(1, "schema", true, None), brow(2, "api", false, Some(Priority::H)), brow(3, "lonely", false, None)];
    let f0 = feature_for(&vec![0, 1], &rows, true, 0);
    assert_eq!(f0.title, "api");
    assert_eq!((f0.done, f0.total), (1, 2));
    let f1 = feature_for(&vec![2], &rows, false, 1);
    assert_eq!(f1.title, "Standalone tasks");
    assert_eq!(texts(&feature_header(&f0)), strings(&[" ▸ api  ", "1/2 done"]));
    assert_eq!(texts(&feature_header(&f1)), strings(&[" • Standalone tasks  ", "0/1 done"]));
    let (lines, at) = build_lines(&rows, &vec![0, 0, 1], &vec![f0, f1], 1);
    assert_eq!(at, vec![1, 2, 5]);
    assert_eq!(lines.len(), 6);
    assert!(lines[3].is_empty());
    assert_eq!(texts(&lines[1]), strings(&["   └ ", "  1  ", "schema"]));
    assert_eq!(lines[1][2].tone, Tone::DimCrossed);
    assert_eq!(texts(&lines[2]), strings(&[" ▶ └ ", "  2  ", "H     ", "api"]));
    assert_eq!(lines[2][3].tone, Tone::SelectedBold);
    assert_eq!(texts(&task_line_for(&rows[2], false, false)), strings(&["   ", "  3  ", "-     ", "lonely"]));
}

#[test]
fn board_completed_chain_gets_a_check_mark() {
    let rows = vec![brow(1, "a", true, None), brow(2, "b", true, None)];
    let f = Feature { title: "b".to_string(), done: 2, total: 2, grouped: true };
    let h = feature_header(&f);
    assert_eq!(texts(&h), strings(&[" ✓ b  ", "2/2 done"]));
    assert_eq!(h[0].tone, Tone::GoodBold);
    assert_eq!(feature_for(&vec![], &rows, true, 4).title, "Feature 5");
}

#[test]
fn board_keys_and_scrolling() {
    let mut c = BoardCursor { selected: 0, scroll: 0 };
    assert_eq!(c.step(3, BoardKey::Up), BoardAction::Nothing);
    c.step(3, BoardKey::Down);
    c.step(3, BoardKey::Down);
    c.step(3, BoardKey::Down);
    assert_eq!(c.selected, 2);
    assert_eq!(c.step(3, BoardKey::Enter), BoardAction::OpenTask(2));
    c.step(3, BoardKey::PageDown);
    assert_eq!(c.scroll, 10);
    c.follow(4, 20);
    assert_eq!(c.scroll, 4);
    c.follow(30, 10);
    assert_eq!(c.scroll, 21);
    assert_eq!(c.step(3, BoardKey::Quit), BoardAction::Quit);
}

fn detail_text() -> DetailText {
    let mut task = TaskFields::new("Write docs".to_string(), "web".to_string());
    task.priority = Some(Priority::H);
    task.tags = strings(&["a", "b"]);
    DetailText {
        id: Some(4),
        active: true,
        task,
        due_short: String::new(),
        due_long: None,
        due_days: 0,
        status: "pending".to_string(),
        time_spent: 60,
        total_spent: 3720,
        session_spent: 120,
        urgency: "5.2".to_string(),
        entered: "2026-01-01 09:00".to_string(),
        modified: "2026-01-02 10:00".to_string(),
        uuid: "u-1".to_string(),
        blocked_by: strings(&["[2] schema"]),
        blocking: vec![],
        links: vec![],
        manual_files: strings(&["src/a.rs"]),
        suggested_files: strings(&["src/a.rs", "src/b.rs"]),
        comments: vec![CommentRow { id: 9, date: "2026-01-03 11:00".to_string(), text: "looks good".to_string() }],
    }
}

#[test]
fn detail_panel_lists_fields_then_sections() {
    let d = detail_text();
    let (title, lines) = detail_lines(&d, 0, false);
    assert_eq!(title, " Task 4  ● ACTIVE ");
    assert_eq!(texts(&lines[0]), strings(&["› ", "Description ", "Write docs"]));
    assert_eq!(lines[0][0].tone, Tone::WarnBold);
    assert_eq!(texts(&lines[2]), strings(&["  ", "Priority    ", "High"]));
    assert_eq!(lines[2][2].tone, Tone::Bad);
    assert_eq!(texts(&lines[3]), strings(&["  ", "Due         ", "-"]));
    assert_eq!(texts(&lines[4]), strings(&["  ", "Tags        ", "a, b"]));
    assert_eq!(texts(&lines[5]), strings(&["  Status      ", "pending"]));
    assert_eq!(texts(&lines[6]), strings(&["  Time spent  ", "1h 2m  (running, this session 2m)"]));
    assert!(lines[11].is_empty());
    assert_eq!(texts(&lines[12]), strings(&["Blocked by"]));
    assert_eq!(texts(&lines[13]), strings(&["  [2] schema"]));
    assert_eq!(texts(&lines[15]), strings(&["Relevant files"]));
    assert_eq!(texts(&lines[16]), strings(&["  ", "src/a.rs"]));
    assert_eq!(lines[16][1].tone, Tone::Accent);
    assert_eq!(texts(&lines[18]), strings(&["Possible relevant files (suggested by AI)"]));
    assert_eq!(texts(&lines[19]), strings(&["  ", "src/a.rs"]));
    assert_eq!(lines[19][1].tone, Tone::MutedItalic);
    assert_eq!(texts(&lines[23]), strings(&["  [9] ", "2026-01-03 11:00  ", "looks good"]));
    assert_eq!(lines.len(), 24);
}

#[test]
fn detail_panel_highlights_every_row_of_the_file_under_the_cursor() {
    let d = detail_text();
    let (_, lines) = detail_lines(&d, 6, false);
    assert_eq!(texts(&lines[16]), strings(&["› ", "src/a.rs"]));
    assert_eq!(lines[16][1].tone, Tone::AccentBold);
    assert_eq!(texts(&lines[19]), strings(&["› ", "src/a.rs"]));
    assert_eq!(lines[19][1].tone, Tone::MutedItalicBold);
    assert_eq!(texts(&lines[20]), strings(&["  ", "src/b.rs"]));
    let (_, editing) = detail_lines(&d, 0, true);
    assert_eq!(texts(&editing[0]), strings(&["  ", "Description ", "…(editing below)"]));
}

#[test]
fn activity_totals_count_each_event_once() {
    let created = vec![("2026-01-02".to_string(), 3), ("bad".to_string(), 9)];
    let completed = vec![("2026-01-02".to_string(), 1), ("2026-01-05".to_string(), 2)];
    let changes = vec![("2026-01-05".to_string(), 1)];
    let mut got = activity_totals(&created, &completed, &changes);
    got.sort();
    let d2 = chrono::Datelike::num_days_from_ce(&chrono::NaiveDate::from_ymd_opt(2026, 1, 2).unwrap()) as i64;
    let d5 = chrono::Datelike::num_days_from_ce(&chrono::NaiveDate::from_ymd_opt(2026, 1, 5).unwrap()) as i64;
    assert_eq!(got, vec![(d2, 4), (d5, 3)]);
}

#[test]
fn dep_info_counts_pending_blockers_and_dependents() {
    // 0 waits on 1 and 2; 3 (done) waits on 0.
    let edges = vec![(0, 2), (0, 1), (3, 0)];
    let pending = vec![true, true, true, false];
    let ids = vec![Some(1), Some(7), Some(4), None];
    let infos = dep_info_by_task(4, &edges, &pending, &ids);
    assert_eq!(infos[0].blocked_by, vec![4, 7]);
    assert_eq!(infos[0].blocking, 0);
    assert_eq!(infos[1].blocking, 1);
    assert_eq!(infos[2].blocking, 1);
    assert_eq!(infos[3].blocked_by, vec![1]);
}

#[test]
fn repacked_ids_count_from_one_and_leave_room_for_the_next() {
    let ids = sara::db::repacked_ids(4);
    assert_eq!(ids, vec![1, 2, 3, 4]);
    assert_eq!(sara::db::next_display_id(&ids), 5);
    assert!(sara::db::repacked_ids(0).is_empty());
}

#[test]
fn history_records_only_the_fields_that_changed() {

    let base = TrackedTask {
        fields: TaskFields::new("Write docs".to_string(), "web".to_string()),
        status: sara::model::Status::Pending,
        due_local: None,
        estimate_mins: Some(90),
        recur: None,
        running: false,
    };
    let values = tracked_values(&base);
    assert_eq!(values.len(), 9);
    assert_eq!(values[6], ("estimate".to_string(), Some("1h30m".to_string())));
    assert_eq!(values[5], ("tags".to_string(), None));
    let mut changed = TrackedTask {
        fields: TaskFields::new("Write docs".to_string(), "web".to_string()),
        status: sara::model::Status::Completed,
        due_local: Some("2026-02-01".to_string()),
        estimate_mins: Some(90),
        recur: None,
        running: true,
    };
    changed.fields.tags = strings(&["a", "b"]);
    let cs = field_changes(&base, &changed);
    let fields: Vec<String> = cs.iter().map(|c| c.field.clone()).collect();
    assert_eq!(fields, strings(&["status", "due", "tags", "timer"]));
    assert_eq!(cs[0].old_value.as_deref(), Some("pending"));
    assert_eq!(cs[0].new_value.as_deref(), Some("completed"));
    assert_eq!(cs[2].new_value.as_deref(), Some("a, b"));
    assert!(field_changes(&base, &base).is_empty());
}
