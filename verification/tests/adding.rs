use sara::commands::add::{apply_overrides, initial_form, merged_tags, task_from_form};
use sara::llm::EnrichmentResponse;
use sara::model::Priority;
use sara::project::parse_add_tokens;

fn strings(v: &[&str]) -> Vec<String> {
    v.iter().map(|s| s.to_string()).collect()
}

#[test]
fn flags_win_over_inline_tokens() {
    let tokens = parse_add_tokens(&strings(&["fix", "login", "project:web", "pri:l", "+auth"]));
    let p = apply_overrides(&tokens, Some("api"), Some("h"), &strings(&["urgent"]), Some("weekly"));
    assert_eq!(p.description, "fix login");
    assert_eq!(p.project.as_deref(), Some("api"));
    assert_eq!(p.priority.as_deref(), Some("H"));
    assert_eq!(p.tags, strings(&["auth", "urgent"]));
    assert_eq!(p.recur.as_deref(), Some("weekly"));
    let kept = apply_overrides(&tokens, None, None, &[], None);
    assert_eq!(kept.project.as_deref(), Some("web"));
    assert_eq!(kept.priority.as_deref(), Some("L"));
}

#[test]
fn suggested_tags_are_added_once() {
    let merged = merged_tags(&strings(&["auth", "ui"]), &strings(&["ui", "backend", "backend", "db"]));
    assert_eq!(merged, strings(&["auth", "ui", "backend", "db"]));
}

#[test]
fn the_form_opens_with_suggestions_over_typed_values() {
    let tokens = parse_add_tokens(&strings(&["write", "docs", "pri:l", "+docs"]));
    let e = EnrichmentResponse {
        priority: Some("high".to_string()),
        due: Some("friday".to_string()),
        tags: strings(&["docs", "writing"]),
        ..Default::default()
    };
    let f = initial_form(&tokens, "web", &Some(e));
    assert_eq!(f.description, "write docs");
    assert_eq!(f.project, "web");
    assert_eq!(f.priority, Some(Priority::H));
    assert_eq!(f.due, "friday");
    assert_eq!(f.tags, "docs,writing");
    assert!(f.selected_deps.is_empty());
    let plain = initial_form(&tokens, "web", &None);
    assert_eq!(plain.priority, Some(Priority::L));
    assert_eq!(plain.due, "");
    assert_eq!(plain.tags, "docs");
    let unknown = EnrichmentResponse { priority: Some("soon".to_string()), ..Default::default() };
    assert_eq!(initial_form(&tokens, "web", &Some(unknown)).priority, Some(Priority::L));
}

#[test]
fn the_forms_answer_becomes_the_task() {
    let tokens = parse_add_tokens(&strings(&["ship", "it"]));
    let mut f = initial_form(&tokens, "web", &None);
    f.tags = " a, ,b ,".to_string();
    f.due = "2026-06-20".to_string();
    let t = task_from_form(&f, "uk");
    assert_eq!(t.description, "ship it");
    assert_eq!(t.tags, strings(&["a", "b"]));
    assert!(t.due.is_some());
    f.due = String::new();
    assert!(task_from_form(&f, "uk").due.is_none());
}
