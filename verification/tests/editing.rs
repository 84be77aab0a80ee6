use sara::commands::info::{apply_field, current_value, cycle_priority, EditField};
use sara::commands::modify::merge_task_fields;
use sara::config::Config;
use sara::dates::UtcTime;
use sara::model::{Priority, TaskFields};

fn task() -> TaskFields {
    TaskFields::new("original".into(), "tk".into())
}

#[test]
fn editing_description_updates_value() {
    let mut t = task();
    let cfg = Config::default();
    apply_field(&mut t, EditField::Description, "new description", &cfg);
    assert_eq!(t.description, "new description");
}

#[test]
fn empty_description_is_ignored() {
    let mut t = task();
    let cfg = Config::default();
    apply_field(&mut t, EditField::Description, "   ", &cfg);
    assert_eq!(t.description, "original");
}

#[test]
fn editing_tags_splits_and_trims() {
    let mut t = task();
    let cfg = Config::default();
    apply_field(&mut t, EditField::Tags, " rust , cli ,", &cfg);
    assert_eq!(t.tags, vec!["rust".to_string(), "cli".to_string()]);
}

#[test]
fn editing_due_empty_clears_it() {
    let mut t = task();
    let cfg = Config::default();
    t.due = Some(UtcTime { secs: 1_700_000_000, nanos: 0 });
    apply_field(&mut t, EditField::Due, "", &cfg);
    assert!(t.due.is_none());
}

#[test]
fn editing_due_parses_relative() {
    let mut t = task();
    let cfg = Config::default();
    apply_field(&mut t, EditField::Due, "+3d", &cfg);
    assert!(t.due.is_some());
}

#[test]
fn priority_cycles_forward_and_back() {
    let mut t = task();
    assert!(t.priority.is_none());
    cycle_priority(&mut t, true);
    assert_eq!(t.priority, Some(Priority::L));
    cycle_priority(&mut t, true);
    assert_eq!(t.priority, Some(Priority::M));
    cycle_priority(&mut t, true);
    assert_eq!(t.priority, Some(Priority::H));
    cycle_priority(&mut t, true);
    assert!(t.priority.is_none());
    cycle_priority(&mut t, false);
    assert_eq!(t.priority, Some(Priority::H));
}

#[test]
fn current_value_round_trips_with_apply() {
    let mut t = task();
    let cfg = Config::default();
    apply_field(&mut t, EditField::Project, "myproj", &cfg);
    assert_eq!(current_value(&t, EditField::Project), "myproj");
    apply_field(&mut t, EditField::Tags, "a, b", &cfg);
    assert_eq!(current_value(&t, EditField::Tags), "a, b");
}

fn sample() -> TaskFields {
    TaskFields {
        description: "orig".into(),
        project: "p".into(),
        priority: None,
        due: None,
        tags: vec!["old".into()],
    }
}

#[test]
fn sets_description_priority_and_replaces_tags() {
    let cfg = Config::default();
    let t = merge_task_fields(
        sample(),
        &cfg,
        Some("new desc"),
        Some("h"),
        None,
        false,
        &["a".into(), "b".into()],
        false,
    )
    .unwrap();
    assert_eq!(t.description, "new desc");
    assert_eq!(t.priority, Some(Priority::H));
    assert_eq!(t.tags, vec!["a".to_string(), "b".to_string()]);
}

#[test]
fn clear_tags_and_clear_due_unset_fields() {
    let cfg = Config::default();
    let mut base = sample();
    base.due = Some(UtcTime { secs: 1_700_000_000, nanos: 0 });
    let t = merge_task_fields(base, &cfg, None, None, None, true, &[], true).unwrap();
    assert!(t.tags.is_empty());
    assert!(t.due.is_none());
}

#[test]
fn invalid_priority_is_rejected() {
    let cfg = Config::default();
    assert!(merge_task_fields(sample(), &cfg, None, Some("X"), None, false, &[], false).is_err());
}

#[test]
fn invalid_due_is_rejected() {
    let cfg = Config::default();
    assert!(merge_task_fields(
        sample(),
        &cfg,
        None,
        None,
        Some("not-a-date"),
        false,
        &[],
        false
    )
    .is_err());
}

#[test]
fn unspecified_fields_are_left_unchanged() {
    let cfg = Config::default();
    let t = merge_task_fields(sample(), &cfg, None, None, None, false, &[], false).unwrap();
    assert_eq!(t.description, "orig");
    assert_eq!(t.priority, None);
    assert_eq!(t.tags, vec!["old".to_string()]);
}
