use sara::files::{existing_task_list, project_entries, project_files, WalkEntry};

fn file(rel: &str, size: Option<u64>, ext: Option<&str>) -> WalkEntry {
    WalkEntry { rel: rel.to_string(), is_file: true, is_dir: false, size, ext: ext.map(|e| e.to_string()) }
}

fn dir(rel: &str) -> WalkEntry {
    WalkEntry { rel: rel.to_string(), is_file: false, is_dir: true, size: None, ext: None }
}

#[test]
fn model_sees_small_text_files_only() {
    let entries = vec![
        dir(""),
        dir("src"),
        file("src/main.rs", Some(120), Some("rs")),
        file("logo.PNG", Some(10), Some("PNG")),
        file("Cargo.lock", Some(10), Some("lock")),
        file("big.json", Some(2_000_000), Some("json")),
        file("README", None, None),
    ];
    assert_eq!(project_files(&entries), vec!["src/main.rs".to_string(), "README".to_string()]);
}

#[test]
fn picker_lists_files_and_folders_sorted() {
    let entries = vec![dir(""), file("z.txt", Some(1), Some("txt")), dir("src"), file("src/a.rs", Some(1), Some("rs"))];
    assert_eq!(
        project_entries(&entries),
        vec!["src/".to_string(), "src/a.rs".to_string(), "z.txt".to_string()]
    );
}

#[test]
fn existing_tasks_skip_the_new_one_and_shorten_uuids() {
    let tasks = vec![
        ("0123456789abcdef".to_string(), "write docs".to_string()),
        ("fedcba9876543210".to_string(), "fix bug".to_string()),
    ];
    assert_eq!(
        existing_task_list(&tasks, "fix bug"),
        vec![("01234567".to_string(), "write docs".to_string())]
    );
    let many: Vec<(String, String)> = (0..30).map(|i| (format!("{i:08}"), format!("task {i}"))).collect();
    assert_eq!(existing_task_list(&many, "new").len(), 20);
}
