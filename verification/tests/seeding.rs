use sara::commands::init::seed_lines;

#[test]
fn seed_lines_strip_markers_and_skip_blank_lines() {
    let r = seed_lines("1. Set up CI\n- Write docs\n\n  3) add tests\r\n");
    assert_eq!(
        r,
        vec![
            (1, "Set up CI".to_string()),
            (2, "Write docs".to_string()),
            (4, "add tests".to_string()),
        ]
    );
}

#[test]
fn seed_lines_keep_non_ascii_letters_and_drop_lines_without_letters() {
    let r = seed_lines("• Écrire la doc\n42.\n* 京 setup");
    assert_eq!(r, vec![(1, "Écrire la doc".to_string()), (3, "京 setup".to_string())]);
}

#[test]
fn seed_lines_of_empty_text_is_empty() {
    assert!(seed_lines("").is_empty());
    assert!(seed_lines("\n \n").is_empty());
}
