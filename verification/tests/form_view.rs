use sara::model::Priority;
use sara::tui::review_form::{cancel_tone, choice_rows, dep_labels, field_title, priority_piece, submit_tone, Focus};
use sara::tui::Tone;

#[test]
fn due_title_warns_while_the_date_is_invalid() {
    assert_eq!(field_title(Focus::Due, true), "Due  ⚠ invalid date");
    assert_eq!(field_title(Focus::Due, false), "Due  ←/→ presets, or type (2026-06-20, friday, +3d)");
    assert_eq!(field_title(Focus::Tags, true), "Tags  (comma-separated)");
}

#[test]
fn priority_piece_names_and_colours_the_level() {
    let none = priority_piece(None);
    assert_eq!(none.text, "None");
    assert_eq!(none.tone, Tone::Dim);
    let high = priority_piece(Some(Priority::H));
    assert_eq!(high.text, "H  (High)");
    assert_eq!(high.tone, Tone::Bad);
    assert_eq!(priority_piece(Some(Priority::L)).tone, Tone::Good);
    assert_eq!(priority_piece(Some(Priority::M)).text, "M  (Medium)");
}

#[test]
fn choice_rows_tick_and_hint() {
    let labels = vec!["a.rs".to_string(), "b.rs".to_string(), "c.rs".to_string()];
    let rows = choice_rows(&labels, &vec![true, false], &vec![1, 0]);
    assert_eq!(rows.len(), 3);
    assert_eq!(rows[0].text, "☑ a.rs");
    assert_eq!(rows[0].tone, Tone::Good);
    assert_eq!(rows[1].text, "☐ b.rs");
    assert_eq!(rows[1].tone, Tone::DimItalic);
    assert_eq!(rows[2].text, "☐ c.rs");
    assert_eq!(rows[2].tone, Tone::Plain);
}

#[test]
fn dependency_labels_join_id_and_description() {
    let labels = dep_labels(&vec![("3".to_string(), "Write docs".to_string())]);
    assert_eq!(labels, vec!["3  Write docs".to_string()]);
}

#[test]
fn buttons_light_up_under_the_cursor() {
    assert_eq!(submit_tone(Focus::Submit, false), Tone::GoodButton);
    assert_eq!(submit_tone(Focus::Tags, true), Tone::Good);
    assert_eq!(submit_tone(Focus::Tags, false), Tone::Dim);
    assert_eq!(cancel_tone(Focus::Cancel), Tone::BadButton);
    assert_eq!(cancel_tone(Focus::Submit), Tone::Bad);
}
