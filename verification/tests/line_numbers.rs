use potyi::config::LineNumberMode;
use potyi::line_numbers::LineNumbers;

#[test]
fn normal_numbers_are_absolute() {
    assert_eq!(LineNumbers::display_number(LineNumberMode::Normal, 7, 4), 8);
}

#[test]
fn relative_numbers_are_cursor_distances() {
    assert_eq!(LineNumbers::display_number(LineNumberMode::Relative, 7, 4), 3);
    assert_eq!(LineNumbers::display_number(LineNumberMode::Relative, 4, 4), 0);
}

#[test]
fn dynamic_numbers_keep_cursor_line_absolute() {
    assert_eq!(LineNumbers::display_number(LineNumberMode::Dynamic, 7, 4), 3);
    assert_eq!(LineNumbers::display_number(LineNumberMode::Dynamic, 4, 4), 5);
}

#[test]
fn gutter_labels_stop_at_the_last_line() {
    assert_eq!(LineNumbers::width_label(0), "1");
    assert_eq!(LineNumbers::width_label(120), "120");
    let labels = LineNumbers::labels(LineNumberMode::Dynamic, 8, 5, 11, 9);
    assert_eq!(labels, vec!["1".to_string(), "10".to_string(), "1".to_string()]);
    assert!(LineNumbers::labels(LineNumberMode::Normal, 20, 5, 11, 0).is_empty());
}
