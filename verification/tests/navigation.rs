use potyi::command_bar::GotoMode;
use potyi::config::LineNumberMode;
use potyi::document::Document;
use potyi::navigation::{goto_line_index, parse_location};

fn document_at_line(lines: usize, cursor_line: usize) -> Document {
    let text = "x\n".repeat(lines - 1) + "x";
    let mut document = Document::from_text(&text);
    document.move_to_line_column(cursor_line, 0).unwrap();
    document
}

#[test]
fn goto_reads_absolute_and_relative_lines() {
    let document = document_at_line(10, 4);
    assert_eq!(goto_line_index(&document, 3, GotoMode::Absolute, LineNumberMode::Dynamic), Ok(2));
    assert_eq!(goto_line_index(&document, 3, GotoMode::Automatic, LineNumberMode::Normal), Ok(2));
    assert_eq!(goto_line_index(&document, 2, GotoMode::Relative, LineNumberMode::Normal), Ok(6));
    assert_eq!(goto_line_index(&document, -4, GotoMode::Relative, LineNumberMode::Normal), Ok(0));
    assert_eq!(
        goto_line_index(&document, -5, GotoMode::Relative, LineNumberMode::Normal).unwrap_err(),
        "Relative line is before the start of the document"
    );
    assert_eq!(
        goto_line_index(&document, 0, GotoMode::Absolute, LineNumberMode::Normal).unwrap_err(),
        "line numbers start at 1"
    );
    assert_eq!(
        goto_line_index(&document, 11, GotoMode::Absolute, LineNumberMode::Normal).unwrap_err(),
        "Line 11 is past the last line (10)."
    );
}

#[test]
fn goto_labels_follow_the_gutter() {
    let document = document_at_line(10, 4);
    assert_eq!(
        goto_line_index(&document, 5, GotoMode::Automatic, LineNumberMode::Dynamic).unwrap_err(),
        "Label 5 matches multiple lines. Use :goto -5 (up), :goto +5 (down), or --abs."
    );
    let near_end = document_at_line(10, 8);
    assert_eq!(goto_line_index(&near_end, 9, GotoMode::Automatic, LineNumberMode::Dynamic), Ok(8));
    assert_eq!(goto_line_index(&document, 0, GotoMode::Automatic, LineNumberMode::Relative), Ok(4));
    assert_eq!(goto_line_index(&document, 5, GotoMode::Automatic, LineNumberMode::Relative), Ok(9));
    assert_eq!(
        goto_line_index(&document, 3, GotoMode::Automatic, LineNumberMode::Relative).unwrap_err(),
        "Label 3 matches multiple lines. Use :goto -3 (up), :goto +3 (down), or --abs."
    );
    assert_eq!(
        goto_line_index(&document, 7, GotoMode::Automatic, LineNumberMode::Dynamic).unwrap_err(),
        "No line is labelled 7."
    );
}

#[test]
fn moving_to_a_line_clamps_the_column() {
    let mut document = Document::from_text("ab\ncdef\ng");
    document.move_to_line_column(1, 2).unwrap();
    assert_eq!(document.cursor().position, 5);
    document.move_to_line_column(0, 9).unwrap();
    assert_eq!(document.cursor().position, 2);
    assert!(document.move_to_line_column(3, 0).is_err());
    assert_eq!(document.cursor().position, 2);
}

#[test]
fn locations_name_a_path_line_and_column() {
    assert_eq!(parse_location("src/main.rs:12:5"), Some(("src/main.rs".to_string(), 12, Some(5))));
    assert_eq!(parse_location("src/main.rs:12"), Some(("src/main.rs".to_string(), 12, None)));
    assert_eq!(parse_location("a:b:7"), Some(("a:b".to_string(), 7, None)));
    assert_eq!(parse_location("notes.txt"), None);
    assert_eq!(parse_location("file:x"), None);
    assert_eq!(parse_location("C:/dir/f.rs:+3"), Some(("C:/dir/f.rs".to_string(), 3, None)));
}
