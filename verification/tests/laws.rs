use potyi::command_bar::parse::parse_command;
use potyi::command_bar::CommandBar;
use potyi::config::EditorConfig;
use potyi::editor::Editor;
use potyi::emacs::controller::Controller;
use potyi::emacs::RING_BYTES;

#[test]
fn lsp_subcommands_parse_as_their_aliases() {
    for (sub, alias) in [("hover", "hover"), ("back", "lsp-back"), ("status", "lsp-status"), ("rename", "rename")] {
        for rest in ["", "x", "--regex", "new_name"] {
            assert_eq!(parse_command(&format!(":lsp {sub} {rest}")), parse_command(&format!(":{alias} {rest}")));
        }
    }
}

#[test]
fn commands_without_arguments_refuse_a_word() {
    for name in ["term", "split", "save", "w", "quit", "formatters", "lsp-stop"] {
        assert!(parse_command(&format!(":{name}")).is_ok());
        assert!(parse_command(&format!(":{name} extra")).is_err());
        assert!(parse_command(&format!(":{name} --regex")).is_err());
    }
}

#[test]
fn moving_down_once_per_row_returns_to_the_same_row() {
    let mut bar = CommandBar::new();
    bar.open(":");
    let rows = bar.total_suggestion_count();
    assert!(rows > 0);
    bar.move_selection(1);
    bar.move_selection(1);
    let start = bar.selected();
    let label = bar.suggestion(bar.selected() % 9).map(|s| s.label);
    for _ in 0..rows {
        bar.move_selection(1);
    }
    assert_eq!(bar.selected(), start);
    assert_eq!(bar.suggestion(bar.selected() % 9).map(|s| s.label), label);
}

#[test]
fn shown_rows_have_no_gaps() {
    let mut bar = CommandBar::new();
    for input in [":", ":s", ":find x ", ":lsp ", ":set "] {
        bar.open(input);
        let count = bar.suggestion_count();
        assert!(count <= 9);
        for i in 0..12 {
            assert_eq!(bar.suggestion(i).is_some(), i < count);
        }
    }
}

#[test]
fn remembering_keeps_older_kills_and_the_bounds() {
    let mut c = Controller::new();
    c.remember("first".to_string());
    c.remember("second".to_string());
    assert_eq!(c.ring_len(), 2);
    assert_eq!(c.ring_bytes(), "first".len() + "second".len());
    c.remember("x".repeat(RING_BYTES + 1));
    assert_eq!(c.ring_len(), 0);
    assert_eq!(c.ring_bytes(), 0);
}

#[test]
fn undo_after_an_edit_restores_text_and_cursor() {
    let mut e = Editor::new(EditorConfig::default()).unwrap();
    e.insert_text("alpha beta").unwrap();
    e.set_cursor_and_anchor(3, 1).unwrap();
    let cursor = e.document.cursor();
    let depth = e.undo_stack.len();
    e.insert_text("ZZ").unwrap();
    assert_eq!(e.document.text().unwrap(), "aZZha beta");
    assert_eq!(e.undo_stack.len(), depth + 1);
    e.undo().unwrap();
    assert_eq!(e.document.text().unwrap(), "alpha beta");
    assert_eq!(e.document.cursor().position, cursor.position);
    assert_eq!(e.document.cursor().anchor, cursor.anchor);
}
