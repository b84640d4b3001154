use potyi::config::EditorConfig;
use potyi::editor::Editor;

fn pair() -> (Editor, Editor) {
    let mut a = Editor::new(EditorConfig::default()).unwrap();
    a.insert_text("first\né🦀 last\n").unwrap();
    let b = a.duplicate_view();
    (a, b)
}

#[test]
fn shared_views_keep_cursors_and_selections_but_share_edits_and_history() {
    let (mut a, mut b) = pair();
    b.document.move_cursor(6).unwrap();
    b.document.set_anchor(12).unwrap();
    assert_eq!(b.document.cursor().anchor_line, 1);
    assert_eq!(b.document.cursor().anchor_column, 2);
    a.document.move_cursor(0).unwrap();
    a.insert_text("header\n").unwrap();
    Editor::synchronize_views(&mut a, &mut b).unwrap();
    assert_eq!(a.document.text().unwrap(), b.document.text().unwrap());
    assert_eq!(b.document.cursor().position, 13);
    assert_eq!(b.document.cursor().line, 2);
    assert_eq!(b.document.cursor().anchor, 19);
    assert_eq!(b.document.cursor().anchor_column, 2);
    assert_eq!(a.document.cursor().position, 7);
    b.document.move_cursor(b.document.len()).unwrap();
    b.insert_text("tail").unwrap();
    Editor::synchronize_views(&mut b, &mut a).unwrap();
    a.undo().unwrap();
    Editor::synchronize_views(&mut a, &mut b).unwrap();
    assert!(!b.document.text().unwrap().ends_with("tail"));
    b.undo().unwrap();
    Editor::synchronize_views(&mut b, &mut a).unwrap();
    assert_eq!(a.document.text().unwrap(), "first\né🦀 last\n");
    a.redo().unwrap();
    Editor::synchronize_views(&mut a, &mut b).unwrap();
    b.redo().unwrap();
    Editor::synchronize_views(&mut b, &mut a).unwrap();
    assert_eq!(a.document.text().unwrap(), "header\nfirst\né🦀 last\ntail");
    assert_eq!(a.document.text().unwrap(), b.document.text().unwrap());
}

#[test]
fn shared_views_support_snapshot_undo_and_outlive_the_original_view() {
    let (mut a, mut b) = pair();
    let original = a.document.text().unwrap();
    a.apply_formatted("formatted 🦀\n".as_bytes()).unwrap();
    Editor::synchronize_views(&mut a, &mut b).unwrap();
    b.undo().unwrap();
    Editor::synchronize_views(&mut b, &mut a).unwrap();
    assert_eq!(a.document.text().unwrap(), original);
    a.redo().unwrap();
    Editor::synchronize_views(&mut a, &mut b).unwrap();
    drop(a);
    b.document.move_cursor(b.document.len()).unwrap();
    b.insert_text("still editable").unwrap();
    assert_eq!(b.document.text().unwrap(), "formatted 🦀\nstill editable");
    b.undo().unwrap();
    b.undo().unwrap();
    assert_eq!(b.document.text().unwrap(), original);
}

fn plain_config() -> potyi::config::EditorConfig {
    potyi::config::EditorConfig {
        tab_width: 4,
        insert_spaces: true,
        line_numbers: potyi::config::LineNumberMode::Normal,
        font_size: 18,
        keybinding_mode: potyi::config::KeybindingMode::Conventional,
    }
}

#[test]
fn lifecycle_checks_name_their_reason() {
    let mut e = potyi::editor::Editor::new(plain_config()).unwrap();
    assert_eq!(e.new_document_allowed(Some("")).unwrap_err(), "Enter a file path");
    e.insert_text("draft").unwrap();
    assert!(e.dirty);
    assert_eq!(e.new_document(Some("a.txt")).unwrap_err(), "Save the current document before creating a new file");
    assert_eq!(e.document.text().unwrap(), "draft");
    assert!(e.recover_allowed().is_err());
    assert_eq!(e.save_as_allowed("").unwrap_err(), "Enter a destination path");
    e.saved_as("draft.txt".to_string());
    assert!(!e.dirty);
    assert_eq!(e.path.as_deref(), Some("draft.txt"));
    e.new_document(Some("next.txt")).unwrap();
    assert_eq!(e.document.len(), 0);
    assert_eq!(e.path.as_deref(), Some("next.txt"));
    assert!(e.undo_stack.is_empty());
    e.read_only = true;
    assert_eq!(e.save_allowed().unwrap_err(), "This file is open for viewing");
    assert_eq!(e.format_allowed().unwrap_err(), "This file is open for viewing");
    assert!(e.formats_builtin(Some("builtin")));
    assert!(!e.formats_builtin(None));
    assert_eq!(potyi::editor::format_status("rustfmt", true), "Formatted with rustfmt; Ctrl+Z undoes the change");
    assert_eq!(potyi::editor::format_status("builtin", false), "Already formatted (builtin)");
}

#[test]
fn replacement_positions_map_through_matches() {
    let range = potyi::search::SearchResult { start: 4, end: 6 };
    let mut mapped = None;
    potyi::editor::Editor::observe_position_change(2, &mut mapped, range, 3, 1, 5).unwrap();
    assert_eq!(mapped, Some(4));
    let mut inside = None;
    potyi::editor::Editor::observe_position_change(5, &mut inside, range, 3, 1, 5).unwrap();
    assert_eq!(inside, Some(11));
    let mut after = None;
    potyi::editor::Editor::observe_position_change(9, &mut after, range, 3, 1, 5).unwrap();
    assert_eq!(after, None);
    assert_eq!(potyi::editor::Editor::finish_position_mapping(9, after, 4, 2), Ok(11));
    assert_eq!(potyi::editor::Editor::finish_position_mapping(9, Some(1), 4, 2), Ok(1));
    assert!(potyi::editor::Editor::finish_position_mapping(1, None, 0, 2).is_err());
}

#[test]
fn vim_mode_collapses_the_selection() {
    let mut e = potyi::editor::Editor::new(plain_config()).unwrap();
    e.insert_text("hello").unwrap();
    e.set_cursor_and_anchor(4, 1).unwrap();
    e.apply_keybinding_mode(potyi::config::KeybindingMode::Vim);
    assert_eq!(e.document.cursor().anchor, 4);
    assert!(!e.document.has_selection());
}
