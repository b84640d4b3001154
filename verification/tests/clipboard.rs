use std::cell::RefCell;

use potyi::clipboard::{copy_selection, cut_selection, normalize_line_endings, paste, read_text, TextClipboard};
use potyi::config::{EditorConfig, KeybindingMode, LineNumberMode};
use potyi::document::Document;
use potyi::editor::Editor;

#[derive(Default)]
struct MemoryClipboard {
    text: RefCell<String>,
}

impl TextClipboard for MemoryClipboard {
    fn set_text(&self, text: &str) -> Result<(), String> {
        text.clone_into(&mut self.text.borrow_mut());
        Ok(())
    }

    fn text(&self) -> Result<String, String> {
        Ok(self.text.borrow().clone())
    }
}

fn editor() -> Editor {
    Editor::new(EditorConfig {
        tab_width: 4,
        insert_spaces: false,
        line_numbers: LineNumberMode::Dynamic,
        font_size: 18,
        keybinding_mode: KeybindingMode::Conventional,
    })
    .unwrap()
}

#[test]
fn copy_preserves_forward_utf8_selection() {
    let mut table = Document::empty();
    table.insert(0, "aé中z").unwrap();
    table.move_cursor(1).unwrap();
    table.select_right().unwrap();
    table.select_right().unwrap();
    let clipboard = MemoryClipboard::default();
    assert!(copy_selection(&clipboard, &table).unwrap());
    assert_eq!(clipboard.text().unwrap(), "é中");
}

#[test]
fn copy_preserves_backward_selection() {
    let mut table = Document::empty();
    table.insert(0, "alpha").unwrap();
    table.move_cursor(4).unwrap();
    table.select_left().unwrap();
    table.select_left().unwrap();
    let clipboard = MemoryClipboard::default();
    copy_selection(&clipboard, &table).unwrap();
    assert_eq!(clipboard.text().unwrap(), "ph");
}

#[test]
fn copy_without_selection_leaves_clipboard_unchanged() {
    let mut table = Document::empty();
    table.insert(0, "alpha").unwrap();
    let clipboard = MemoryClipboard { text: RefCell::new("existing".to_string()) };
    assert!(!copy_selection(&clipboard, &table).unwrap());
    assert_eq!(clipboard.text().unwrap(), "existing");
}

#[test]
fn read_text_keeps_lf_and_utf8_content() {
    let clipboard = MemoryClipboard { text: RefCell::new("one\né中".to_string()) };
    assert_eq!(read_text(&clipboard).unwrap(), "one\né中");
}

#[test]
fn read_text_normalizes_windows_and_classic_line_endings() {
    let clipboard = MemoryClipboard { text: RefCell::new("one\r\ntwo\rthree\n".to_string()) };
    assert_eq!(read_text(&clipboard).unwrap(), "one\ntwo\nthree\n");
}

#[test]
fn newline_normalization_reuses_the_clipboard_allocation() {
    let mut text = String::with_capacity(64);
    text.push_str("one\r\ntwo\rthree");
    let allocation = text.as_ptr();
    let normalized = normalize_line_endings(text);
    assert_eq!(normalized, "one\ntwo\nthree");
    assert_eq!(normalized.as_ptr(), allocation);
}

#[test]
fn copy_rejects_embedded_nul_without_panicking() {
    let mut table = Document::empty();
    table.insert(0, "a\0b").unwrap();
    table.move_cursor(0).unwrap();
    table.select_right().unwrap();
    table.select_right().unwrap();
    table.select_right().unwrap();
    let clipboard = MemoryClipboard::default();
    assert!(copy_selection(&clipboard, &table).unwrap_err().contains("NUL"));
}

#[test]
fn paste_replaces_selection_as_one_undo_step() {
    let mut editor = editor();
    editor.document.insert(0, "alpha").unwrap();
    editor.document.move_cursor(1).unwrap();
    editor.document.select_right().unwrap();
    editor.document.select_right().unwrap();
    let clipboard = MemoryClipboard { text: RefCell::new("é\r\nx".to_string()) };
    assert!(paste(&clipboard, &mut editor).unwrap());
    let pasted = editor.document.read_range(0, editor.document.len()).unwrap();
    assert_eq!(String::from_utf8(pasted).unwrap(), "aé\nxha");
    assert_eq!(editor.undo_stack.len(), 1);
    editor.undo().unwrap();
    let restored = editor.document.read_range(0, editor.document.len()).unwrap();
    assert_eq!(String::from_utf8(restored).unwrap(), "alpha");
}

#[test]
fn empty_paste_does_not_create_history() {
    let mut editor = editor();
    let clipboard = MemoryClipboard::default();
    assert!(!paste(&clipboard, &mut editor).unwrap());
    assert!(editor.undo_stack.is_empty());
    assert!(editor.redo_stack.is_empty());
}

#[test]
fn cut_copies_and_removes_selection() {
    let mut editor = editor();
    editor.document.insert(0, "alpha beta").unwrap();
    editor.set_cursor_and_anchor(5, 0).unwrap();
    let clipboard = MemoryClipboard::default();
    assert!(cut_selection(&clipboard, &mut editor).unwrap());
    assert_eq!(clipboard.text().unwrap(), "alpha");
    assert_eq!(editor.document.text().unwrap(), " beta");
    editor.undo().unwrap();
    assert_eq!(editor.document.text().unwrap(), "alpha beta");
}
