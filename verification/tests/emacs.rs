use std::cell::RefCell;

use potyi::clipboard::TextClipboard;
use potyi::config::{EditorConfig, KeybindingMode, LineNumberMode};
use potyi::editor::Editor;
use potyi::emacs::controller::{Controller, Outcome, Ui};
use potyi::emacs::{RING_BYTES, RING_ENTRIES};
use potyi::keys::{KEY_0, KEY_ESCAPE, KEY_LCTRL, KEY_LSHIFT, KEY_MINUS, KEY_SPACE, MOD_LALT, MOD_LCTRL, MOD_LSHIFT, MOD_NONE};

#[derive(Default)]
struct Clipboard(RefCell<String>);

impl TextClipboard for Clipboard {
    fn set_text(&self, text: &str) -> Result<(), String> {
        *self.0.borrow_mut() = text.into();
        Ok(())
    }

    fn text(&self) -> Result<String, String> {
        Ok(self.0.borrow().clone())
    }
}

fn config() -> EditorConfig {
    EditorConfig {
        tab_width: 4,
        insert_spaces: true,
        line_numbers: LineNumberMode::Dynamic,
        font_size: 18,
        keybinding_mode: KeybindingMode::Conventional,
    }
}

fn editor(text: &str) -> Editor {
    let mut e = Editor::new(config()).unwrap();
    e.insert_text(text).unwrap();
    e.document.move_cursor(0).unwrap();
    e.undo_stack.clear();
    e.redo_stack.clear();
    e.dirty = false;
    e
}

fn letter(c: char) -> u32 {
    c as u32
}

fn key(c: &mut Controller, e: &mut Editor, b: &Clipboard, k: u32, m: u16) -> Outcome {
    c.begin_key();
    c.key(e, b, k, m, 3).unwrap()
}

#[test]
fn emacs_unicode_words_marks_and_exchange() {
    let (mut c, mut e, b) = (Controller::new(), editor("éclair 東京\nlast line"), Clipboard::default());
    key(&mut c, &mut e, &b, letter('f'), MOD_LCTRL);
    assert_eq!(e.document.cursor().position, "é".len());
    key(&mut c, &mut e, &b, letter('a'), MOD_LCTRL);
    key(&mut c, &mut e, &b, KEY_SPACE, MOD_LCTRL);
    key(&mut c, &mut e, &b, letter('f'), MOD_LALT);
    assert_eq!(e.document.selection_end(), "éclair".len());
    key(&mut c, &mut e, &b, letter('w'), MOD_LALT);
    assert_eq!(b.text().unwrap(), "éclair");
    assert!(!e.document.has_selection());
    key(&mut c, &mut e, &b, letter('f'), MOD_LALT);
    assert_eq!(e.document.cursor().position, "éclair 東京".len());
    key(&mut c, &mut e, &b, letter('x'), MOD_LCTRL);
    key(&mut c, &mut e, &b, letter('x'), MOD_LCTRL);
    assert!(e.document.has_selection());
    key(&mut c, &mut e, &b, letter('g'), MOD_LCTRL);
    assert!(!e.document.has_selection());
    assert_eq!(c.key(&mut e, &b, letter('s'), MOD_LCTRL, 3).unwrap().ui, Ui::Search(false));
}

#[test]
fn emacs_prefixes_counts_and_text_suppression() {
    let (mut c, mut e, b) = (Controller::new(), editor("abcdefghij"), Clipboard::default());
    key(&mut c, &mut e, &b, letter('u'), MOD_LCTRL);
    key(&mut c, &mut e, &b, letter('f'), MOD_LCTRL);
    assert_eq!(e.document.cursor().position, 4);
    key(&mut c, &mut e, &b, KEY_MINUS, MOD_LALT);
    key(&mut c, &mut e, &b, KEY_0 + 2, MOD_NONE);
    key(&mut c, &mut e, &b, letter('f'), MOD_LCTRL);
    assert_eq!(e.document.cursor().position, 2);
    key(&mut c, &mut e, &b, KEY_ESCAPE, MOD_NONE);
    key(&mut c, &mut e, &b, KEY_LSHIFT, MOD_LSHIFT);
    assert_eq!(key(&mut c, &mut e, &b, letter('x'), MOD_NONE).ui, Ui::Command(":".to_string(), false));
    assert!(c.consume_text());
    key(&mut c, &mut e, &b, letter('x'), MOD_LCTRL);
    assert_eq!(key(&mut c, &mut e, &b, letter('s'), MOD_LCTRL).ui, Ui::Command(":save".to_string(), true));
    key(&mut c, &mut e, &b, letter('u'), MOD_LCTRL);
    key(&mut c, &mut e, &b, letter('z'), MOD_NONE);
    assert!(!c.consume_text());
    c.insert(&mut e, "z").unwrap();
    assert_eq!(e.document.text().unwrap(), "abzzzzcdefghij");
    e.undo().unwrap();
    assert_eq!(e.document.text().unwrap(), "abcdefghij");
    key(&mut c, &mut e, &b, letter('x'), MOD_LCTRL);
    key(&mut c, &mut e, &b, letter('g'), MOD_LCTRL);
    assert!(!e.emacs.prefix);
}

#[test]
fn emacs_kills_coalesce_yanks_cycle_and_undo() {
    let (mut c, mut e, b) = (Controller::new(), editor("first\nsecond\nthird"), Clipboard::default());
    key(&mut c, &mut e, &b, letter('k'), MOD_LCTRL);
    assert_eq!(b.text().unwrap(), "first");
    key(&mut c, &mut e, &b, letter('k'), MOD_LCTRL);
    assert_eq!(b.text().unwrap(), "first\n");
    assert_eq!(e.document.text().unwrap(), "second\nthird");
    key(&mut c, &mut e, &b, letter('f'), MOD_LCTRL);
    key(&mut c, &mut e, &b, letter('a'), MOD_LCTRL);
    key(&mut c, &mut e, &b, letter('k'), MOD_LCTRL);
    assert_eq!(c.ring_len(), 2);
    key(&mut c, &mut e, &b, letter('y'), MOD_LCTRL);
    assert_eq!(e.document.text().unwrap(), "second\nthird");
    key(&mut c, &mut e, &b, letter('y'), MOD_LALT);
    assert_eq!(e.document.text().unwrap(), "first\n\nthird");
    e.undo().unwrap();
    assert_eq!(e.document.text().unwrap(), "second\nthird");
    assert!(c.key(&mut e, &b, letter('y'), MOD_LALT, 3).is_err());
}

#[test]
fn emacs_ring_is_shared_bounded_and_readonly_kills_do_nothing() {
    let (mut c, mut e, b) = (Controller::new(), editor("word next"), Clipboard::default());
    key(&mut c, &mut e, &b, letter('d'), MOD_LALT);
    let mut other = editor("");
    key(&mut c, &mut other, &b, letter('y'), MOD_LCTRL);
    assert_eq!(other.document.text().unwrap(), "word");
    e.read_only = true;
    let before = e.document.text().unwrap();
    let clip = b.text().unwrap();
    assert!(c.key(&mut e, &b, letter('k'), MOD_LCTRL, 3).is_err());
    assert_eq!(e.document.text().unwrap(), before);
    assert_eq!(b.text().unwrap(), clip);
    for i in 0..100 {
        c.remember(format!("{i}{}", "x".repeat(20_000)));
    }
    assert!(c.ring_bytes() <= RING_BYTES && c.ring_len() <= RING_ENTRIES);
    c.remember("x".repeat(RING_BYTES + 1));
    assert_eq!(c.ring_bytes(), 0);
    assert_eq!(c.ring_len(), 0);
}

#[test]
fn emacs_line_page_and_whole_document_selection() {
    let (mut c, mut e, b) = (Controller::new(), editor("one\ntwo\nthree\nfour\nfive"), Clipboard::default());
    key(&mut c, &mut e, &b, letter('v'), MOD_LCTRL);
    assert_eq!(e.document.cursor().line, 3);
    key(&mut c, &mut e, &b, letter('v'), MOD_LALT);
    assert_eq!(e.document.cursor().line, 0);
    key(&mut c, &mut e, &b, letter('x'), MOD_LCTRL);
    key(&mut c, &mut e, &b, letter('h'), MOD_NONE);
    assert_eq!(e.document.selection_end(), e.document.len());
    key(&mut c, &mut e, &b, letter('w'), MOD_LCTRL);
    assert_eq!(e.document.len(), 0);
    e.undo().unwrap();
    assert!(e.document.text().unwrap().ends_with("five"));
}

#[test]
fn emacs_empty_edges_prefix_actions_and_modifier_keys() {
    let mut e = Editor::new(config()).unwrap();
    let mut c = Controller::new();
    let b = Clipboard::default();
    for k in ['f', 'b', 'n', 'p', 'a', 'e', 'k'] {
        c.key(&mut e, &b, letter(k), MOD_LCTRL, 10).unwrap();
        assert_eq!(e.document.cursor().position, 0);
    }
    for (k, mods, expected) in [
        (letter('f'), MOD_LCTRL, Ui::Command(":open ".to_string(), false)),
        (letter('w'), MOD_LCTRL, Ui::Command(":save-as ".to_string(), false)),
        (KEY_0 + 2, MOD_NONE, Ui::Split),
        (letter('o'), MOD_NONE, Ui::OtherPane),
        (KEY_0 + 1, MOD_NONE, Ui::OnlyPane),
        (letter('c'), MOD_LCTRL, Ui::Command(":quit".to_string(), true)),
    ] {
        c.key(&mut e, &b, letter('x'), MOD_LCTRL, 10).unwrap();
        c.key(&mut e, &b, KEY_LCTRL, MOD_LCTRL, 10).unwrap();
        assert_eq!(c.key(&mut e, &b, k, mods, 10).unwrap().ui, expected);
    }
    c.key(&mut e, &b, KEY_ESCAPE, MOD_NONE, 10).unwrap();
    c.key(&mut e, &b, letter('x'), MOD_LALT, 10).unwrap();
    assert!(!e.emacs.meta);
    assert_eq!(c.key(&mut e, &b, letter('h'), MOD_LCTRL, 10).unwrap().ui, Ui::Help);
}

#[test]
fn emacs_errors_name_what_is_missing() {
    let (mut c, mut e, b) = (Controller::new(), editor("text"), Clipboard::default());
    assert_eq!(
        c.key(&mut e, &b, letter('w'), MOD_LCTRL, 3).err().unwrap(),
        "No selected region; use Ctrl+Space and move"
    );
    c.key(&mut e, &b, letter('x'), MOD_LCTRL, 3).unwrap();
    assert_eq!(c.key(&mut e, &b, letter('x'), MOD_LCTRL, 3).err().unwrap(), "No mark set; use Ctrl+Space");
    c.key(&mut e, &b, letter('x'), MOD_LCTRL, 3).unwrap();
    assert_eq!(
        c.key(&mut e, &b, letter('q'), MOD_NONE, 3).err().unwrap(),
        "Unsupported Emacs C-x sequence; Ctrl+G cancels"
    );
    assert_eq!(c.key(&mut e, &b, letter('y'), MOD_LALT, 3).err().unwrap(), "Alt+Y must immediately follow a yank");
    c.key(&mut e, &b, letter('o'), MOD_LCTRL, 3).unwrap();
    assert_eq!(e.document.text().unwrap(), "\ntext");
    assert_eq!(e.document.cursor().position, 0);
}
