use potyi::command_bar::CommandBar;
use potyi::emacs::actions::{BarKeyAction, EmacsAction};
use potyi::emacs::controller::{Controller, Ui};
use potyi::keys::{KEY_ESCAPE, KEY_RETURN, MOD_LCTRL, MOD_NONE};

fn letter(c: char) -> u32 {
    c as u32
}

fn is_run(action: &EmacsAction, text: &str) -> bool {
    matches!(action, EmacsAction::Run(t) if t == text)
}

#[test]
fn quit_is_refused_while_a_document_is_modified() {
    let mut c = Controller::new();
    let ui = Ui::Command(":quit".to_string(), true);
    let refused = c.ui_action(&ui, 0, true, false, false);
    assert!(matches!(refused, EmacsAction::RefuseQuit(ref m)
        if m == "Save modified documents before quitting with Ctrl+X Ctrl+C."));
    let other = c.ui_action(&ui, 0, false, true, false);
    assert!(matches!(other, EmacsAction::RefuseQuit(_)));
    let clean = c.ui_action(&ui, 0, false, false, false);
    assert!(is_run(&clean, ":quit"));
    let save = c.ui_action(&Ui::Command(":save".to_string(), true), 0, true, true, false);
    assert!(is_run(&save, ":save"));
    let open = c.ui_action(&Ui::Command(":open ".to_string(), false), 0, false, false, false);
    assert!(matches!(open, EmacsAction::Open(ref t) if t == ":open "));
}

#[test]
fn search_requests_remember_where_they_started() {
    let mut c = Controller::new();
    let forward = c.ui_action(&Ui::Search(false), 7, false, false, false);
    assert!(matches!(forward, EmacsAction::Search(ref t, 6) if t == ":find "));
    assert_eq!(c.search_origin(), Some(7));
    let backward = c.ui_action(&Ui::Search(true), 9, false, false, false);
    assert!(matches!(backward, EmacsAction::Search(ref t, 6) if t == ":find  --backward"));
    assert_eq!(c.search_origin(), Some(9));
    assert!(matches!(c.ui_action(&Ui::Cancel, 0, false, false, false), EmacsAction::CloseSearch));
    assert_eq!(c.search_origin(), None);
}

#[test]
fn pane_requests_depend_on_the_split() {
    let mut c = Controller::new();
    assert!(matches!(c.ui_action(&Ui::OtherPane, 0, false, false, true), EmacsAction::FocusOther));
    assert!(matches!(c.ui_action(&Ui::OtherPane, 0, false, false, false), EmacsAction::Nothing));
    assert!(matches!(c.ui_action(&Ui::Split, 0, false, false, false), EmacsAction::SetSplit(true)));
    assert!(matches!(c.ui_action(&Ui::OnlyPane, 0, false, false, true), EmacsAction::SetSplit(false)));
    assert!(matches!(c.ui_action(&Ui::History(true, 3), 0, false, false, false), EmacsAction::History(true, 3)));
    assert!(matches!(c.ui_action(&Ui::Help, 0, false, false, false), EmacsAction::Help));
}

#[test]
fn cancel_in_the_bar_returns_to_the_search_start() {
    let mut c = Controller::new();
    c.set_search_origin(Some(40));
    let mut bar = CommandBar::new();
    bar.open(":find abc");
    let action = c.bar_key(&mut bar, letter('g'), MOD_LCTRL, 12);
    assert!(matches!(action, BarKeyAction::Cancel(Some(12))));
    assert!(!bar.is_active());
    assert_eq!(c.search_origin(), None);
    bar.open(":find abc");
    assert!(matches!(c.bar_key(&mut bar, KEY_ESCAPE, MOD_NONE, 12), BarKeyAction::Cancel(None)));
}

#[test]
fn enter_and_stepping_belong_to_a_running_search() {
    let mut c = Controller::new();
    let mut bar = CommandBar::new();
    bar.open(":find abc");
    assert!(matches!(c.bar_key(&mut bar, KEY_RETURN, MOD_NONE, 50), BarKeyAction::NotHandled));
    assert!(matches!(c.bar_key(&mut bar, letter('s'), MOD_LCTRL, 50), BarKeyAction::NotHandled));
    c.set_search_origin(Some(3));
    assert!(matches!(c.bar_key(&mut bar, letter('r'), MOD_LCTRL, 50), BarKeyAction::SearchStep(true)));
    assert!(matches!(c.bar_key(&mut bar, letter('s'), MOD_LCTRL, 50), BarKeyAction::SearchStep(false)));
    assert!(matches!(c.bar_key(&mut bar, KEY_RETURN, MOD_NONE, 50), BarKeyAction::EndSearch));
    assert!(!bar.is_active());
    assert_eq!(c.search_origin(), None);
}

#[test]
fn bar_editing_keys_move_delete_and_kill() {
    let mut c = Controller::new();
    let mut bar = CommandBar::new();
    bar.open(":open notes.txt");
    assert!(matches!(c.bar_key(&mut bar, letter('a'), MOD_LCTRL, 0), BarKeyAction::Edited));
    assert_eq!(bar.cursor(), 1);
    assert!(matches!(c.bar_key(&mut bar, letter('f'), MOD_LCTRL, 0), BarKeyAction::Edited));
    assert_eq!(bar.cursor(), 2);
    assert!(matches!(c.bar_key(&mut bar, letter('d'), MOD_LCTRL, 0), BarKeyAction::Edited));
    assert_eq!(bar.input(), ":oen notes.txt");
    assert!(matches!(c.bar_key(&mut bar, letter('h'), MOD_LCTRL, 0), BarKeyAction::Edited));
    assert_eq!(bar.input(), ":en notes.txt");
    assert_eq!(bar.cursor(), 1);
    match c.bar_key(&mut bar, letter('k'), MOD_LCTRL, 0) {
        BarKeyAction::Kill(text) => assert_eq!(text, "en notes.txt"),
        _ => panic!("C-k with text after the cursor kills it"),
    }
    bar.delete_to_end();
    assert_eq!(bar.input(), ":");
    assert!(matches!(c.bar_key(&mut bar, letter('k'), MOD_LCTRL, 0), BarKeyAction::Edited));
    assert!(matches!(c.bar_key(&mut bar, letter('y'), MOD_LCTRL, 0), BarKeyAction::Yank));
    assert!(matches!(c.bar_key(&mut bar, letter('x'), MOD_NONE, 0), BarKeyAction::NotHandled));
}
