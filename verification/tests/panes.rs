use potyi::command_bar::CommandBar;
use potyi::keys::{KEY_LCTRL, KEY_LEFT, MOD_LCTRL, MOD_LSHIFT, MOD_NONE};
use potyi::panes::{PaneContext, PaneKeys};
use potyi::recovery_prompt::{Arrival, RecoveryPrompt};

fn vim_context() -> PaneContext {
    PaneContext {
        command_bar_active: false,
        vim: true,
        emacs: false,
        terminal_focused: false,
        vim_insert: false,
        active_pane: 0,
        split_mode: true,
    }
}

#[test]
fn vim_window_prefix_focuses_panes() {
    let mut keys = PaneKeys::new();
    let first = keys.handle('w' as u32, MOD_LCTRL, false, vim_context());
    assert!(first.handled && first.cancel_vim_pending);
    assert!(keys.consume_text());
    assert!(!keys.consume_text());
    let modifier = keys.handle(KEY_LCTRL, MOD_LCTRL, false, vim_context());
    assert!(modifier.handled);
    let second = keys.handle('w' as u32, MOD_NONE, false, vim_context());
    assert_eq!(second.focus, Some(1));
    let repeat = keys.handle('w' as u32, MOD_NONE, true, vim_context());
    assert!(repeat.handled && repeat.focus.is_none());
    keys.handle('w' as u32, MOD_LCTRL, false, vim_context());
    assert_eq!(keys.handle(KEY_LEFT, MOD_NONE, false, vim_context()).focus, Some(0));
    keys.handle('w' as u32, MOD_LCTRL, false, vim_context());
    assert_eq!(keys.handle('l' as u32, MOD_LSHIFT, false, vim_context()).focus, None);
    let mut insert = vim_context();
    insert.vim_insert = true;
    assert!(!keys.handle('w' as u32, MOD_LCTRL, false, insert).handled);
}

#[test]
fn emacs_terminal_prefix_and_command_bar_cancel() {
    let mut keys = PaneKeys::new();
    let mut cx = vim_context();
    cx.vim = false;
    cx.emacs = true;
    cx.terminal_focused = true;
    assert!(keys.handle('x' as u32, MOD_LCTRL, false, cx).handled);
    assert_eq!(keys.handle('o' as u32, MOD_NONE, false, cx).focus, Some(1));
    keys.handle('x' as u32, MOD_LCTRL, false, cx);
    let mut bar = cx;
    bar.command_bar_active = true;
    assert!(!keys.handle('o' as u32, MOD_NONE, false, bar).handled);
    assert!(keys.pending.is_none());
    keys.cancel();
    assert!(!keys.consume_text());
}

#[test]
fn recovery_offer_waits_for_commands_and_dismissal_acknowledges() {
    let mut prompt = RecoveryPrompt::new();
    assert!(prompt.begin());
    assert!(!prompt.begin());
    prompt.set_waiting(true);
    assert_eq!(prompt.wait_timeout(), 100);
    let mut bar = CommandBar::new();
    bar.open(":find typing");
    let epoch = bar.epoch();
    assert_eq!(prompt.update(&mut bar, Arrival::Notice(Some("Recover 1 file?".into()))), (false, false));
    assert_eq!(bar.epoch(), epoch);
    assert_eq!(prompt.wait_timeout(), 1000);
    bar.close();
    assert_eq!(prompt.update(&mut bar, Arrival::Nothing), (true, false));
    assert!(bar.is_active());
    assert_eq!(bar.input(), ":recover");
    bar.close();
    assert_eq!(prompt.update(&mut bar, Arrival::Nothing), (false, true));
    assert!(!prompt.acknowledge());
}
