use potyi::command_bar::ParsedCommand;
use potyi::config::{EditorConfig, KeybindingMode, LineNumberMode};
use potyi::editor::Editor;
use potyi::keys::{KEY_ESCAPE, KEY_RETURN, KEY_TAB, MOD_LALT, MOD_LCTRL, MOD_LSHIFT, MOD_NONE, MOD_RCTRL};
use potyi::search::{
    find_command_text, replace_command_text, replace_current_match, replacement_requires_cursor_refresh,
    search_key_action, search_mode_option, SearchKeyAction, SearchKeyResult, SearchMode, SearchResult,
};

fn editor(text: &str) -> Editor {
    let mut editor = Editor::new(EditorConfig {
        tab_width: 4,
        insert_spaces: true,
        line_numbers: LineNumberMode::Normal,
        font_size: 18,
        keybinding_mode: KeybindingMode::Conventional,
    })
    .unwrap();
    editor.insert_text(text).unwrap();
    editor
}

#[test]
fn search_keys_pick_their_action() {
    assert_eq!(search_key_action('f' as u32, MOD_RCTRL, false, false), SearchKeyAction::Consumed);
    assert_eq!(search_key_action('r' as u32, MOD_LALT, false, true), SearchKeyAction::ReplaceCurrent);
    assert_eq!(search_key_action(KEY_RETURN, MOD_LCTRL, false, true), SearchKeyAction::ReplaceCurrent);
    assert_eq!(search_key_action(KEY_RETURN, MOD_LCTRL | MOD_LSHIFT, false, true), SearchKeyAction::ReplaceAll);
    assert_eq!(search_key_action('r' as u32, MOD_LALT, true, true), SearchKeyAction::Ignored);
    assert_eq!(search_key_action('m' as u32, MOD_LALT | MOD_LSHIFT, false, true), SearchKeyAction::CycleMode(true));
    assert_eq!(search_key_action(KEY_TAB, MOD_NONE, false, true), SearchKeyAction::FocusNextField(false));
    assert_eq!(search_key_action(KEY_TAB, MOD_NONE, false, false), SearchKeyAction::CycleMode(false));
    assert_eq!(search_key_action(KEY_TAB, MOD_NONE, true, false), SearchKeyAction::Consumed);
    assert_eq!(search_key_action(KEY_RETURN, MOD_LSHIFT, false, false), SearchKeyAction::Previous);
    assert_eq!(search_key_action(KEY_RETURN, MOD_NONE, false, false), SearchKeyAction::Next);
    assert_eq!(search_key_action(KEY_ESCAPE, MOD_NONE, true, false), SearchKeyAction::Close);
    assert_eq!(search_key_action('q' as u32, MOD_NONE, false, false), SearchKeyAction::Ignored);
    assert!(replacement_requires_cursor_refresh(SearchKeyResult::ReplaceAll, false));
    assert!(!replacement_requires_cursor_refresh(SearchKeyResult::ReplaceAll, true));
    assert!(!replacement_requires_cursor_refresh(SearchKeyResult::Consumed, false));
}

#[test]
fn search_commands_reproduce_the_panel() {
    assert_eq!(search_mode_option(SearchMode::CaseInsensitive), " --ignore-case");
    assert_eq!(find_command_text("", SearchMode::Regex), ":find ");
    assert_eq!(find_command_text("needle", SearchMode::Regex), ":find needle --regex");
    assert_eq!(find_command_text("two words", SearchMode::CaseSensitive), ":find \"two words\"");
    assert_eq!(
        replace_command_text("a", "", SearchMode::CaseInsensitive),
        ":replace a \"\" --ignore-case"
    );
}

#[test]
fn replacing_the_current_match_resumes_after_it() {
    let mut e = editor("one two one");
    let (count, resume) = replace_current_match(&mut e, SearchResult { start: 4, end: 7 }, "2").unwrap();
    assert_eq!((count, resume), (1, Some(5)));
    assert_eq!(e.document.text().unwrap(), "one 2 one");
    let (count, resume) = replace_current_match(&mut e, SearchResult { start: 4, end: 5 }, "2").unwrap();
    assert_eq!((count, resume), (0, Some(5)));
    let mut empty = editor("é!");
    let (count, resume) = replace_current_match(&mut empty, SearchResult { start: 0, end: 0 }, "<>").unwrap();
    assert_eq!((count, resume), (1, Some(4)));
    assert_eq!(empty.document.text().unwrap(), "<>é!");
    let (_, resume) = replace_current_match(&mut empty, SearchResult { start: 5, end: 5 }, "").unwrap();
    assert_eq!(resume, None);
}

#[test]
fn the_search_panel_follows_typed_commands() {
    let find = Ok(ParsedCommand::Find { query: "needle".into(), mode: SearchMode::Regex, backward: true });
    assert_eq!(
        potyi::search::sync_command_search(&find, None, 7),
        potyi::search::SearchSync::Find { query: "needle".into(), mode: SearchMode::Regex, origin: 7, backward: true }
    );
    let replace = Ok(ParsedCommand::Replace {
        query: "a".into(),
        replacement: "b".into(),
        mode: SearchMode::CaseSensitive,
        all: true,
    });
    assert_eq!(
        potyi::search::sync_command_search(&replace, Some(3), 7),
        potyi::search::SearchSync::Replace { query: "a".into(), replacement: "b".into(), mode: SearchMode::CaseSensitive }
    );
    assert_eq!(potyi::search::sync_command_search(&Err("bad".into()), Some(3), 7), potyi::search::SearchSync::Close);
}
