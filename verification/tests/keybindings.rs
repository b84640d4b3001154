use potyi::keybindings::{Command, ConfigBinding, KeyBindings};
use potyi::keys::{KEY_ESCAPE, KEY_LEFT, KEY_RIGHT, MOD_LCTRL, MOD_LSHIFT, MOD_NONE, MOD_RCTRL, MOD_RSHIFT};

fn binding(key: &str, modifiers: &[&str], command: &str, repeatable: bool) -> ConfigBinding {
    ConfigBinding {
        key: key.to_string(),
        modifiers: modifiers.iter().map(|m| m.to_string()).collect(),
        command: command.to_string(),
        repeatable,
    }
}

const KEY_S: u32 = 's' as u32;

#[test]
fn parses_basic_binding() {
    let bindings = KeyBindings::from_config(&[binding("Left", &[], "MoveLeft", true)]).unwrap();
    assert_eq!(bindings.command_for(KEY_LEFT, MOD_NONE, false), Some(Command::MoveLeft));
}

#[test]
fn parses_modifier_binding() {
    let bindings = KeyBindings::from_config(&[binding("S", &["Ctrl"], "Save", false)]).expect("configuration should parse");
    assert_eq!(bindings.command_for(KEY_S, MOD_LCTRL, false), Some(Command::Save));
}

#[test]
fn right_ctrl_matches_left_ctrl_binding() {
    let bindings = KeyBindings::from_config(&[binding("S", &["Ctrl"], "Save", false)]).expect("configuration should parse");
    assert_eq!(bindings.command_for(KEY_S, MOD_RCTRL, false), Some(Command::Save));
}

#[test]
fn shift_binding_works() {
    let bindings =
        KeyBindings::from_config(&[binding("Left", &["Shift"], "SelectLeft", true)]).expect("configuration should parse");
    assert_eq!(bindings.command_for(KEY_LEFT, MOD_LSHIFT, false), Some(Command::SelectLeft));
    assert_eq!(bindings.command_for(KEY_LEFT, MOD_RSHIFT, false), Some(Command::SelectLeft));
}

#[test]
fn extra_modifier_does_not_match() {
    let bindings = KeyBindings::from_config(&[binding("S", &["Ctrl"], "Save", false)]).expect("configuration should parse");
    assert_eq!(bindings.command_for(KEY_S, MOD_LCTRL | MOD_LSHIFT, false), None);
}

#[test]
fn repeatable_binding_accepts_repeat() {
    let bindings = KeyBindings::from_config(&[binding("Left", &[], "MoveLeft", true)]).expect("configuration should parse");
    assert_eq!(bindings.command_for(KEY_LEFT, MOD_NONE, true), Some(Command::MoveLeft));
}

#[test]
fn non_repeatable_binding_rejects_repeat() {
    let bindings = KeyBindings::from_config(&[binding("Escape", &[], "Quit", false)]).expect("configuration should parse");
    assert_eq!(bindings.command_for(KEY_ESCAPE, MOD_NONE, true), None);
}

#[test]
fn missing_modifiers_defaults_to_no_modifiers() {
    let bindings = KeyBindings::from_config(&[binding("Escape", &[], "Quit", false)]).expect("configuration should parse");
    assert_eq!(bindings.command_for(KEY_ESCAPE, MOD_NONE, false), Some(Command::Quit));
}

#[test]
fn accepts_snake_case_commands() {
    let bindings = KeyBindings::from_config(&[binding("Left", &[], "move_left", false)]).expect("configuration should parse");
    assert_eq!(bindings.command_for(KEY_LEFT, MOD_NONE, false), Some(Command::MoveLeft));
}

#[test]
fn rejects_unknown_key() {
    let result = KeyBindings::from_config(&[binding("DefinitelyNotAKey", &[], "MoveLeft", false)]);
    assert!(result.is_err());
    let error = result.err().unwrap();
    assert!(error.contains("unknown key"));
}

#[test]
fn rejects_unknown_modifier() {
    let result = KeyBindings::from_config(&[binding("S", &["SuperCoolModifier"], "Save", false)]);
    assert!(result.is_err());
    let error = result.err().unwrap();
    assert!(error.contains("unknown modifier"));
}

#[test]
fn rejects_unknown_command() {
    let result = KeyBindings::from_config(&[binding("S", &[], "DestroyComputer", false)]);
    assert!(result.is_err());
    let error = result.err().unwrap();
    assert!(error.contains("unknown command"));
}

#[test]
fn parses_multiple_bindings() {
    let bindings = KeyBindings::from_config(&[
        binding("Left", &[], "MoveLeft", true),
        binding("Right", &[], "MoveRight", true),
        binding("S", &["Ctrl"], "Save", false),
        binding("Escape", &[], "Quit", false),
    ])
    .expect("configuration should parse");
    assert_eq!(bindings.command_for(KEY_LEFT, MOD_NONE, false), Some(Command::MoveLeft));
    assert_eq!(bindings.command_for(KEY_RIGHT, MOD_NONE, false), Some(Command::MoveRight));
    assert_eq!(bindings.command_for(KEY_S, MOD_LCTRL, false), Some(Command::Save));
    assert_eq!(bindings.command_for(KEY_ESCAPE, MOD_NONE, false), Some(Command::Quit));
}

#[test]
fn rejects_unknown_names_with_their_entry() {
    let error = KeyBindings::from_config(&[
        binding("Left", &[], "MoveLeft", false),
        binding("DefinitelyNotAKey", &[], "MoveLeft", false),
    ])
    .err()
    .unwrap();
    assert_eq!(error, "binding 2: unknown key 'DefinitelyNotAKey'");
    let error = KeyBindings::from_config(&[binding("S", &["SuperCoolModifier"], "Save", false)]).err().unwrap();
    assert_eq!(error, "binding 1: unknown modifier 'SuperCoolModifier'");
    let error = KeyBindings::from_config(&[binding("S", &[""], "Save", false)]).err().unwrap();
    assert_eq!(error, "binding 1: empty modifier name");
    let error = KeyBindings::from_config(&[binding("S", &[], "Fly", false)]).err().unwrap();
    assert_eq!(error, "binding 1: unknown command 'Fly'");
    assert_eq!(KeyBindings::parse_modifiers(&["control".to_string(), "WIN".to_string()]), Ok(0x0440));
}

#[test]
fn first_matching_binding_wins() {
    let bindings = KeyBindings::from_config(&[
        binding("S", &["Ctrl"], "Save", false),
        binding("S", &["Ctrl"], "Quit", true),
    ])
    .unwrap();
    assert_eq!(bindings.command_for(KEY_S, MOD_LCTRL, false), Some(Command::Save));
    assert_eq!(bindings.command_for(KEY_S, MOD_LCTRL, true), Some(Command::Quit));
}
