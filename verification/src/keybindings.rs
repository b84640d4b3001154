//! Editor commands and the key bindings that produce them.
use vstd::prelude::*;
use crate::command_bar::suggest::{ascii_lower, ascii_lower_exec};
use crate::keys::{gui_pressed, alt_pressed, ctrl_pressed, shift_pressed, has_alt, has_ctrl, has_gui, has_shift, letter, KEY_BACKSPACE, KEY_DELETE, KEY_DOWN, KEY_END, KEY_ESCAPE, KEY_HOME, KEY_KP_ENTER, KEY_LEFT, KEY_RETURN, KEY_RIGHT, KEY_TAB, KEY_UP, MOD_LALT, MOD_LCTRL, MOD_LGUI, MOD_LSHIFT, MOD_NONE};
use crate::numbers::{decimal, spec_decimal};
use crate::text::{chars_of, eq_str, extend_chars, push_str, string_of};

verus! {

/// Commands understood by the editor. Key bindings only translate keys into
/// commands; they do not run them.
#[derive(Clone, Copy, Debug, PartialEq, Eq, Structural)]
pub enum Command {
    MoveLeft,
    MoveRight,
    MoveUp,
    MoveDown,
    SelectLeft,
    SelectRight,
    SelectUp,
    SelectDown,
    Home,
    End,
    Delete,
    Backspace,
    Newline,
    InsertTab,
    Quit,
    Save,
    Undo,
    Redo,
    Copy,
    Cut,
    Paste,
}

/// A key binding: the key, the modifiers it needs, its command, and
/// whether it fires again while the key repeats.
#[derive(Clone, Copy, Debug, PartialEq, Eq, Structural)]
pub struct KeyBinding {
    pub key: u32,
    pub modifiers: u16,
    pub command: Command,
    pub repeatable: bool,
}

/// The key bindings, in priority order.
pub struct KeyBindings {
    bindings: Vec<KeyBinding>,
}

impl View for KeyBindings {
    type V = Seq<KeyBinding>;

    closed spec fn view(&self) -> Seq<KeyBinding> {
        self.bindings@
    }
}

/// One binding as a configuration file writes it.
pub struct ConfigBinding {
    pub key: String,
    pub modifiers: Vec<String>,
    pub command: String,
    pub repeatable: bool,
}

pub struct ConfigBindingV {
    pub key: Seq<char>,
    pub modifiers: Seq<Seq<char>>,
    pub command: Seq<char>,
    pub repeatable: bool,
}

impl View for ConfigBinding {
    type V = ConfigBindingV;

    open spec fn view(&self) -> ConfigBindingV {
        ConfigBindingV {
            key: self.key@,
            modifiers: self.modifiers@.map_values(|m: String| m@),
            command: self.command@,
            repeatable: self.repeatable,
        }
    }
}

/// The modifier bit a (lower-case) modifier name stands for.
pub open spec fn modifier_bit(l: Seq<char>) -> Option<u16> {
    if l == "shift"@ {
        Some(MOD_LSHIFT)
    } else if l == "ctrl"@ || l == "control"@ {
        Some(MOD_LCTRL)
    } else if l == "alt"@ {
        Some(MOD_LALT)
    } else if l == "gui"@ || l == "meta"@ || l == "super"@ || l == "win"@ {
        Some(MOD_LGUI)
    } else {
        None
    }
}

/// The modifiers named by the first `n` names, case ignored.
pub open spec fn modifiers_named(names: Seq<Seq<char>>, n: int) -> Result<u16, Seq<char>>
    decreases n,
{
    if n <= 0 {
        Ok(MOD_NONE)
    } else {
        match modifiers_named(names, n - 1) {
            Err(e) => Err(e),
            Ok(bits) => {
                let l = ascii_lower(names[n - 1]);
                if l.len() == 0 {
                    Err("empty modifier name"@)
                } else {
                    match modifier_bit(l) {
                        Some(b) => Ok(bits | b),
                        None => Err("unknown modifier '"@ + names[n - 1] + "'"@),
                    }
                }
            },
        }
    }
}

/// The key a (lower-case) key name stands for.
pub open spec fn key_named(l: Seq<char>) -> Option<u32> {
    if l == "left"@ {
        Some(KEY_LEFT)
    } else if l == "right"@ {
        Some(KEY_RIGHT)
    } else if l == "up"@ {
        Some(KEY_UP)
    } else if l == "down"@ {
        Some(KEY_DOWN)
    } else if l == "tab"@ {
        Some(KEY_TAB)
    } else if l == "home"@ {
        Some(KEY_HOME)
    } else if l == "end"@ {
        Some(KEY_END)
    } else if l == "delete"@ || l == "del"@ {
        Some(KEY_DELETE)
    } else if l == "backspace"@ {
        Some(KEY_BACKSPACE)
    } else if l == "return"@ || l == "enter"@ {
        Some(KEY_RETURN)
    } else if l == "kpenter"@ || l == "keypadenter"@ {
        Some(KEY_KP_ENTER)
    } else if l == "escape"@ || l == "esc"@ {
        Some(KEY_ESCAPE)
    } else if l.len() == 1 && 'a' <= l[0] <= 'z' {
        Some(letter(l[0]))
    } else {
        None
    }
}

/// The command a (lower-case) command name stands for; PascalCase and
/// snake_case are both accepted.
pub open spec fn command_named(l: Seq<char>) -> Option<Command> {
    if l == "moveleft"@ || l == "move_left"@ {
        Some(Command::MoveLeft)
    } else if l == "moveright"@ || l == "move_right"@ {
        Some(Command::MoveRight)
    } else if l == "moveup"@ || l == "move_up"@ {
        Some(Command::MoveUp)
    } else if l == "movedown"@ || l == "move_down"@ {
        Some(Command::MoveDown)
    } else if l == "selectleft"@ || l == "select_left"@ {
        Some(Command::SelectLeft)
    } else if l == "selectright"@ || l == "select_right"@ {
        Some(Command::SelectRight)
    } else if l == "selectup"@ || l == "select_up"@ {
        Some(Command::SelectUp)
    } else if l == "selectdown"@ || l == "select_down"@ {
        Some(Command::SelectDown)
    } else if l == "home"@ {
        Some(Command::Home)
    } else if l == "end"@ {
        Some(Command::End)
    } else if l == "delete"@ {
        Some(Command::Delete)
    } else if l == "backspace"@ {
        Some(Command::Backspace)
    } else if l == "newline"@ {
        Some(Command::Newline)
    } else if l == "inserttab"@ {
        Some(Command::InsertTab)
    } else if l == "quit"@ {
        Some(Command::Quit)
    } else if l == "save"@ {
        Some(Command::Save)
    } else if l == "undo"@ {
        Some(Command::Undo)
    } else if l == "redo"@ {
        Some(Command::Redo)
    } else if l == "copy"@ {
        Some(Command::Copy)
    } else if l == "cut"@ {
        Some(Command::Cut)
    } else if l == "paste"@ {
        Some(Command::Paste)
    } else {
        None
    }
}

/// The binding a configuration entry describes, or why it is refused.
pub open spec fn binding_of(c: ConfigBindingV) -> Result<KeyBinding, Seq<char>> {
    match key_named(ascii_lower(c.key)) {
        None => Err("unknown key '"@ + c.key + "'"@),
        Some(key) => match modifiers_named(c.modifiers, c.modifiers.len() as int) {
            Err(e) => Err(e),
            Ok(modifiers) => match command_named(ascii_lower(c.command)) {
                None => Err("unknown command '"@ + c.command + "'"@),
                Some(command) => Ok(KeyBinding { key, modifiers, command, repeatable: c.repeatable }),
            },
        },
    }
}

/// The bindings of the first `n` entries, or the first refusal, numbered
/// from one.
pub open spec fn bindings_of(cs: Seq<ConfigBindingV>, n: int) -> Result<Seq<KeyBinding>, Seq<char>>
    decreases n,
{
    if n <= 0 {
        Ok(Seq::empty())
    } else {
        match bindings_of(cs, n - 1) {
            Err(e) => Err(e),
            Ok(bs) => match binding_of(cs[n - 1]) {
                Err(e) => Err("binding "@ + spec_decimal(n as nat) + ": "@ + e),
                Ok(b) => Ok(bs.push(b)),
            },
        }
    }
}

/// Whether modifier state `actual` satisfies `required`: each of Shift,
/// Ctrl, Alt and GUI is held exactly when required, either side counting.
pub open spec fn modifiers_agree(required: u16, actual: u16) -> bool {
    &&& has_shift(required) == has_shift(actual)
    &&& has_ctrl(required) == has_ctrl(actual)
    &&& has_alt(required) == has_alt(actual)
    &&& has_gui(required) == has_gui(actual)
}

/// Whether a binding fires for a key event.
pub open spec fn fires(b: KeyBinding, key: u32, mods: u16, repeat: bool) -> bool {
    b.key == key && modifiers_agree(b.modifiers, mods) && (!repeat || b.repeatable)
}

/// The command of the first binding that fires, from index `i` on.
pub open spec fn first_firing(bs: Seq<KeyBinding>, key: u32, mods: u16, repeat: bool, i: int) -> Option<Command>
    decreases bs.len() - i,
{
    if i < 0 || i >= bs.len() {
        None
    } else if fires(bs[i], key, mods, repeat) {
        Some(bs[i].command)
    } else {
        first_firing(bs, key, mods, repeat, i + 1)
    }
}

proof fn lemma_modifier_error_stays(names: Seq<Seq<char>>, n: int, m: int)
    requires
        0 <= n <= m,
        modifiers_named(names, n) is Err,
    ensures
        modifiers_named(names, m) == modifiers_named(names, n),
    decreases m - n,
{
    if n < m {
        lemma_modifier_error_stays(names, n, m - 1);
    }
}

proof fn lemma_binding_error_stays(cs: Seq<ConfigBindingV>, n: int, m: int)
    requires
        0 <= n <= m,
        bindings_of(cs, n) is Err,
    ensures
        bindings_of(cs, m) == bindings_of(cs, n),
    decreases m - n,
{
    if n < m {
        lemma_binding_error_stays(cs, n, m - 1);
    }
}

fn lower(s: &str) -> (r: Vec<char>)
    ensures
        r@ == ascii_lower(s@),
{
    let c = chars_of(s);
    ascii_lower_exec(c.as_slice())
}

fn quoted_error(prefix: &str, name: &str) -> (r: String)
    ensures
        r@ == prefix@ + name@ + "'"@,
{
    let mut m = chars_of(prefix);
    let n = chars_of(name);
    extend_chars(&mut m, n.as_slice());
    push_str(&mut m, "'");
    string_of(m.as_slice())
}

impl KeyBindings {
    /// Reads modifier names (case ignored): Shift, Ctrl or Control, Alt,
    /// and GUI, Meta, Super or Win.
    pub fn parse_modifiers(modifiers: &[String]) -> (r: Result<u16, String>)
        ensures
            match modifiers_named(modifiers@.map_values(|m: String| m@), modifiers@.len() as int) {
                Ok(bits) => r == Ok::<u16, String>(bits),
                Err(e) => r matches Err(m) && m@ == e,
            },
    {
        let ghost names = modifiers@.map_values(|m: String| m@);
        let mut result: u16 = MOD_NONE;
        let mut i: usize = 0;
        while i < modifiers.len()
            invariant
                0 <= i <= modifiers.len(),
                names == modifiers@.map_values(|m: String| m@),
                modifiers_named(names, i as int) == Ok::<u16, Seq<char>>(result),
            decreases modifiers.len() - i,
        {
            assert(names[i as int] == modifiers@[i as int]@);
            let l = lower(modifiers[i].as_str());
            let s = l.as_slice();
            if l.len() == 0 {
                proof {
                    lemma_modifier_error_stays(names, i + 1, modifiers@.len() as int);
                }
                return Err(crate::text::string_from("empty modifier name"));
            }
            let bit: u16 = if eq_str(s, "shift") {
                MOD_LSHIFT
            } else if eq_str(s, "ctrl") || eq_str(s, "control") {
                MOD_LCTRL
            } else if eq_str(s, "alt") {
                MOD_LALT
            } else if eq_str(s, "gui") || eq_str(s, "meta") || eq_str(s, "super") || eq_str(s, "win") {
                MOD_LGUI
            } else {
                proof {
                    lemma_modifier_error_stays(names, i + 1, modifiers@.len() as int);
                }
                return Err(quoted_error("unknown modifier '", modifiers[i].as_str()));
            };
            result = result | bit;
            i = i + 1;
        }
        Ok(result)
    }

    /// Reads a key name (case ignored): arrows, Tab, Home, End, Delete,
    /// Backspace, Return, keypad Enter, Escape, or a letter.
    pub fn parse_keycode(name: &str) -> (r: Result<u32, String>)
        ensures
            match key_named(ascii_lower(name@)) {
                Some(k) => r == Ok::<u32, String>(k),
                None => r matches Err(m) && m@ == "unknown key '"@ + name@ + "'"@,
            },
    {
        let l = lower(name);
        let s = l.as_slice();
        if eq_str(s, "left") {
            Ok(KEY_LEFT)
        } else if eq_str(s, "right") {
            Ok(KEY_RIGHT)
        } else if eq_str(s, "up") {
            Ok(KEY_UP)
        } else if eq_str(s, "down") {
            Ok(KEY_DOWN)
        } else if eq_str(s, "tab") {
            Ok(KEY_TAB)
        } else if eq_str(s, "home") {
            Ok(KEY_HOME)
        } else if eq_str(s, "end") {
            Ok(KEY_END)
        } else if eq_str(s, "delete") || eq_str(s, "del") {
            Ok(KEY_DELETE)
        } else if eq_str(s, "backspace") {
            Ok(KEY_BACKSPACE)
        } else if eq_str(s, "return") || eq_str(s, "enter") {
            Ok(KEY_RETURN)
        } else if eq_str(s, "kpenter") || eq_str(s, "keypadenter") {
            Ok(KEY_KP_ENTER)
        } else if eq_str(s, "escape") || eq_str(s, "esc") {
            Ok(KEY_ESCAPE)
        } else if l.len() == 1 && 'a' <= l[0] && l[0] <= 'z' {
            Ok(l[0] as u32)
        } else {
            Err(quoted_error("unknown key '", name))
        }
    }

    /// Reads a command name (case ignored; PascalCase or snake_case).
    pub fn parse_command(name: &str) -> (r: Option<Command>)
        ensures
            r == command_named(ascii_lower(name@)),
    {
        let l = lower(name);
        let s = l.as_slice();
        if eq_str(s, "moveleft") || eq_str(s, "move_left") {
            Some(Command::MoveLeft)
        } else if eq_str(s, "moveright") || eq_str(s, "move_right") {
            Some(Command::MoveRight)
        } else if eq_str(s, "moveup") || eq_str(s, "move_up") {
            Some(Command::MoveUp)
        } else if eq_str(s, "movedown") || eq_str(s, "move_down") {
            Some(Command::MoveDown)
        } else if eq_str(s, "selectleft") || eq_str(s, "select_left") {
            Some(Command::SelectLeft)
        } else if eq_str(s, "selectright") || eq_str(s, "select_right") {
            Some(Command::SelectRight)
        } else if eq_str(s, "selectup") || eq_str(s, "select_up") {
            Some(Command::SelectUp)
        } else if eq_str(s, "selectdown") || eq_str(s, "select_down") {
            Some(Command::SelectDown)
        } else if eq_str(s, "home") {
            Some(Command::Home)
        } else if eq_str(s, "end") {
            Some(Command::End)
        } else if eq_str(s, "delete") {
            Some(Command::Delete)
        } else if eq_str(s, "backspace") {
            Some(Command::Backspace)
        } else if eq_str(s, "newline") {
            Some(Command::Newline)
        } else if eq_str(s, "inserttab") {
            Some(Command::InsertTab)
        } else if eq_str(s, "quit") {
            Some(Command::Quit)
        } else if eq_str(s, "save") {
            Some(Command::Save)
        } else if eq_str(s, "undo") {
            Some(Command::Undo)
        } else if eq_str(s, "redo") {
            Some(Command::Redo)
        } else if eq_str(s, "copy") {
            Some(Command::Copy)
        } else if eq_str(s, "cut") {
            Some(Command::Cut)
        } else if eq_str(s, "paste") {
            Some(Command::Paste)
        } else {
            None
        }
    }

    /// Whether the held modifiers match the ones a binding requires (see
    /// `modifiers_agree`).
    pub fn modifiers_match(required: u16, actual: u16) -> (r: bool)
        ensures
            r == modifiers_agree(required, actual),
    {
        shift_pressed(required) == shift_pressed(actual) && ctrl_pressed(required) == ctrl_pressed(actual)
            && alt_pressed(required) == alt_pressed(actual) && gui_pressed(required) == gui_pressed(actual)
    }

    fn binding(c: &ConfigBinding) -> (r: Result<KeyBinding, String>)
        ensures
            match binding_of(c@) {
                Ok(b) => r == Ok::<KeyBinding, String>(b),
                Err(e) => r matches Err(m) && m@ == e,
            },
    {
        let key = match Self::parse_keycode(c.key.as_str()) {
            Ok(k) => k,
            Err(e) => {
                return Err(e);
            },
        };
        let modifiers = match Self::parse_modifiers(c.modifiers.as_slice()) {
            Ok(m) => m,
            Err(e) => {
                return Err(e);
            },
        };
        match Self::parse_command(c.command.as_str()) {
            Some(command) => Ok(KeyBinding { key, modifiers, command, repeatable: c.repeatable }),
            None => Err(quoted_error("unknown command '", c.command.as_str())),
        }
    }

    /// The bindings that configuration entries describe, in order, or the
    /// first entry refused, numbered from one.
    pub fn from_config(config: &[ConfigBinding]) -> (r: Result<Self, String>)
        ensures
            match bindings_of(config@.map_values(|c: ConfigBinding| c@), config@.len() as int) {
                Ok(bs) => r matches Ok(k) && k@ == bs,
                Err(e) => r matches Err(m) && m@ == e,
            },
    {
        let ghost cs = config@.map_values(|c: ConfigBinding| c@);
        let mut bindings: Vec<KeyBinding> = Vec::new();
        let mut i: usize = 0;
        while i < config.len()
            invariant
                0 <= i <= config.len(),
                cs == config@.map_values(|c: ConfigBinding| c@),
                bindings_of(cs, i as int) == Ok::<Seq<KeyBinding>, Seq<char>>(bindings@),
            decreases config.len() - i,
        {
            assert(cs[i as int] == config@[i as int]@);
            match Self::binding(&config[i]) {
                Ok(b) => {
                    bindings.push(b);
                },
                Err(e) => {
                    let mut m = chars_of("binding ");
                    let number = decimal(i as u64 + 1);
                    extend_chars(&mut m, number.as_slice());
                    push_str(&mut m, ": ");
                    let detail = chars_of(e.as_str());
                    extend_chars(&mut m, detail.as_slice());
                    proof {
                        lemma_binding_error_stays(cs, i + 1, config@.len() as int);
                    }
                    return Err(string_of(m.as_slice()));
                },
            }
            i = i + 1;
        }
        Ok(KeyBindings { bindings })
    }

    /// The command bound to a key event: the first binding for the key
    /// whose modifiers match, skipping non-repeatable ones on repeats.
    pub fn command_for(&self, key: u32, keymod: u16, repeat: bool) -> (r: Option<Command>)
        ensures
            r == first_firing(self@, key, keymod, repeat, 0),
    {
        let mut i: usize = 0;
        while i < self.bindings.len()
            invariant
                0 <= i <= self.bindings.len(),
                first_firing(self@, key, keymod, repeat, 0) == first_firing(self@, key, keymod, repeat, i as int),
            decreases self.bindings.len() - i,
        {
            let b = self.bindings[i];
            if b.key == key && Self::modifiers_match(b.modifiers, keymod) && (!repeat || b.repeatable) {
                return Some(b.command);
            }
            i = i + 1;
        }
        None
    }

    /// The bindings, in priority order.
    pub fn bindings(&self) -> (r: &[KeyBinding])
        ensures
            r@ == self@,
    {
        self.bindings.as_slice()
    }
}

} // verus!
