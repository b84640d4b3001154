//! Editor settings and their validation.
use vstd::prelude::*;
use crate::numbers::{decimal, spec_decimal};
use crate::text::{push_str, string_of};

verus! {

/// How the gutter numbers lines.
#[derive(Clone, Copy, Debug, PartialEq, Eq, Structural)]
pub enum LineNumberMode {
    Normal,
    Dynamic,
    Relative,
}

impl Default for LineNumberMode {
    fn default() -> (r: Self)
        ensures
            r == LineNumberMode::Dynamic,
    {
        LineNumberMode::Dynamic
    }
}

/// Which keyboard scheme drives editing.
#[derive(Clone, Copy, Debug, PartialEq, Eq, Structural)]
pub enum KeybindingMode {
    Conventional,
    Vim,
}

impl Default for KeybindingMode {
    fn default() -> (r: Self)
        ensures
            r == KeybindingMode::Conventional,
    {
        KeybindingMode::Conventional
    }
}

pub const MIN_FONT_SIZE: u16 = 8;

pub const MAX_FONT_SIZE: u16 = 72;

/// Whether `points` is an accepted editor font size.
pub open spec fn font_size_ok(points: u16) -> bool {
    MIN_FONT_SIZE <= points <= MAX_FONT_SIZE
}

/// The `[editor]` settings.
#[derive(Clone, Copy, Debug, PartialEq, Eq, Structural)]
pub struct EditorConfig {
    pub tab_width: usize,
    pub insert_spaces: bool,
    pub line_numbers: LineNumberMode,
    pub font_size: u16,
    pub keybinding_mode: KeybindingMode,
}

impl EditorConfig {
    /// The built-in defaults.
    pub fn default() -> (c: Self)
        ensures
            c.tab_width == 2,
            !c.insert_spaces,
            c.line_numbers == LineNumberMode::Dynamic,
            c.font_size == 18,
            c.keybinding_mode == KeybindingMode::Conventional,
            font_size_ok(c.font_size),
    {
        EditorConfig {
            tab_width: 2,
            insert_spaces: false,
            line_numbers: LineNumberMode::Dynamic,
            font_size: 18,
            keybinding_mode: KeybindingMode::Conventional,
        }
    }

    /// Accepts the settings read from `path` when the font size is within
    /// bounds; otherwise explains the problem.
    pub fn validate(&self, path: &str) -> (r: Result<(), String>)
        ensures
            r is Ok <==> font_size_ok(self.font_size),
            r matches Err(m) ==> m@ == "Invalid font_size in "@ + path@
                + ": expected 8 through 72, got "@ + spec_decimal(self.font_size as nat),
    {
        if MIN_FONT_SIZE <= self.font_size && self.font_size <= MAX_FONT_SIZE {
            return Ok(());
        }
        let mut m: Vec<char> = Vec::new();
        push_str(&mut m, "Invalid font_size in ");
        push_str(&mut m, path);
        push_str(&mut m, ": expected 8 through 72, got ");
        let digits = decimal(self.font_size as u64);
        crate::text::extend_chars(&mut m, digits.as_slice());
        assert(m@ =~= "Invalid font_size in "@ + path@ + ": expected 8 through 72, got "@
            + spec_decimal(self.font_size as nat));
        Err(string_of(m.as_slice()))
    }
}

} // verus!
