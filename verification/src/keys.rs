//! Keys and modifier states as the window system reports them: key codes
//! (a letter's code is its lower-case character) and modifier bits.
use vstd::prelude::*;

verus! {

pub const KEY_RETURN: u32 = 0x0d;
pub const KEY_ESCAPE: u32 = 0x1b;
pub const KEY_BACKSPACE: u32 = 0x08;
pub const KEY_TAB: u32 = 0x09;
pub const KEY_SPACE: u32 = 0x20;
pub const KEY_COMMA: u32 = 0x2c;
pub const KEY_MINUS: u32 = 0x2d;
pub const KEY_PERIOD: u32 = 0x2e;
pub const KEY_SLASH: u32 = 0x2f;
pub const KEY_0: u32 = 0x30;
pub const KEY_9: u32 = 0x39;
pub const KEY_LESS: u32 = 0x3c;
pub const KEY_GREATER: u32 = 0x3e;
pub const KEY_UNDERSCORE: u32 = 0x5f;
pub const KEY_A: u32 = 0x61;
pub const KEY_Z: u32 = 0x7a;
pub const KEY_DELETE: u32 = 0x7f;
pub const KEY_HOME: u32 = 0x4000004a;
pub const KEY_PAGE_UP: u32 = 0x4000004b;
pub const KEY_END: u32 = 0x4000004d;
pub const KEY_PAGE_DOWN: u32 = 0x4000004e;
pub const KEY_RIGHT: u32 = 0x4000004f;
pub const KEY_LEFT: u32 = 0x40000050;
pub const KEY_DOWN: u32 = 0x40000051;
pub const KEY_UP: u32 = 0x40000052;
pub const KEY_KP_ENTER: u32 = 0x40000058;
pub const KEY_LCTRL: u32 = 0x400000e0;
pub const KEY_LSHIFT: u32 = 0x400000e1;
pub const KEY_LALT: u32 = 0x400000e2;
pub const KEY_LGUI: u32 = 0x400000e3;
pub const KEY_RCTRL: u32 = 0x400000e4;
pub const KEY_RSHIFT: u32 = 0x400000e5;
pub const KEY_RALT: u32 = 0x400000e6;
pub const KEY_RGUI: u32 = 0x400000e7;

pub const MOD_NONE: u16 = 0x0000;
pub const MOD_LSHIFT: u16 = 0x0001;
pub const MOD_RSHIFT: u16 = 0x0002;
pub const MOD_LCTRL: u16 = 0x0040;
pub const MOD_RCTRL: u16 = 0x0080;
pub const MOD_LALT: u16 = 0x0100;
pub const MOD_RALT: u16 = 0x0200;
pub const MOD_LGUI: u16 = 0x0400;
pub const MOD_RGUI: u16 = 0x0800;

/// The code of the letter `c` (`'a'` to `'z'`).
pub open spec fn letter(c: char) -> u32 {
    c as u32
}

pub open spec fn has_shift(mods: u16) -> bool {
    mods & 0x0003 != 0
}

pub open spec fn has_ctrl(mods: u16) -> bool {
    mods & 0x00c0 != 0
}

pub open spec fn has_alt(mods: u16) -> bool {
    mods & 0x0300 != 0
}

pub open spec fn has_gui(mods: u16) -> bool {
    mods & 0x0c00 != 0
}

/// Whether either Ctrl key is held.
pub fn ctrl_pressed(mods: u16) -> (r: bool)
    ensures
        r == has_ctrl(mods),
{
    mods & 0x00c0 != 0
}

/// Whether either Shift key is held.
pub fn shift_pressed(mods: u16) -> (r: bool)
    ensures
        r == has_shift(mods),
{
    mods & 0x0003 != 0
}

/// Whether either Alt key is held.
pub fn alt_pressed(mods: u16) -> (r: bool)
    ensures
        r == has_alt(mods),
{
    mods & 0x0300 != 0
}

/// Whether either GUI (Super, Command) key is held.
pub fn gui_pressed(mods: u16) -> (r: bool)
    ensures
        r == has_gui(mods),
{
    mods & 0x0c00 != 0
}

} // verus!
