//! The gutter: which number each visible line shows.
use vstd::prelude::*;
use crate::config::LineNumberMode;
use crate::numbers::{decimal, spec_decimal};
use crate::text::string_of;

verus! {

/// The line-number gutter.
pub struct LineNumbers;

/// `|a - b|`.
pub open spec fn distance(a: int, b: int) -> int {
    if a >= b {
        a - b
    } else {
        b - a
    }
}

/// The number shown beside zero-based `line`: one-based in normal mode,
/// the distance to the cursor's line in relative mode, and in dynamic
/// mode the distance, except on the cursor's own line.
pub open spec fn shown_number(mode: LineNumberMode, line: int, cursor_line: int) -> int {
    match mode {
        LineNumberMode::Normal => line + 1,
        LineNumberMode::Relative => distance(line, cursor_line),
        LineNumberMode::Dynamic => if line == cursor_line {
            line + 1
        } else {
            distance(line, cursor_line)
        },
    }
}

/// The lines that a mode numbers absolutely (one more than the index).
pub open spec fn numbered_absolutely(mode: LineNumberMode, line: int, cursor_line: int) -> bool {
    mode == LineNumberMode::Normal || (mode == LineNumberMode::Dynamic && line == cursor_line)
}

impl LineNumbers {
    /// The number shown beside zero-based `line` when the cursor is on
    /// `cursor_line`.
    pub fn display_number(mode: LineNumberMode, line: usize, cursor_line: usize) -> (r: usize)
        requires
            numbered_absolutely(mode, line as int, cursor_line as int) ==> line < usize::MAX,
        ensures
            r == shown_number(mode, line as int, cursor_line as int),
    {
        match mode {
            LineNumberMode::Normal => line + 1,
            LineNumberMode::Relative => if line >= cursor_line {
                line - cursor_line
            } else {
                cursor_line - line
            },
            LineNumberMode::Dynamic => if line == cursor_line {
                line + 1
            } else if line >= cursor_line {
                line - cursor_line
            } else {
                cursor_line - line
            },
        }
    }

    /// The widest label of the gutter, which sets its width: the number of
    /// lines (at least one).
    pub fn width_label(line_count: usize) -> (r: String)
        ensures
            r@ == spec_decimal(if line_count > 0 { line_count as nat } else { 1 }),
    {
        let n: usize = if line_count > 0 { line_count } else { 1 };
        string_of(decimal(n as u64).as_slice())
    }

    /// The labels of the visible rows, from `first_line` on, for at most
    /// `visible_lines` rows and no line past the last.
    pub fn labels(mode: LineNumberMode, first_line: usize, visible_lines: usize, line_count: usize, cursor_line: usize) -> (r: Vec<String>)
        ensures
            r.len() == if first_line >= line_count {
                0
            } else if line_count - first_line < visible_lines {
                line_count - first_line
            } else {
                visible_lines as int
            },
            forall|row: int| 0 <= row < r.len() ==> (#[trigger] r@[row])@ == spec_decimal(
                shown_number(mode, first_line + row, cursor_line as int) as nat),
    {
        let mut r: Vec<String> = Vec::new();
        let mut row: usize = 0;
        while row < visible_lines && first_line < line_count && row < line_count - first_line
            invariant
                0 <= row <= visible_lines,
                first_line < line_count ==> row <= line_count - first_line,
                first_line >= line_count ==> row == 0,
                r.len() == row,
                forall|k: int| 0 <= k < r.len() ==> (#[trigger] r@[k])@ == spec_decimal(
                    shown_number(mode, first_line + k, cursor_line as int) as nat),
            decreases visible_lines - row,
        {
            let line = first_line + row;
            let number = LineNumbers::display_number(mode, line, cursor_line);
            r.push(string_of(decimal(number as u64).as_slice()));
            row = row + 1;
        }
        r
    }
}

} // verus!
