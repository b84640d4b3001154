//! The command bar: its input line, suggestions and command parsing.
pub mod words;
pub mod parse;
pub mod tables;
pub mod suggest;
pub mod info;
pub mod toggle;
pub mod bar;

pub use bar::{CommandBar, CommandBarHit};
pub use parse::{GotoMode, ParsedCommand};
pub use suggest::{CommandSuggestion, SuggestionAction};
