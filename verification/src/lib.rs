//! Pötyi: verified editing logic of a lightweight text editor.
pub mod text;
pub mod typing;
pub mod numbers;
pub mod config;
pub mod search;
pub mod lsp_catalog;
pub mod command_bar;
pub mod document;
pub mod emacs;
pub mod history;
pub mod editor;
pub mod clipboard;
pub mod formatting;
pub mod keybindings;
pub mod keys;
pub mod line_numbers;
pub mod lsp;
pub mod navigation;
pub mod panes;
pub mod recovery_prompt;
