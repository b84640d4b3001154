//! The fixed tables behind command completion.
use vstd::prelude::*;

verus! {

/// One row of a completion table: a name, what it does, and a third text
/// (a command's usage, or the command line that a choice completes to).
#[derive(Clone, Copy)]
pub struct Entry {
    pub name: &'static str,
    pub description: &'static str,
    pub extra: &'static str,
}

pub struct EntryV {
    pub name: Seq<char>,
    pub description: Seq<char>,
    pub extra: Seq<char>,
}

impl View for Entry {
    type V = EntryV;

    open spec fn view(&self) -> EntryV {
        EntryV { name: self.name@, description: self.description@, extra: self.extra@ }
    }
}

pub open spec fn entries_view(es: Seq<Entry>) -> Seq<EntryV> {
    es.map_values(|e: Entry| e@)
}

/// Commands offered at the start of the command line.
pub open spec fn spec_commands() -> Seq<EntryV> {
    seq![
        EntryV { name: "find"@, description: "Find text in the document"@, extra: ":find text [--ignore-case|--regex|--backward]"@ },
        EntryV { name: "replace"@, description: "Replace a match or every match"@, extra: ":replace old new [--all|--ignore-case|--regex]"@ },
        EntryV { name: "goto"@, description: "Gutter label, +N down, or -N up; optional :column"@, extra: ":goto line[:column] [--abs|--rel]"@ },
        EntryV { name: "open"@, description: "Open a file by path"@, extra: ":open path"@ },
        EntryV { name: "new"@, description: "Create a file or an unnamed document"@, extra: ":new [path]"@ },
        EntryV { name: "term"@, description: "Open the command terminal"@, extra: ":term"@ },
        EntryV { name: "split"@, description: "Toggle the fixed two-pane view"@, extra: ":split"@ },
        EntryV { name: "set"@, description: "Change an editor setting"@, extra: ":set font-size points | :set line-numbers type | :set keybindings mode"@ },
        EntryV { name: "save"@, description: "Save the current document"@, extra: ":save"@ },
        EntryV { name: "format"@, description: "Format the focused document now"@, extra: ":format [provider]"@ },
        EntryV { name: "formatters"@, description: "Show matching formatters and availability"@, extra: ":formatters"@ },
        EntryV { name: "save-as"@, description: "Save under a new name; add ! to overwrite"@, extra: ":save-as[!] path"@ },
        EntryV { name: "saveas"@, description: "Vim Save As (also :sav); add ! to overwrite"@, extra: ":saveas[!] path"@ },
        EntryV { name: "extract-config"@, description: "Create editable copies of built-in defaults"@, extra: ":extract-config"@ },
        EntryV { name: "quit"@, description: "Close Pötyi"@, extra: ":quit"@ },
        EntryV { name: "recover"@, description: "List unsaved sessions or open a recovered copy"@, extra: ":recover [number]"@ },
        EntryV { name: "lsp"@, description: "Language-server help, navigation, rename and refactoring"@, extra: ":lsp <command>"@ },
    ]
}

pub fn commands() -> (r: Vec<Entry>)
    ensures
        entries_view(r@) == spec_commands(),
{
    let mut r: Vec<Entry> = Vec::new();
    r.push(Entry { name: "find", description: "Find text in the document", extra: ":find text [--ignore-case|--regex|--backward]" });
    r.push(Entry { name: "replace", description: "Replace a match or every match", extra: ":replace old new [--all|--ignore-case|--regex]" });
    r.push(Entry { name: "goto", description: "Gutter label, +N down, or -N up; optional :column", extra: ":goto line[:column] [--abs|--rel]" });
    r.push(Entry { name: "open", description: "Open a file by path", extra: ":open path" });
    r.push(Entry { name: "new", description: "Create a file or an unnamed document", extra: ":new [path]" });
    r.push(Entry { name: "term", description: "Open the command terminal", extra: ":term" });
    r.push(Entry { name: "split", description: "Toggle the fixed two-pane view", extra: ":split" });
    r.push(Entry { name: "set", description: "Change an editor setting", extra: ":set font-size points | :set line-numbers type | :set keybindings mode" });
    r.push(Entry { name: "save", description: "Save the current document", extra: ":save" });
    r.push(Entry { name: "format", description: "Format the focused document now", extra: ":format [provider]" });
    r.push(Entry { name: "formatters", description: "Show matching formatters and availability", extra: ":formatters" });
    r.push(Entry { name: "save-as", description: "Save under a new name; add ! to overwrite", extra: ":save-as[!] path" });
    r.push(Entry { name: "saveas", description: "Vim Save As (also :sav); add ! to overwrite", extra: ":saveas[!] path" });
    r.push(Entry { name: "extract-config", description: "Create editable copies of built-in defaults", extra: ":extract-config" });
    r.push(Entry { name: "quit", description: "Close Pötyi", extra: ":quit" });
    r.push(Entry { name: "recover", description: "List unsaved sessions or open a recovered copy", extra: ":recover [number]" });
    r.push(Entry { name: "lsp", description: "Language-server help, navigation, rename and refactoring", extra: ":lsp <command>" });
    assert(entries_view(r@) =~= spec_commands());
    r
}

/// Language-server subcommands.
pub open spec fn spec_lsp_commands() -> Seq<EntryV> {
    seq![
        EntryV { name: "lsp install"@, description: "Install and configure a language server for this computer"@, extra: ":lsp install <server>"@ },
        EntryV { name: "lsp doctor"@, description: "Check language servers and missing prerequisites"@, extra: ":lsp doctor [server]"@ },
        EntryV { name: "lsp start"@, description: "Enable LSP for this window and connect to this file's server"@, extra: ":lsp start"@ },
        EntryV { name: "lsp restart"@, description: "Reload configuration and reconnect language servers"@, extra: ":lsp restart"@ },
        EntryV { name: "lsp hover"@, description: "Show language-server help at the cursor"@, extra: ":lsp hover"@ },
        EntryV { name: "lsp definition"@, description: "Go to the definition at the cursor"@, extra: ":lsp definition"@ },
        EntryV { name: "lsp rename"@, description: "Preview a symbol rename across the project"@, extra: ":lsp rename new_name"@ },
        EntryV { name: "lsp actions"@, description: "Choose a quick fix or refactoring at the cursor or selection"@, extra: ":lsp actions"@ },
        EntryV { name: "lsp refactor"@, description: "Choose a refactoring, such as moving a type or module to a file"@, extra: ":lsp refactor"@ },
        EntryV { name: "lsp back"@, description: "Return from a definition jump"@, extra: ":lsp back"@ },
        EntryV { name: "lsp status"@, description: "Show language-server configuration and sessions"@, extra: ":lsp status"@ },
        EntryV { name: "lsp stop"@, description: "Stop all language servers"@, extra: ":lsp stop"@ },
    ]
}

pub fn lsp_commands() -> (r: Vec<Entry>)
    ensures
        entries_view(r@) == spec_lsp_commands(),
{
    let mut r: Vec<Entry> = Vec::new();
    r.push(Entry { name: "lsp install", description: "Install and configure a language server for this computer", extra: ":lsp install <server>" });
    r.push(Entry { name: "lsp doctor", description: "Check language servers and missing prerequisites", extra: ":lsp doctor [server]" });
    r.push(Entry { name: "lsp start", description: "Enable LSP for this window and connect to this file's server", extra: ":lsp start" });
    r.push(Entry { name: "lsp restart", description: "Reload configuration and reconnect language servers", extra: ":lsp restart" });
    r.push(Entry { name: "lsp hover", description: "Show language-server help at the cursor", extra: ":lsp hover" });
    r.push(Entry { name: "lsp definition", description: "Go to the definition at the cursor", extra: ":lsp definition" });
    r.push(Entry { name: "lsp rename", description: "Preview a symbol rename across the project", extra: ":lsp rename new_name" });
    r.push(Entry { name: "lsp actions", description: "Choose a quick fix or refactoring at the cursor or selection", extra: ":lsp actions" });
    r.push(Entry { name: "lsp refactor", description: "Choose a refactoring, such as moving a type or module to a file", extra: ":lsp refactor" });
    r.push(Entry { name: "lsp back", description: "Return from a definition jump", extra: ":lsp back" });
    r.push(Entry { name: "lsp status", description: "Show language-server configuration and sessions", extra: ":lsp status" });
    r.push(Entry { name: "lsp stop", description: "Stop all language servers", extra: ":lsp stop" });
    assert(entries_view(r@) =~= spec_lsp_commands());
    r
}

/// Options of `:find`.
pub open spec fn spec_find_options() -> Seq<EntryV> {
    seq![
        EntryV { name: "--case-sensitive"@, description: "Match letter case (default)"@, extra: ""@ },
        EntryV { name: "--ignore-case"@, description: "Ignore differences in letter case"@, extra: ""@ },
        EntryV { name: "--regex"@, description: "Treat the query as a regular expression"@, extra: ""@ },
        EntryV { name: "--backward"@, description: "Search toward the start of the file"@, extra: ""@ },
    ]
}

pub fn find_options() -> (r: Vec<Entry>)
    ensures
        entries_view(r@) == spec_find_options(),
{
    let mut r: Vec<Entry> = Vec::new();
    r.push(Entry { name: "--case-sensitive", description: "Match letter case (default)", extra: "" });
    r.push(Entry { name: "--ignore-case", description: "Ignore differences in letter case", extra: "" });
    r.push(Entry { name: "--regex", description: "Treat the query as a regular expression", extra: "" });
    r.push(Entry { name: "--backward", description: "Search toward the start of the file", extra: "" });
    assert(entries_view(r@) =~= spec_find_options());
    r
}

/// Options of `:replace`.
pub open spec fn spec_replace_options() -> Seq<EntryV> {
    seq![
        EntryV { name: "--case-sensitive"@, description: "Match letter case (default)"@, extra: ""@ },
        EntryV { name: "--ignore-case"@, description: "Ignore differences in letter case"@, extra: ""@ },
        EntryV { name: "--regex"@, description: "Treat the query as a regular expression"@, extra: ""@ },
        EntryV { name: "--all"@, description: "Replace every non-overlapping match"@, extra: ""@ },
    ]
}

pub fn replace_options() -> (r: Vec<Entry>)
    ensures
        entries_view(r@) == spec_replace_options(),
{
    let mut r: Vec<Entry> = Vec::new();
    r.push(Entry { name: "--case-sensitive", description: "Match letter case (default)", extra: "" });
    r.push(Entry { name: "--ignore-case", description: "Ignore differences in letter case", extra: "" });
    r.push(Entry { name: "--regex", description: "Treat the query as a regular expression", extra: "" });
    r.push(Entry { name: "--all", description: "Replace every non-overlapping match", extra: "" });
    assert(entries_view(r@) =~= spec_replace_options());
    r
}

/// Options of `:goto`.
pub open spec fn spec_goto_options() -> Seq<EntryV> {
    seq![
        EntryV { name: "--abs"@, description: "Treat the line as an absolute line number"@, extra: ""@ },
        EntryV { name: "--rel"@, description: "Force an offset: positive down, negative up"@, extra: ""@ },
    ]
}

pub fn goto_options() -> (r: Vec<Entry>)
    ensures
        entries_view(r@) == spec_goto_options(),
{
    let mut r: Vec<Entry> = Vec::new();
    r.push(Entry { name: "--abs", description: "Treat the line as an absolute line number", extra: "" });
    r.push(Entry { name: "--rel", description: "Force an offset: positive down, negative up", extra: "" });
    assert(entries_view(r@) =~= spec_goto_options());
    r
}

/// Offered font sizes; the third field is the command they complete to.
pub open spec fn spec_font_size_choices() -> Seq<EntryV> {
    seq![
        EntryV { name: "12"@, description: "Compact text"@, extra: ":set font-size 12"@ },
        EntryV { name: "14"@, description: "Small text"@, extra: ":set font-size 14"@ },
        EntryV { name: "16"@, description: "Medium text"@, extra: ":set font-size 16"@ },
        EntryV { name: "18"@, description: "Default text size"@, extra: ":set font-size 18"@ },
        EntryV { name: "20"@, description: "Large text"@, extra: ":set font-size 20"@ },
        EntryV { name: "24"@, description: "Larger text"@, extra: ":set font-size 24"@ },
        EntryV { name: "32"@, description: "Extra-large text"@, extra: ":set font-size 32"@ },
    ]
}

pub fn font_size_choices() -> (r: Vec<Entry>)
    ensures
        entries_view(r@) == spec_font_size_choices(),
{
    let mut r: Vec<Entry> = Vec::new();
    r.push(Entry { name: "12", description: "Compact text", extra: ":set font-size 12" });
    r.push(Entry { name: "14", description: "Small text", extra: ":set font-size 14" });
    r.push(Entry { name: "16", description: "Medium text", extra: ":set font-size 16" });
    r.push(Entry { name: "18", description: "Default text size", extra: ":set font-size 18" });
    r.push(Entry { name: "20", description: "Large text", extra: ":set font-size 20" });
    r.push(Entry { name: "24", description: "Larger text", extra: ":set font-size 24" });
    r.push(Entry { name: "32", description: "Extra-large text", extra: ":set font-size 32" });
    assert(entries_view(r@) =~= spec_font_size_choices());
    r
}

/// Offered line number styles.
pub open spec fn spec_line_number_choices() -> Seq<EntryV> {
    seq![
        EntryV { name: "normal"@, description: "Show absolute line numbers"@, extra: ":set line-numbers normal"@ },
        EntryV { name: "relative"@, description: "Show distance from the cursor line"@, extra: ":set line-numbers relative"@ },
        EntryV { name: "dynamic"@, description: "Keep the cursor line absolute"@, extra: ":set line-numbers dynamic"@ },
    ]
}

pub fn line_number_choices() -> (r: Vec<Entry>)
    ensures
        entries_view(r@) == spec_line_number_choices(),
{
    let mut r: Vec<Entry> = Vec::new();
    r.push(Entry { name: "normal", description: "Show absolute line numbers", extra: ":set line-numbers normal" });
    r.push(Entry { name: "relative", description: "Show distance from the cursor line", extra: ":set line-numbers relative" });
    r.push(Entry { name: "dynamic", description: "Keep the cursor line absolute", extra: ":set line-numbers dynamic" });
    assert(entries_view(r@) =~= spec_line_number_choices());
    r
}

/// Offered keyboard schemes.
pub open spec fn spec_keybinding_choices() -> Seq<EntryV> {
    seq![
        EntryV { name: "conventional"@, description: "Use conventional editor shortcuts"@, extra: ":set keybindings conventional"@ },
        EntryV { name: "vim"@, description: "Use Vim-like modal keybindings"@, extra: ":set keybindings vim"@ },
    ]
}

pub fn keybinding_choices() -> (r: Vec<Entry>)
    ensures
        entries_view(r@) == spec_keybinding_choices(),
{
    let mut r: Vec<Entry> = Vec::new();
    r.push(Entry { name: "conventional", description: "Use conventional editor shortcuts", extra: ":set keybindings conventional" });
    r.push(Entry { name: "vim", description: "Use Vim-like modal keybindings", extra: ":set keybindings vim" });
    assert(entries_view(r@) =~= spec_keybinding_choices());
    r
}

/// Settings of `:set`; the third field is the command they complete to.
pub open spec fn spec_settings() -> Seq<EntryV> {
    seq![
        EntryV { name: "font-size"@, description: "Set editor text size in points"@, extra: ":set font-size "@ },
        EntryV { name: "line-numbers"@, description: "Choose the line number style"@, extra: ":set line-numbers "@ },
        EntryV { name: "keybindings"@, description: "Choose conventional or Vim-like keys"@, extra: ":set keybindings "@ },
    ]
}

pub fn settings() -> (r: Vec<Entry>)
    ensures
        entries_view(r@) == spec_settings(),
{
    let mut r: Vec<Entry> = Vec::new();
    r.push(Entry { name: "font-size", description: "Set editor text size in points", extra: ":set font-size " });
    r.push(Entry { name: "line-numbers", description: "Choose the line number style", extra: ":set line-numbers " });
    r.push(Entry { name: "keybindings", description: "Choose conventional or Vim-like keys", extra: ":set keybindings " });
    assert(entries_view(r@) =~= spec_settings());
    r
}

} // verus!
