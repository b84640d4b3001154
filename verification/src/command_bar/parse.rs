//! Reading a command line into a command.
use vstd::prelude::*;
use crate::command_bar::words::{CommandWord, WordV, spec_tokenize, tokenize, words_view};
use crate::config::{KeybindingMode, LineNumberMode, MAX_FONT_SIZE, MIN_FONT_SIZE};
use crate::numbers::{
    parse_isize, parse_unsigned, spec_parse_isize, spec_parse_unsigned,
};
use crate::search::SearchMode;
use crate::text::{
    byte_len, char_width, chars_of, eq_str, extend_chars, is_control, is_control_char,
    is_white_space, is_whitespace, slice_vec, string_of, utf8_width,
};

verus! {

/// How a `:goto` line is interpreted.
#[derive(Clone, Copy, Debug, PartialEq, Eq, Structural)]
pub enum GotoMode {
    Automatic,
    Absolute,
    Relative,
}

/// A command read from the command line.
#[allow(inconsistent_fields)]
#[derive(Clone, Debug, PartialEq, Eq)]
pub enum ParsedCommand {
    Find { query: String, mode: SearchMode, backward: bool },
    Replace { query: String, replacement: String, mode: SearchMode, all: bool },
    Goto { line: isize, column: Option<usize>, mode: GotoMode },
    Open { path: String },
    New { path: Option<String> },
    SetFontSize { points: u16 },
    SetLineNumbers { mode: LineNumberMode },
    SetKeybindings { mode: KeybindingMode },
    Term,
    Split,
    ExtractConfig,
    Format { provider: Option<String> },
    Formatters,
    Hover,
    Definition,
    Rename { name: String },
    Actions { refactor_only: bool },
    LspBack,
    LspStatus,
    LspInstall { server: String },
    LspDoctor { server: Option<String> },
    LspStart,
    LspRestart,
    LspStop,
    Save,
    SaveAs { path: Option<String>, overwrite: bool },
    Recover { number: Option<usize> },
    Quit,
}

/// Mathematical form of a command.
#[allow(inconsistent_fields)]
pub enum Command {
    Find { query: Seq<char>, mode: SearchMode, backward: bool },
    Replace { query: Seq<char>, replacement: Seq<char>, mode: SearchMode, all: bool },
    Goto { line: isize, column: Option<usize>, mode: GotoMode },
    Open { path: Seq<char> },
    New { path: Option<Seq<char>> },
    SetFontSize { points: u16 },
    SetLineNumbers { mode: LineNumberMode },
    SetKeybindings { mode: KeybindingMode },
    Term,
    Split,
    ExtractConfig,
    Format { provider: Option<Seq<char>> },
    Formatters,
    Hover,
    Definition,
    Rename { name: Seq<char> },
    Actions { refactor_only: bool },
    LspBack,
    LspStatus,
    LspInstall { server: Seq<char> },
    LspDoctor { server: Option<Seq<char>> },
    LspStart,
    LspRestart,
    LspStop,
    Save,
    SaveAs { path: Option<Seq<char>>, overwrite: bool },
    Recover { number: Option<usize> },
    Quit,
}

pub open spec fn opt_view(s: Option<String>) -> Option<Seq<char>> {
    match s {
        Some(v) => Some(v@),
        None => None,
    }
}

impl View for ParsedCommand {
    type V = Command;

    open spec fn view(&self) -> Command {
        match self {
            ParsedCommand::Find { query, mode, backward } => Command::Find {
                query: query@,
                mode: *mode,
                backward: *backward,
            },
            ParsedCommand::Replace { query, replacement, mode, all } => Command::Replace {
                query: query@,
                replacement: replacement@,
                mode: *mode,
                all: *all,
            },
            ParsedCommand::Goto { line, column, mode } => Command::Goto {
                line: *line,
                column: *column,
                mode: *mode,
            },
            ParsedCommand::Open { path } => Command::Open { path: path@ },
            ParsedCommand::New { path } => Command::New { path: opt_view(*path) },
            ParsedCommand::SetFontSize { points } => Command::SetFontSize { points: *points },
            ParsedCommand::SetLineNumbers { mode } => Command::SetLineNumbers { mode: *mode },
            ParsedCommand::SetKeybindings { mode } => Command::SetKeybindings { mode: *mode },
            ParsedCommand::Term => Command::Term,
            ParsedCommand::Split => Command::Split,
            ParsedCommand::ExtractConfig => Command::ExtractConfig,
            ParsedCommand::Format { provider } => Command::Format { provider: opt_view(*provider) },
            ParsedCommand::Formatters => Command::Formatters,
            ParsedCommand::Hover => Command::Hover,
            ParsedCommand::Definition => Command::Definition,
            ParsedCommand::Rename { name } => Command::Rename { name: name@ },
            ParsedCommand::Actions { refactor_only } => Command::Actions {
                refactor_only: *refactor_only,
            },
            ParsedCommand::LspBack => Command::LspBack,
            ParsedCommand::LspStatus => Command::LspStatus,
            ParsedCommand::LspInstall { server } => Command::LspInstall { server: server@ },
            ParsedCommand::LspDoctor { server } => Command::LspDoctor { server: opt_view(*server) },
            ParsedCommand::LspStart => Command::LspStart,
            ParsedCommand::LspRestart => Command::LspRestart,
            ParsedCommand::LspStop => Command::LspStop,
            ParsedCommand::Save => Command::Save,
            ParsedCommand::SaveAs { path, overwrite } => Command::SaveAs {
                path: opt_view(*path),
                overwrite: *overwrite,
            },
            ParsedCommand::Recover { number } => Command::Recover { number: *number },
            ParsedCommand::Quit => Command::Quit,
        }
    }
}

/// The command that an `:lsp` subcommand stands for.
pub open spec fn lsp_alias(sub: Seq<char>) -> Option<Seq<char>> {
    if sub == "hover"@ {
        Some("hover"@)
    } else if sub == "definition"@ {
        Some("definition"@)
    } else if sub == "rename"@ {
        Some("rename"@)
    } else if sub == "actions"@ {
        Some("actions"@)
    } else if sub == "refactor"@ {
        Some("refactor"@)
    } else if sub == "back"@ {
        Some("lsp-back"@)
    } else if sub == "status"@ {
        Some("lsp-status"@)
    } else if sub == "stop"@ {
        Some("lsp-stop"@)
    } else if sub == "start"@ {
        Some("lsp-start"@)
    } else if sub == "restart"@ {
        Some("lsp-restart"@)
    } else if sub == "install"@ {
        Some("lsp-install"@)
    } else if sub == "doctor"@ {
        Some("lsp-doctor"@)
    } else {
        None
    }
}

/// Rewrites `lsp <subcommand> ...` into the subcommand's own command word.
pub open spec fn resolve_lsp(words: Seq<WordV>) -> Result<Seq<WordV>, Seq<char>> {
    if words.len() > 0 && words[0].text == "lsp"@ {
        if words.len() < 2 {
            Err("Choose an LSP command: install, doctor, start, restart, hover, definition, rename, actions, refactor, back, status or stop"@)
        } else {
            match lsp_alias(words[1].text) {
                None => Err("Unknown LSP command. Choose install, doctor, start, restart, hover, definition, rename, actions, refactor, back, status or stop"@),
                Some(alias) => Ok(seq![WordV { text: alias, quoted: words[0].quoted }] + words.skip(2)),
            }
        }
    } else {
        Ok(words)
    }
}

/// Options and plain arguments collected from the words after the command.
pub struct Opts {
    pub args: Seq<Seq<char>>,
    pub mode: SearchMode,
    pub backward: bool,
    pub all: bool,
    pub search_used: bool,
    pub goto: GotoMode,
}

pub open spec fn opts_init() -> Opts {
    Opts {
        args: seq![],
        mode: SearchMode::CaseSensitive,
        backward: false,
        all: false,
        search_used: false,
        goto: GotoMode::Automatic,
    }
}

pub open spec fn starts_with_dashes(s: Seq<char>) -> bool {
    s.len() >= 2 && s[0] == '-' && s[1] == '-'
}

/// Reading one more word: unquoted `--` words are options, the rest arguments.
pub open spec fn option_step(o: Opts, w: WordV) -> Result<Opts, Seq<char>> {
    let t = w.text;
    if !w.quoted && t == "--case-sensitive"@ {
        Ok(Opts { mode: SearchMode::CaseSensitive, search_used: true, ..o })
    } else if !w.quoted && t == "--ignore-case"@ {
        Ok(Opts { mode: SearchMode::CaseInsensitive, search_used: true, ..o })
    } else if !w.quoted && t == "--regex"@ {
        Ok(Opts { mode: SearchMode::Regex, search_used: true, ..o })
    } else if !w.quoted && t == "--backward"@ {
        Ok(Opts { backward: true, ..o })
    } else if !w.quoted && t == "--all"@ {
        Ok(Opts { all: true, ..o })
    } else if !w.quoted && t == "--abs"@ {
        if o.goto == GotoMode::Relative {
            Err("--abs and --rel cannot be used together"@)
        } else {
            Ok(Opts { goto: GotoMode::Absolute, ..o })
        }
    } else if !w.quoted && t == "--rel"@ {
        if o.goto == GotoMode::Absolute {
            Err("--abs and --rel cannot be used together"@)
        } else {
            Ok(Opts { goto: GotoMode::Relative, ..o })
        }
    } else if !w.quoted && starts_with_dashes(t) {
        Err("Unknown option: "@ + t)
    } else {
        Ok(Opts { args: o.args.push(t), ..o })
    }
}

/// Reading the words after the command, left to right; the first problem wins.
pub open spec fn scan_options(ws: Seq<WordV>) -> Result<Opts, Seq<char>>
    decreases ws.len(),
{
    if ws.len() == 0 {
        Ok(opts_init())
    } else {
        match scan_options(ws.drop_last()) {
            Err(e) => Err(e),
            Ok(o) => option_step(o, ws.last()),
        }
    }
}

/// Arguments joined by single spaces.
pub open spec fn join_args(args: Seq<Seq<char>>) -> Seq<char>
    decreases args.len(),
{
    if args.len() == 0 {
        seq![]
    } else if args.len() == 1 {
        args[0]
    } else {
        join_args(args.drop_last()) + seq![' '] + args.last()
    }
}

pub open spec fn first_arg(args: Seq<Seq<char>>) -> Option<Seq<char>> {
    if args.len() > 0 {
        Some(args[0])
    } else {
        None
    }
}

pub open spec fn reject_search(o: Opts) -> bool {
    o.search_used || o.backward || o.all
}

pub open spec fn no_search_options() -> Seq<char> {
    "This command does not accept search options"@
}

/// The name under which a command is shown in messages.
pub open spec fn display_name(command: Seq<char>) -> Seq<char> {
    if command == "hover"@ {
        "lsp hover"@
    } else if command == "definition"@ {
        "lsp definition"@
    } else if command == "lsp-back"@ {
        "lsp back"@
    } else if command == "lsp-status"@ {
        "lsp status"@
    } else if command == "lsp-stop"@ {
        "lsp stop"@
    } else if command == "lsp-start"@ {
        "lsp start"@
    } else if command == "lsp-restart"@ {
        "lsp restart"@
    } else {
        command
    }
}

/// Commands that take neither search options nor arguments.
pub open spec fn check_no_arguments(command: Seq<char>, o: Opts) -> Result<(), Seq<char>> {
    if reject_search(o) {
        Err(no_search_options())
    } else if o.args.len() != 0 {
        Err(":"@ + display_name(command) + " does not accept arguments"@)
    } else {
        Ok(())
    }
}

/// Index of the first `:` in `s`, if any.
pub open spec fn first_colon(s: Seq<char>) -> Option<int>
    decreases s.len(),
{
    if s.len() == 0 {
        None
    } else if s[0] == ':' {
        Some(0)
    } else {
        match first_colon(s.drop_first()) {
            Some(i) => Some(i + 1),
            None => None,
        }
    }
}

/// A `:goto` argument `line[:column]`.
pub open spec fn parse_goto(arg: Seq<char>, o: Opts) -> Result<Command, Seq<char>> {
    let (line_text, after) = match first_colon(arg) {
        Some(i) => (arg.take(i), Some(arg.skip(i + 1))),
        None => (arg, None),
    };
    let mode = if o.goto == GotoMode::Automatic && line_text.len() > 0 && (line_text[0] == '+'
        || line_text[0] == '-') {
        GotoMode::Relative
    } else {
        o.goto
    };
    match spec_parse_isize(line_text) {
        None => Err("Invalid line: "@ + line_text),
        Some(line) => {
            let (column_text, more) = match after {
                None => (None, false),
                Some(rest) => match first_colon(rest) {
                    Some(j) => (Some(rest.take(j)), true),
                    None => (Some(rest), false),
                },
            };
            let column = match column_text {
                None => Ok(None),
                Some(c) => match spec_parse_unsigned(c, usize::MAX as nat) {
                    None => Err("Invalid column: "@ + c),
                    Some(v) => if v == 0 {
                        Err("column numbers start at 1"@)
                    } else {
                        Ok(Some(v as usize))
                    },
                },
            };
            match column {
                Err(e) => Err(e),
                Ok(column) => if more {
                    Err("Usage: :goto line[:column] [--abs|--rel]"@)
                } else {
                    Ok(Command::Goto { line: line as isize, column, mode })
                },
            }
        },
    }
}

/// A `:set` command.
pub open spec fn parse_set(o: Opts) -> Result<Command, Seq<char>> {
    let usage = "Usage: :set font-size points | :set line-numbers type | :set keybindings mode"@;
    if o.args.len() != 2 {
        Err(usage)
    } else if o.args[0] == "font-size"@ {
        match spec_parse_unsigned(o.args[1], u16::MAX as nat) {
            None => Err("Font size must be a whole number"@),
            Some(p) => if MIN_FONT_SIZE <= p <= MAX_FONT_SIZE {
                Ok(Command::SetFontSize { points: p as u16 })
            } else {
                Err("Font size must be between 8 and 72"@)
            },
        }
    } else if o.args[0] == "line-numbers"@ {
        if o.args[1] == "normal"@ {
            Ok(Command::SetLineNumbers { mode: LineNumberMode::Normal })
        } else if o.args[1] == "relative"@ {
            Ok(Command::SetLineNumbers { mode: LineNumberMode::Relative })
        } else if o.args[1] == "dynamic"@ {
            Ok(Command::SetLineNumbers { mode: LineNumberMode::Dynamic })
        } else {
            Err("Line number type must be normal, relative, or dynamic"@)
        }
    } else if o.args[0] == "keybindings"@ {
        if o.args[1] == "conventional"@ {
            Ok(Command::SetKeybindings { mode: KeybindingMode::Conventional })
        } else if o.args[1] == "vim"@ {
            Ok(Command::SetKeybindings { mode: KeybindingMode::Vim })
        } else {
            Err("Keybinding mode must be conventional or vim"@)
        }
    } else {
        Err(usage)
    }
}

/// Whether `name` is acceptable as a new symbol name.
pub open spec fn valid_rename(name: Seq<char>) -> bool {
    &&& name.len() > 0
    &&& byte_len(name) <= 256
    &&& forall|i: int| 0 <= i < name.len() ==> !is_white_space(#[trigger] name[i])
        && !is_control_char(name[i])
}

pub open spec fn is_save_as(command: Seq<char>) -> bool {
    command == "save-as"@ || command == "saveas"@ || command == "sav"@ || command == "savea"@
        || command == "save-as!"@ || command == "saveas!"@ || command == "sav!"@
        || command == "savea!"@
}

pub open spec fn is_lsp_plain(command: Seq<char>) -> bool {
    command == "hover"@ || command == "definition"@ || command == "lsp-back"@
        || command == "lsp-status"@ || command == "lsp-start"@ || command == "lsp-restart"@
        || command == "lsp-stop"@
}

pub open spec fn lsp_plain_command(command: Seq<char>) -> Command {
    if command == "hover"@ {
        Command::Hover
    } else if command == "definition"@ {
        Command::Definition
    } else if command == "lsp-back"@ {
        Command::LspBack
    } else if command == "lsp-status"@ {
        Command::LspStatus
    } else if command == "lsp-start"@ {
        Command::LspStart
    } else if command == "lsp-restart"@ {
        Command::LspRestart
    } else {
        Command::LspStop
    }
}

/// An argument list of at most one non-empty argument.
pub open spec fn at_most_one_nonempty(args: Seq<Seq<char>>) -> bool {
    args.len() <= 1 && (args.len() == 1 ==> args[0].len() > 0)
}

/// What `command` means with options `o`.
pub open spec fn dispatch(command: Seq<char>, o: Opts) -> Result<Command, Seq<char>> {
    if command == "find"@ {
        if o.all {
            Err("--all is only available for replace"@)
        } else if join_args(o.args).len() == 0 {
            Err("Usage: :find text [options]"@)
        } else {
            Ok(Command::Find { query: join_args(o.args), mode: o.mode, backward: o.backward })
        }
    } else if command == "replace"@ {
        if o.backward {
            Err("--backward is only available for find"@)
        } else if o.args.len() < 2 {
            Err("Usage: :replace old new [options]"@)
        } else {
            Ok(Command::Replace {
                query: o.args[0],
                replacement: join_args(o.args.drop_first()),
                mode: o.mode,
                all: o.all,
            })
        }
    } else if command == "goto"@ {
        if reject_search(o) {
            Err(no_search_options())
        } else if o.args.len() != 1 {
            Err("Usage: :goto line[:column] [--abs|--rel]"@)
        } else {
            parse_goto(o.args[0], o)
        }
    } else if command == "new"@ {
        if reject_search(o) {
            Err(no_search_options())
        } else if !at_most_one_nonempty(o.args) {
            Err("Usage: :new [path] (quote paths containing spaces)"@)
        } else {
            Ok(Command::New { path: first_arg(o.args) })
        }
    } else if command == "open"@ {
        if reject_search(o) {
            Err(no_search_options())
        } else if join_args(o.args).len() == 0 {
            Err("Usage: :open path"@)
        } else {
            Ok(Command::Open { path: join_args(o.args) })
        }
    } else if command == "set"@ {
        if reject_search(o) {
            Err(no_search_options())
        } else {
            parse_set(o)
        }
    } else if command == "term"@ {
        match check_no_arguments(command, o) {
            Err(e) => Err(e),
            Ok(_) => Ok(Command::Term),
        }
    } else if command == "split"@ {
        match check_no_arguments(command, o) {
            Err(e) => Err(e),
            Ok(_) => Ok(Command::Split),
        }
    } else if command == "actions"@ || command == "refactor"@ {
        if reject_search(o) {
            Err(no_search_options())
        } else if o.args.len() != 0 {
            Err("Usage: :lsp actions or :lsp refactor"@)
        } else {
            Ok(Command::Actions { refactor_only: command == "refactor"@ })
        }
    } else if command == "rename"@ {
        if reject_search(o) {
            Err(no_search_options())
        } else if o.args.len() != 1 || !valid_rename(o.args[0]) {
            Err("Usage: :lsp rename new_name"@)
        } else {
            Ok(Command::Rename { name: o.args[0] })
        }
    } else if command == "recover"@ {
        if reject_search(o) {
            Err(no_search_options())
        } else if o.args.len() > 1 {
            Err("Usage: :recover [number]"@)
        } else if o.args.len() == 0 {
            Ok(Command::Recover { number: None })
        } else {
            match spec_parse_unsigned(o.args[0], usize::MAX as nat) {
                Some(n) => if n > 0 {
                    Ok(Command::Recover { number: Some(n as usize) })
                } else {
                    Err("Choose a positive recovery number from :recover"@)
                },
                None => Err("Choose a positive recovery number from :recover"@),
            }
        }
    } else if command == "lsp-install"@ || command == "lsp-doctor"@ {
        if reject_search(o) {
            Err(no_search_options())
        } else if !at_most_one_nonempty(o.args) || (command == "lsp-install"@ && o.args.len()
            == 0) {
            Err("Usage: :lsp install <server> or :lsp doctor [server]"@)
        } else if command == "lsp-install"@ {
            Ok(Command::LspInstall { server: o.args[0] })
        } else {
            Ok(Command::LspDoctor { server: first_arg(o.args) })
        }
    } else if command == "format"@ {
        if reject_search(o) {
            Err(no_search_options())
        } else if !at_most_one_nonempty(o.args) {
            Err("Usage: :format [provider]"@)
        } else {
            Ok(Command::Format { provider: first_arg(o.args) })
        }
    } else if is_lsp_plain(command) {
        match check_no_arguments(command, o) {
            Err(e) => Err(e),
            Ok(_) => Ok(lsp_plain_command(command)),
        }
    } else if command == "formatters"@ {
        match check_no_arguments(command, o) {
            Err(e) => Err(e),
            Ok(_) => Ok(Command::Formatters),
        }
    } else if command == "extract-config"@ {
        match check_no_arguments(command, o) {
            Err(e) => Err(e),
            Ok(_) => Ok(Command::ExtractConfig),
        }
    } else if is_save_as(command) {
        if reject_search(o) {
            Err(no_search_options())
        } else if !at_most_one_nonempty(o.args) {
            Err("Usage: :save-as[!] path (quote paths containing spaces)"@)
        } else {
            Ok(Command::SaveAs { path: first_arg(o.args), overwrite: command.len() > 0 && command.last() == '!' })
        }
    } else if command == "save"@ || command == "w"@ || command == "write"@ {
        match check_no_arguments(command, o) {
            Err(e) => Err(e),
            Ok(_) => Ok(Command::Save),
        }
    } else if command == "quit"@ {
        match check_no_arguments(command, o) {
            Err(e) => Err(e),
            Ok(_) => Ok(Command::Quit),
        }
    } else {
        Err("Unknown command: "@ + command)
    }
}

/// What a list of words means.
pub open spec fn parse_words(words: Seq<WordV>) -> Result<Command, Seq<char>> {
    match resolve_lsp(words) {
        Err(e) => Err(e),
        Ok(ws) => if ws.len() == 0 {
            Err("Type a command or choose one below"@)
        } else {
            match scan_options(ws.drop_first()) {
                Err(e) => Err(e),
                Ok(o) => if ws[0].text != "goto"@ && o.goto != GotoMode::Automatic {
                    Err("--abs and --rel are only available for goto"@)
                } else {
                    dispatch(ws[0].text, o)
                },
            }
        },
    }
}

/// What a command line means: its command, or the message explaining why
/// it is not one.
pub open spec fn spec_parse_command(input: Seq<char>) -> Result<Command, Seq<char>> {
    match spec_tokenize(input) {
        Err(_) => Err("Close the quoted argument"@),
        Ok(words) => parse_words(words),
    }
}


fn msg(s: &str) -> (r: Vec<char>)
    ensures
        r@ == s@,
{
    chars_of(s)
}

/// `a` followed by the characters of `b`.
fn msg_with(a: &str, b: &[char]) -> (r: Vec<char>)
    ensures
        r@ == a@ + b@,
{
    let mut r = chars_of(a);
    extend_chars(&mut r, b);
    r
}

fn lsp_alias_exec(sub: &[char]) -> (r: Option<&'static str>)
    ensures
        match r {
            Some(a) => lsp_alias(sub@) == Some(a@),
            None => lsp_alias(sub@) is None,
        },
{
    if eq_str(sub, "hover") {
        Some("hover")
    } else if eq_str(sub, "definition") {
        Some("definition")
    } else if eq_str(sub, "rename") {
        Some("rename")
    } else if eq_str(sub, "actions") {
        Some("actions")
    } else if eq_str(sub, "refactor") {
        Some("refactor")
    } else if eq_str(sub, "back") {
        Some("lsp-back")
    } else if eq_str(sub, "status") {
        Some("lsp-status")
    } else if eq_str(sub, "stop") {
        Some("lsp-stop")
    } else if eq_str(sub, "start") {
        Some("lsp-start")
    } else if eq_str(sub, "restart") {
        Some("lsp-restart")
    } else if eq_str(sub, "install") {
        Some("lsp-install")
    } else if eq_str(sub, "doctor") {
        Some("lsp-doctor")
    } else {
        None
    }
}

fn resolve_lsp_exec(words: Vec<CommandWord>) -> (r: Result<Vec<CommandWord>, Vec<char>>)
    ensures
        match resolve_lsp(words_view(words@)) {
            Ok(ws) => r is Ok && words_view(r->Ok_0@) == ws,
            Err(e) => r is Err && r->Err_0@ == e,
        },
{
    let mut words = words;
    let ghost old_view = words_view(words@);
    if words.len() > 0 && eq_str(words[0].text.as_slice(), "lsp") {
        if words.len() < 2 {
            return Err(msg("Choose an LSP command: install, doctor, start, restart, hover, definition, rename, actions, refactor, back, status or stop"));
        }
        match lsp_alias_exec(words[1].text.as_slice()) {
            None => {
                return Err(msg("Unknown LSP command. Choose install, doctor, start, restart, hover, definition, rename, actions, refactor, back, status or stop"));
            },
            Some(alias) => {
                let quoted = words[0].quoted;
                words.remove(1);
                words.set(0, CommandWord { text: chars_of(alias), quoted: quoted });
                assert(words_view(words@) =~= seq![WordV { text: alias@, quoted: old_view[0].quoted }]
                    + old_view.skip(2));
                return Ok(words);
            },
        }
    }
    Ok(words)
}

/// Options and arguments read so far.
struct Scan {
    args: Vec<Vec<char>>,
    mode: SearchMode,
    backward: bool,
    all: bool,
    search_used: bool,
    goto: GotoMode,
}

pub open spec fn args_view(a: Seq<Vec<char>>) -> Seq<Seq<char>> {
    a.map_values(|v: Vec<char>| v@)
}

impl View for Scan {
    type V = Opts;

    closed spec fn view(&self) -> Opts {
        Opts {
            args: args_view(self.args@),
            mode: self.mode,
            backward: self.backward,
            all: self.all,
            search_used: self.search_used,
            goto: self.goto,
        }
    }
}

fn copy_chars(v: &[char]) -> (r: Vec<char>)
    ensures
        r@ == v@,
{
    slice_vec(v, 0, v.len())
}

fn step_exec(o: &mut Scan, w: &CommandWord) -> (r: Result<(), Vec<char>>)
    ensures
        match option_step(old(o)@, w@) {
            Ok(n) => r is Ok && final(o)@ == n,
            Err(e) => r is Err && r->Err_0@ == e,
        },
{
    let t = w.text.as_slice();
    if !w.quoted && eq_str(t, "--case-sensitive") {
        o.mode = SearchMode::CaseSensitive;
        o.search_used = true;
    } else if !w.quoted && eq_str(t, "--ignore-case") {
        o.mode = SearchMode::CaseInsensitive;
        o.search_used = true;
    } else if !w.quoted && eq_str(t, "--regex") {
        o.mode = SearchMode::Regex;
        o.search_used = true;
    } else if !w.quoted && eq_str(t, "--backward") {
        o.backward = true;
    } else if !w.quoted && eq_str(t, "--all") {
        o.all = true;
    } else if !w.quoted && eq_str(t, "--abs") {
        if o.goto == GotoMode::Relative {
            return Err(msg("--abs and --rel cannot be used together"));
        }
        o.goto = GotoMode::Absolute;
    } else if !w.quoted && eq_str(t, "--rel") {
        if o.goto == GotoMode::Absolute {
            return Err(msg("--abs and --rel cannot be used together"));
        }
        o.goto = GotoMode::Relative;
    } else if !w.quoted && t.len() >= 2 && t[0] == '-' && t[1] == '-' {
        return Err(msg_with("Unknown option: ", t));
    } else {
        let ghost before = args_view(o.args@);
        o.args.push(copy_chars(t));
        assert(args_view(o.args@) =~= before.push(t@));
    }
    Ok(())
}

/// Once reading the options has failed, reading more words keeps the first error.
proof fn lemma_scan_error_sticks(ws: Seq<WordV>, k: int)
    requires
        0 <= k <= ws.len(),
        scan_options(ws.take(k)) is Err,
    ensures
        scan_options(ws) == scan_options(ws.take(k)),
    decreases ws.len() - k,
{
    if k < ws.len() {
        assert(ws.take(k + 1).drop_last() =~= ws.take(k));
        lemma_scan_error_sticks(ws, k + 1);
    } else {
        assert(ws.take(k) =~= ws);
    }
}

fn scan_exec(words: &Vec<CommandWord>) -> (r: Result<Scan, Vec<char>>)
    requires
        words.len() > 0,
    ensures
        match scan_options(words_view(words@).drop_first()) {
            Ok(o) => r is Ok && r->Ok_0@ == o,
            Err(e) => r is Err && r->Err_0@ == e,
        },
{
    let ghost ws = words_view(words@).drop_first();
    let mut o = Scan {
        args: Vec::new(),
        mode: SearchMode::CaseSensitive,
        backward: false,
        all: false,
        search_used: false,
        goto: GotoMode::Automatic,
    };
    assert(args_view(o.args@) =~= Seq::<Seq<char>>::empty());
    assert(ws.take(0) =~= Seq::<WordV>::empty());
    let mut i: usize = 1;
    while i < words.len()
        invariant
            1 <= i <= words.len(),
            ws == words_view(words@).drop_first(),
            scan_options(ws.take(i - 1)) == Ok::<Opts, Seq<char>>(o@),
        decreases words.len() - i,
    {
        assert(ws.take(i as int).drop_last() =~= ws.take(i - 1));
        assert(ws.take(i as int).last() == words[i as int]@);
        let step = step_exec(&mut o, &words[i]);
        if step.is_err() {
            proof {
                lemma_scan_error_sticks(ws, i as int);
            }
            return match step {
                Err(e) => Err(e),
                Ok(_) => Err(Vec::new()),
            };
        }
        i = i + 1;
    }
    assert(ws.take(i - 1) =~= ws);
    Ok(o)
}

fn join_exec(args: &Vec<Vec<char>>, from: usize) -> (r: Vec<char>)
    requires
        from <= args.len(),
    ensures
        r@ == join_args(args_view(args@).skip(from as int)),
{
    let ghost a = args_view(args@).skip(from as int);
    let mut r: Vec<char> = Vec::new();
    let mut i = from;
    assert(a.take(0) =~= Seq::<Seq<char>>::empty());
    while i < args.len()
        invariant
            from <= i <= args.len(),
            a == args_view(args@).skip(from as int),
            r@ == join_args(a.take(i - from)),
        decreases args.len() - i,
    {
        assert(a.take(i - from + 1).drop_last() =~= a.take(i - from));
        assert(a.take(i - from + 1).last() == args@[i as int]@);
        if i > from {
            r.push(' ');
        } else {
            assert(a.take(1) =~= seq![a[0]]);
        }
        extend_chars(&mut r, args[i].as_slice());
        i = i + 1;
    }
    assert(a.take(i - from) =~= a);
    r
}

fn first_colon_exec(s: &[char], from: usize) -> (r: Option<usize>)
    requires
        from <= s.len(),
    ensures
        match first_colon(s@.skip(from as int)) {
            Some(i) => 0 <= i && from + i < s.len() && r == Some((from + i) as usize),
            None => r is None,
        },
        r matches Some(k) ==> from <= k < s.len() && s@[k as int] == ':',
{
    let ghost t = s@.skip(from as int);
    let mut i = from;
    assert(t.skip(0) =~= t);
    while i < s.len()
        invariant
            from <= i <= s.len(),
            t == s@.skip(from as int),
            first_colon(t) == match first_colon(t.skip(i - from)) {
                Some(j) => Some(j + (i - from)),
                None => None::<int>,
            },
        decreases s.len() - i,
    {
        let ghost k = (i - from) as int;
        assert(t.skip(k)[0] == s[i as int]);
        if s[i] == ':' {
            return Some(i);
        }
        assert(t.skip(k).drop_first() =~= t.skip(k + 1));
        i = i + 1;
    }
    assert(t.skip(i - from) =~= Seq::<char>::empty());
    None
}

/// The column part of a `:goto` argument: the text after its first `:`.
fn parse_goto_column(rest: &[char]) -> (r: Result<Option<usize>, Vec<char>>)
    ensures
        ({
            let (column_text, more) = match first_colon(rest@) {
                Some(j) => (rest@.take(j), true),
                None => (rest@, false),
            };
            match spec_parse_unsigned(column_text, usize::MAX as nat) {
                None => r is Err && r->Err_0@ == "Invalid column: "@ + column_text,
                Some(v) => if v == 0 {
                    r is Err && r->Err_0@ == "column numbers start at 1"@
                } else if more {
                    r is Err && r->Err_0@ == "Usage: :goto line[:column] [--abs|--rel]"@
                } else {
                    r == Ok::<Option<usize>, Vec<char>>(Some(v as usize))
                },
            }
        }),
{
    assert(rest@.skip(0) =~= rest@);
    let second = first_colon_exec(rest, 0);
    assert(first_colon(rest@.skip(0)) == first_colon(rest@));
    let mut more = false;
    let column_end = match second {
        Some(j) => {
            more = true;
            j
        },
        None => rest.len(),
    };
    let column_text = slice_vec(rest, 0, column_end);
    proof {
        match first_colon(rest@) {
            Some(j) => assert(column_text@ =~= rest@.take(j)),
            None => assert(column_text@ =~= rest@),
        }
    }
    match parse_unsigned(column_text.as_slice(), usize::MAX as u64) {
        None => Err(msg_with("Invalid column: ", column_text.as_slice())),
        Some(v) => {
            if v == 0 {
                Err(msg("column numbers start at 1"))
            } else if more {
                Err(msg("Usage: :goto line[:column] [--abs|--rel]"))
            } else {
                Ok(Some(v as usize))
            }
        },
    }
}

fn parse_goto_exec(arg: &[char], o: &Scan) -> (r: Result<ParsedCommand, Vec<char>>)
    ensures
        match parse_goto(arg@, o@) {
            Ok(c) => r is Ok && r->Ok_0@ == c,
            Err(e) => r is Err && r->Err_0@ == e,
        },
{
    assert(arg@.skip(0) =~= arg@);
    let colon = first_colon_exec(arg, 0);
    assert(first_colon(arg@.skip(0)) == first_colon(arg@));
    let line_end = match colon {
        Some(i) => i,
        None => arg.len(),
    };
    let line_text = slice_vec(arg, 0, line_end);
    proof {
        match first_colon(arg@) {
            Some(i) => assert(line_text@ =~= arg@.take(i)),
            None => assert(line_text@ =~= arg@),
        }
    }
    let mode = if o.goto == GotoMode::Automatic && line_text.len() > 0 && (line_text[0] == '+'
        || line_text[0] == '-') {
        GotoMode::Relative
    } else {
        o.goto
    };
    let line = match parse_isize(line_text.as_slice()) {
        None => {
            return Err(msg_with("Invalid line: ", line_text.as_slice()));
        },
        Some(line) => line,
    };
    match colon {
        None => Ok(ParsedCommand::Goto { line, column: None, mode }),
        Some(i) => {
            let rest = slice_vec(arg, i + 1, arg.len());
            assert(rest@ =~= arg@.skip(i + 1));
            match parse_goto_column(rest.as_slice()) {
                Err(e) => Err(e),
                Ok(column) => Ok(ParsedCommand::Goto { line, column, mode }),
            }
        },
    }
}

fn parse_set_exec(o: &Scan) -> (r: Result<ParsedCommand, Vec<char>>)
    ensures
        match parse_set(o@) {
            Ok(c) => r is Ok && r->Ok_0@ == c,
            Err(e) => r is Err && r->Err_0@ == e,
        },
{
    let usage = "Usage: :set font-size points | :set line-numbers type | :set keybindings mode";
    if o.args.len() != 2 {
        return Err(msg(usage));
    }
    let name = o.args[0].as_slice();
    let value = o.args[1].as_slice();
    if eq_str(name, "font-size") {
        match parse_unsigned(value, u16::MAX as u64) {
            None => Err(msg("Font size must be a whole number")),
            Some(p) => {
                if MIN_FONT_SIZE as u64 <= p && p <= MAX_FONT_SIZE as u64 {
                    Ok(ParsedCommand::SetFontSize { points: p as u16 })
                } else {
                    Err(msg("Font size must be between 8 and 72"))
                }
            },
        }
    } else if eq_str(name, "line-numbers") {
        if eq_str(value, "normal") {
            Ok(ParsedCommand::SetLineNumbers { mode: LineNumberMode::Normal })
        } else if eq_str(value, "relative") {
            Ok(ParsedCommand::SetLineNumbers { mode: LineNumberMode::Relative })
        } else if eq_str(value, "dynamic") {
            Ok(ParsedCommand::SetLineNumbers { mode: LineNumberMode::Dynamic })
        } else {
            Err(msg("Line number type must be normal, relative, or dynamic"))
        }
    } else if eq_str(name, "keybindings") {
        if eq_str(value, "conventional") {
            Ok(ParsedCommand::SetKeybindings { mode: KeybindingMode::Conventional })
        } else if eq_str(value, "vim") {
            Ok(ParsedCommand::SetKeybindings { mode: KeybindingMode::Vim })
        } else {
            Err(msg("Keybinding mode must be conventional or vim"))
        }
    } else {
        Err(msg(usage))
    }
}


fn display_name_exec(command: &[char]) -> (r: Vec<char>)
    ensures
        r@ == display_name(command@),
{
    if eq_str(command, "hover") {
        msg("lsp hover")
    } else if eq_str(command, "definition") {
        msg("lsp definition")
    } else if eq_str(command, "lsp-back") {
        msg("lsp back")
    } else if eq_str(command, "lsp-status") {
        msg("lsp status")
    } else if eq_str(command, "lsp-stop") {
        msg("lsp stop")
    } else if eq_str(command, "lsp-start") {
        msg("lsp start")
    } else if eq_str(command, "lsp-restart") {
        msg("lsp restart")
    } else {
        copy_chars(command)
    }
}

fn check_no_arguments_exec(command: &[char], o: &Scan) -> (r: Result<(), Vec<char>>)
    ensures
        match check_no_arguments(command@, o@) {
            Ok(_) => r is Ok,
            Err(e) => r is Err && r->Err_0@ == e,
        },
{
    if o.search_used || o.backward || o.all {
        return Err(msg("This command does not accept search options"));
    }
    if o.args.len() != 0 {
        let mut m = msg(":");
        let name = display_name_exec(command);
        extend_chars(&mut m, name.as_slice());
        crate::text::push_str(&mut m, " does not accept arguments");
        return Err(m);
    }
    Ok(())
}

fn no_search_options_exec() -> (r: Vec<char>)
    ensures
        r@ == no_search_options(),
{
    msg("This command does not accept search options")
}

fn valid_rename_exec(name: &[char]) -> (r: bool)
    ensures
        r == valid_rename(name@),
{
    if name.len() == 0 {
        return false;
    }
    let mut total: usize = 0;
    let mut i: usize = 0;
    while i < name.len()
        invariant
            0 <= i <= name.len(),
            total == byte_len(name@.take(i as int)),
            total <= 256,
            forall|j: int| 0 <= j < i ==> !is_white_space(#[trigger] name@[j])
                && !is_control_char(name@[j]),
        decreases name.len() - i,
    {
        let c = name[i];
        if is_whitespace(c) || is_control(c) {
            return false;
        }
        assert(name@.take(i + 1).drop_last() =~= name@.take(i as int));
        let w = char_width(c);
        if total + w > 256 {
            proof {
                crate::text::lemma_byte_len_prefix(name@, i + 1);
            }
            return false;
        }
        total = total + w;
        i = i + 1;
    }
    assert(name@.take(i as int) =~= name@);
    true
}

fn first_arg_exec(o: &Scan) -> (r: Option<String>)
    ensures
        opt_view(r) == first_arg(o@.args),
{
    if o.args.len() > 0 {
        Some(string_of(o.args[0].as_slice()))
    } else {
        None
    }
}

fn at_most_one_nonempty_exec(o: &Scan) -> (r: bool)
    ensures
        r == at_most_one_nonempty(o@.args),
{
    o.args.len() == 0 || (o.args.len() == 1 && o.args[0].len() > 0)
}

/// `dispatch` for the editing and navigation commands.
fn dispatch_edit(command: &[char], o: &Scan) -> (r: Option<Result<ParsedCommand, Vec<char>>>)
    ensures
        match r {
            None => command@ != "find"@ && command@ != "replace"@ && command@ != "goto"@
                && command@ != "new"@ && command@ != "open"@ && command@ != "set"@
                && command@ != "term"@ && command@ != "split"@,
            Some(r) => match dispatch(command@, o@) {
                Ok(c) => r is Ok && r->Ok_0@ == c,
                Err(e) => r is Err && r->Err_0@ == e,
            },
        },
{
    if eq_str(command, "find") {
        if o.all {
            return Some(Err(msg("--all is only available for replace")));
        }
        let query = join_exec(&o.args, 0);
        assert(args_view(o.args@).skip(0) =~= args_view(o.args@));
        if query.len() == 0 {
            return Some(Err(msg("Usage: :find text [options]")));
        }
        Some(Ok(ParsedCommand::Find { query: string_of(query.as_slice()), mode: o.mode, backward: o.backward }))
    } else if eq_str(command, "replace") {
        if o.backward {
            return Some(Err(msg("--backward is only available for find")));
        }
        if o.args.len() < 2 {
            return Some(Err(msg("Usage: :replace old new [options]")));
        }
        let replacement = join_exec(&o.args, 1);
        assert(args_view(o.args@).skip(1) =~= args_view(o.args@).drop_first());
        Some(Ok(ParsedCommand::Replace {
            query: string_of(o.args[0].as_slice()),
            replacement: string_of(replacement.as_slice()),
            mode: o.mode,
            all: o.all,
        }))
    } else if eq_str(command, "goto") {
        if o.search_used || o.backward || o.all {
            return Some(Err(no_search_options_exec()));
        }
        if o.args.len() != 1 {
            return Some(Err(msg("Usage: :goto line[:column] [--abs|--rel]")));
        }
        Some(parse_goto_exec(o.args[0].as_slice(), o))
    } else if eq_str(command, "new") {
        if o.search_used || o.backward || o.all {
            return Some(Err(no_search_options_exec()));
        }
        if !at_most_one_nonempty_exec(o) {
            return Some(Err(msg("Usage: :new [path] (quote paths containing spaces)")));
        }
        Some(Ok(ParsedCommand::New { path: first_arg_exec(o) }))
    } else if eq_str(command, "open") {
        if o.search_used || o.backward || o.all {
            return Some(Err(no_search_options_exec()));
        }
        let path = join_exec(&o.args, 0);
        assert(args_view(o.args@).skip(0) =~= args_view(o.args@));
        if path.len() == 0 {
            return Some(Err(msg("Usage: :open path")));
        }
        Some(Ok(ParsedCommand::Open { path: string_of(path.as_slice()) }))
    } else if eq_str(command, "set") {
        if o.search_used || o.backward || o.all {
            return Some(Err(no_search_options_exec()));
        }
        Some(parse_set_exec(o))
    } else if eq_str(command, "term") {
        match check_no_arguments_exec(command, o) {
            Err(e) => Some(Err(e)),
            Ok(_) => Some(Ok(ParsedCommand::Term)),
        }
    } else if eq_str(command, "split") {
        match check_no_arguments_exec(command, o) {
            Err(e) => Some(Err(e)),
            Ok(_) => Some(Ok(ParsedCommand::Split)),
        }
    } else {
        None
    }
}

fn is_save_as_exec(command: &[char]) -> (r: bool)
    ensures
        r == is_save_as(command@),
{
    eq_str(command, "save-as") || eq_str(command, "saveas") || eq_str(command, "sav")
        || eq_str(command, "savea") || eq_str(command, "save-as!") || eq_str(command, "saveas!")
        || eq_str(command, "sav!") || eq_str(command, "savea!")
}

fn lsp_plain_exec(command: &[char]) -> (r: Option<ParsedCommand>)
    ensures
        r is Some <==> is_lsp_plain(command@),
        r matches Some(c) ==> c@ == lsp_plain_command(command@),
{
    if eq_str(command, "hover") {
        Some(ParsedCommand::Hover)
    } else if eq_str(command, "definition") {
        Some(ParsedCommand::Definition)
    } else if eq_str(command, "lsp-back") {
        Some(ParsedCommand::LspBack)
    } else if eq_str(command, "lsp-status") {
        Some(ParsedCommand::LspStatus)
    } else if eq_str(command, "lsp-start") {
        Some(ParsedCommand::LspStart)
    } else if eq_str(command, "lsp-restart") {
        Some(ParsedCommand::LspRestart)
    } else if eq_str(command, "lsp-stop") {
        Some(ParsedCommand::LspStop)
    } else {
        None
    }
}

/// `dispatch` for language-server, file and session commands.
fn dispatch_other(command: &[char], o: &Scan) -> (r: Result<ParsedCommand, Vec<char>>)
    requires
        command@ != "find"@ && command@ != "replace"@ && command@ != "goto"@
            && command@ != "new"@ && command@ != "open"@ && command@ != "set"@
            && command@ != "term"@ && command@ != "split"@,
    ensures
        match dispatch(command@, o@) {
            Ok(c) => r is Ok && r->Ok_0@ == c,
            Err(e) => r is Err && r->Err_0@ == e,
        },
{
    if eq_str(command, "actions") || eq_str(command, "refactor") {
        if o.search_used || o.backward || o.all {
            return Err(no_search_options_exec());
        }
        if o.args.len() != 0 {
            return Err(msg("Usage: :lsp actions or :lsp refactor"));
        }
        Ok(ParsedCommand::Actions { refactor_only: eq_str(command, "refactor") })
    } else if eq_str(command, "rename") {
        if o.search_used || o.backward || o.all {
            return Err(no_search_options_exec());
        }
        if o.args.len() != 1 || !valid_rename_exec(o.args[0].as_slice()) {
            return Err(msg("Usage: :lsp rename new_name"));
        }
        Ok(ParsedCommand::Rename { name: string_of(o.args[0].as_slice()) })
    } else if eq_str(command, "recover") {
        if o.search_used || o.backward || o.all {
            return Err(no_search_options_exec());
        }
        if o.args.len() > 1 {
            return Err(msg("Usage: :recover [number]"));
        }
        if o.args.len() == 0 {
            return Ok(ParsedCommand::Recover { number: None });
        }
        match parse_unsigned(o.args[0].as_slice(), usize::MAX as u64) {
            Some(n) => {
                if n > 0 {
                    Ok(ParsedCommand::Recover { number: Some(n as usize) })
                } else {
                    Err(msg("Choose a positive recovery number from :recover"))
                }
            },
            None => Err(msg("Choose a positive recovery number from :recover")),
        }
    } else if eq_str(command, "lsp-install") || eq_str(command, "lsp-doctor") {
        if o.search_used || o.backward || o.all {
            return Err(no_search_options_exec());
        }
        let install = eq_str(command, "lsp-install");
        if !at_most_one_nonempty_exec(o) || (install && o.args.len() == 0) {
            return Err(msg("Usage: :lsp install <server> or :lsp doctor [server]"));
        }
        if install {
            Ok(ParsedCommand::LspInstall { server: string_of(o.args[0].as_slice()) })
        } else {
            Ok(ParsedCommand::LspDoctor { server: first_arg_exec(o) })
        }
    } else if eq_str(command, "format") {
        if o.search_used || o.backward || o.all {
            return Err(no_search_options_exec());
        }
        if !at_most_one_nonempty_exec(o) {
            return Err(msg("Usage: :format [provider]"));
        }
        Ok(ParsedCommand::Format { provider: first_arg_exec(o) })
    } else if let Some(plain) = lsp_plain_exec(command) {
        match check_no_arguments_exec(command, o) {
            Err(e) => Err(e),
            Ok(_) => Ok(plain),
        }
    } else if eq_str(command, "formatters") {
        match check_no_arguments_exec(command, o) {
            Err(e) => Err(e),
            Ok(_) => Ok(ParsedCommand::Formatters),
        }
    } else if eq_str(command, "extract-config") {
        match check_no_arguments_exec(command, o) {
            Err(e) => Err(e),
            Ok(_) => Ok(ParsedCommand::ExtractConfig),
        }
    } else if is_save_as_exec(command) {
        if o.search_used || o.backward || o.all {
            return Err(no_search_options_exec());
        }
        if !at_most_one_nonempty_exec(o) {
            return Err(msg("Usage: :save-as[!] path (quote paths containing spaces)"));
        }
        let overwrite = command.len() > 0 && command[command.len() - 1] == '!';
        Ok(ParsedCommand::SaveAs { path: first_arg_exec(o), overwrite })
    } else if eq_str(command, "save") || eq_str(command, "w") || eq_str(command, "write") {
        match check_no_arguments_exec(command, o) {
            Err(e) => Err(e),
            Ok(_) => Ok(ParsedCommand::Save),
        }
    } else if eq_str(command, "quit") {
        match check_no_arguments_exec(command, o) {
            Err(e) => Err(e),
            Ok(_) => Ok(ParsedCommand::Quit),
        }
    } else {
        Err(msg_with("Unknown command: ", command))
    }
}

/// Reads a command line given as characters (see `spec_parse_command`).
pub fn parse_chars(input: &[char]) -> (r: Result<ParsedCommand, Vec<char>>)
    ensures
        match spec_parse_command(input@) {
            Ok(c) => r is Ok && r->Ok_0@ == c,
            Err(e) => r is Err && r->Err_0@ == e,
        },
{
    let words = match tokenize(input) {
        Ok(words) => words,
        Err(_) => {
            return Err(msg("Close the quoted argument"));
        },
    };
    let words = match resolve_lsp_exec(words) {
        Ok(words) => words,
        Err(e) => {
            return Err(e);
        },
    };
    if words.len() == 0 {
        return Err(msg("Type a command or choose one below"));
    }
    let o = match scan_exec(&words) {
        Ok(o) => o,
        Err(e) => {
            return Err(e);
        },
    };
    let command = words[0].text.as_slice();
    if !eq_str(command, "goto") && o.goto != GotoMode::Automatic {
        return Err(msg("--abs and --rel are only available for goto"));
    }
    match dispatch_edit(command, &o) {
        Some(r) => r,
        None => dispatch_other(command, &o),
    }
}

/// Reads a command line (see `spec_parse_command`): the command it names,
/// or a message saying why it names none.
pub fn parse_command(input: &str) -> (r: Result<ParsedCommand, String>)
    ensures
        match spec_parse_command(input@) {
            Ok(c) => r is Ok && r->Ok_0@ == c,
            Err(e) => r is Err && r->Err_0@ == e,
        },
{
    let chars = chars_of(input);
    match parse_chars(chars.as_slice()) {
        Ok(c) => Ok(c),
        Err(e) => Err(string_of(e.as_slice())),
    }
}

/// The commands that take neither arguments nor options.
pub open spec fn takes_no_arguments(name: Seq<char>) -> bool {
    ||| name == "term"@
    ||| name == "split"@
    ||| name == "extract-config"@
    ||| name == "save"@
    ||| name == "w"@
    ||| name == "write"@
    ||| name == "quit"@
    ||| name == "formatters"@
    ||| name == "hover"@
    ||| name == "definition"@
    ||| name == "lsp-back"@
    ||| name == "lsp-status"@
    ||| name == "lsp-start"@
    ||| name == "lsp-restart"@
    ||| name == "lsp-stop"@
}

/// A command that takes no arguments means something exactly when
/// `check_no_arguments` lets its options through.
proof fn lemma_dispatch_no_arguments(name: Seq<char>, o: Opts)
    requires
        takes_no_arguments(name),
    ensures
        dispatch(name, o) is Ok <==> check_no_arguments(name, o) is Ok,
        name != "lsp"@,
        name != "goto"@,
{
    reveal_strlit("find");
    reveal_strlit("replace");
    reveal_strlit("goto");
    reveal_strlit("new");
    reveal_strlit("open");
    reveal_strlit("set");
    reveal_strlit("term");
    reveal_strlit("split");
    reveal_strlit("actions");
    reveal_strlit("refactor");
    reveal_strlit("rename");
    reveal_strlit("recover");
    reveal_strlit("lsp-install");
    reveal_strlit("lsp-doctor");
    reveal_strlit("format");
    reveal_strlit("formatters");
    reveal_strlit("extract-config");
    reveal_strlit("save");
    reveal_strlit("w");
    reveal_strlit("write");
    reveal_strlit("quit");
    reveal_strlit("hover");
    reveal_strlit("definition");
    reveal_strlit("lsp-back");
    reveal_strlit("lsp-status");
    reveal_strlit("lsp-start");
    reveal_strlit("lsp-restart");
    reveal_strlit("lsp-stop");
    reveal_strlit("save-as");
    reveal_strlit("saveas");
    reveal_strlit("sav");
    reveal_strlit("savea");
    reveal_strlit("save-as!");
    reveal_strlit("saveas!");
    reveal_strlit("sav!");
    reveal_strlit("savea!");
    reveal_strlit("lsp");
}

/// A command that takes no arguments is accepted alone and refuses any
/// word after it.
pub proof fn no_argument_commands_refuse_words(name: Seq<char>, x: WordV)
    requires
        takes_no_arguments(name),
    ensures
        parse_words(seq![WordV { text: name, quoted: false }]) is Ok,
        parse_words(seq![WordV { text: name, quoted: false }, x]) is Err,
{
    let one = seq![WordV { text: name, quoted: false }];
    let two = seq![WordV { text: name, quoted: false }, x];
    lemma_dispatch_no_arguments(name, opts_init());
    assert(resolve_lsp(one) == Ok::<Seq<WordV>, Seq<char>>(one));
    assert(one.drop_first() =~= Seq::<WordV>::empty());
    assert(scan_options(one.drop_first()) == Ok::<Opts, Seq<char>>(opts_init()));
    assert(check_no_arguments(name, opts_init()) is Ok);
    assert(resolve_lsp(two) == Ok::<Seq<WordV>, Seq<char>>(two));
    assert(two.drop_first() =~= seq![x]);
    assert(seq![x].drop_last() =~= Seq::<WordV>::empty());
    assert(seq![x].last() == x);
    assert(scan_options(seq![x]) == option_step(opts_init(), x));
    match option_step(opts_init(), x) {
        Err(_) => {},
        Ok(o) => {
            lemma_dispatch_no_arguments(name, o);
        },
    }
}

/// `lsp <subcommand>` followed by any words means what the subcommand's
/// own command word followed by the same words means.
pub proof fn lsp_subcommands_match_aliases(sub: WordV, rest: Seq<WordV>)
    requires
        lsp_alias(sub.text) is Some,
    ensures
        parse_words(seq![WordV { text: "lsp"@, quoted: false }, sub] + rest) == parse_words(
            seq![WordV { text: lsp_alias(sub.text)->0, quoted: false }] + rest,
        ),
{
    let alias = lsp_alias(sub.text)->0;
    let long = seq![WordV { text: "lsp"@, quoted: false }, sub] + rest;
    let short = seq![WordV { text: alias, quoted: false }] + rest;
    assert(long.skip(2) =~= rest);
    assert(long[1] == sub);
    reveal_strlit("find");
    reveal_strlit("replace");
    reveal_strlit("goto");
    reveal_strlit("new");
    reveal_strlit("open");
    reveal_strlit("set");
    reveal_strlit("term");
    reveal_strlit("split");
    reveal_strlit("actions");
    reveal_strlit("refactor");
    reveal_strlit("rename");
    reveal_strlit("recover");
    reveal_strlit("lsp-install");
    reveal_strlit("lsp-doctor");
    reveal_strlit("format");
    reveal_strlit("formatters");
    reveal_strlit("extract-config");
    reveal_strlit("save");
    reveal_strlit("w");
    reveal_strlit("write");
    reveal_strlit("quit");
    reveal_strlit("hover");
    reveal_strlit("definition");
    reveal_strlit("lsp-back");
    reveal_strlit("lsp-status");
    reveal_strlit("lsp-start");
    reveal_strlit("lsp-restart");
    reveal_strlit("lsp-stop");
    reveal_strlit("save-as");
    reveal_strlit("saveas");
    reveal_strlit("sav");
    reveal_strlit("savea");
    reveal_strlit("save-as!");
    reveal_strlit("saveas!");
    reveal_strlit("sav!");
    reveal_strlit("savea!");
    reveal_strlit("lsp");
    reveal_strlit("back");
    reveal_strlit("status");
    reveal_strlit("stop");
    reveal_strlit("start");
    reveal_strlit("restart");
    reveal_strlit("install");
    reveal_strlit("doctor");
    assert(alias != "lsp"@);
    assert(resolve_lsp(long) == Ok::<Seq<WordV>, Seq<char>>(short));
    assert(resolve_lsp(short) == Ok::<Seq<WordV>, Seq<char>>(short));
}

/// Whether an unquoted word `option` is among `ws`.
pub open spec fn has_unquoted(ws: Seq<WordV>, option: Seq<char>) -> bool {
    exists|i: int| 0 <= i < ws.len() && !ws[i].quoted && #[trigger] ws[i].text == option
}

proof fn lemma_scan_backward(ws: Seq<WordV>)
    ensures
        scan_options(ws) matches Ok(o) ==> (o.backward <==> has_unquoted(ws, "--backward"@)),
    decreases ws.len(),
{
    reveal_strlit("--case-sensitive");
    reveal_strlit("--ignore-case");
    reveal_strlit("--regex");
    reveal_strlit("--backward");
    reveal_strlit("--all");
    reveal_strlit("--abs");
    reveal_strlit("--rel");
    reveal_strlit("find");
    reveal_strlit("lsp");
    reveal_strlit("goto");
    if ws.len() > 0 {
        let init = ws.drop_last();
        lemma_scan_backward(init);
        let w = ws.last();
        assert(scan_options(ws) == match scan_options(init) {
            Err(e) => Err(e),
            Ok(o) => option_step(o, w),
        });
        match scan_options(init) {
            Ok(o) => {
                if option_step(o, w) is Ok {
                    if !w.quoted && w.text == "--backward"@ {
                        assert(w.text.len() == 10);
                        assert(option_step(o, w)->Ok_0.backward);
                    } else {
                        assert(option_step(o, w)->Ok_0.backward == o.backward);
                    }
                }
            },
            Err(_) => {},
        }
        assert(has_unquoted(ws, "--backward"@) <==> (has_unquoted(init, "--backward"@) || (!w.quoted && w.text
            == "--backward"@))) by {
            if has_unquoted(init, "--backward"@) {
                let i = choose|i: int| 0 <= i < init.len() && !init[i].quoted && #[trigger] init[i].text == "--backward"@;
                assert(ws[i] == init[i]);
            }
            if !w.quoted && w.text == "--backward"@ {
                assert(ws[ws.len() - 1] == w);
            }
            if has_unquoted(ws, "--backward"@) {
                let i = choose|i: int| 0 <= i < ws.len() && !ws[i].quoted && #[trigger] ws[i].text == "--backward"@;
                if i < ws.len() - 1 {
                    assert(init[i] == ws[i]);
                }
            }
        }
    } else {
        assert(!has_unquoted(ws, "--backward"@));
    }
}

/// `:find` searches backward exactly when an unquoted `--backward` is
/// among the words after it.
pub proof fn find_backward_exactly_when_asked(ws: Seq<WordV>)
    requires
        ws.len() > 0,
        ws[0].text == "find"@,
    ensures
        parse_words(ws) matches Ok(Command::Find { backward, .. }) ==> (backward <==> has_unquoted(
            ws.drop_first(),
            "--backward"@,
        )),
{
    reveal_strlit("--case-sensitive");
    reveal_strlit("--ignore-case");
    reveal_strlit("--regex");
    reveal_strlit("--backward");
    reveal_strlit("--all");
    reveal_strlit("--abs");
    reveal_strlit("--rel");
    reveal_strlit("find");
    reveal_strlit("lsp");
    reveal_strlit("goto");
    lemma_scan_backward(ws.drop_first());
    assert(ws[0].text != "lsp"@) by {
        assert(ws[0].text.len() == 4);
    }
    assert(resolve_lsp(ws) == Ok::<Seq<WordV>, Seq<char>>(ws));
}

} // verus!
