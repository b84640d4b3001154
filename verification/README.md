# Pötyi

The editing core of Pötyi, a lightweight text editor, written in Verus. The
functions in `src/` carry contracts that Verus proves, except the few marked
`#[verifier::external_body]`, which wrap one call into std or the `url` crate
and whose contracts are believed as their documentation states them.

- `src/document.rs`, `src/history.rs`, `src/editor.rs`: the document model,
  cursor and selection, undo and redo, shared views of one document.
- `src/command_bar/`: the command line: parsing, suggestions, options.
- `src/emacs.rs`, `src/emacs/` (keys, and what the window does for them),
  `src/panes.rs`, `src/keybindings.rs`,
  `src/keys.rs`: keyboard schemes and bindings.
- `src/formatting/`: the built-in indenter, formatter configuration, cursor
  mapping after formatting, and the bookkeeping of a formatter process.
- `src/lsp/`: language-server data: positions, document changes, hover text,
  completions, definitions, message framing and server configuration.
- `src/search.rs`, `src/navigation.rs`, `src/line_numbers.rs`,
  `src/clipboard.rs`, `src/recovery_prompt.rs`, `src/config.rs`: the rest of
  the editor's rules.
- `app/`: the window, configuration files, the system clipboard and
  formatter processes, around the library. `--emacs` on the command line
  turns on the Emacs keys.
- `tests/`: tests of the library.
