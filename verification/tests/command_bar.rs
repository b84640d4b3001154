use potyi::lsp::hover::{hover_content, HoverPart};
use potyi::command_bar::bar::{
    COMMAND_BAR_MARGIN, COMMAND_INPUT_HEIGHT, COMMAND_SUGGESTION_HEIGHT, INFO_LINE_HEIGHT,
    INFO_PARAGRAPH_GAP, MAX_VISIBLE_SUGGESTIONS,
};
use potyi::command_bar::parse::parse_command;
use potyi::command_bar::tables::{commands, lsp_commands};
use potyi::command_bar::words::quote_argument;
use potyi::command_bar::{CommandBar, CommandBarHit, GotoMode, ParsedCommand};
use potyi::config::{KeybindingMode, LineNumberMode};
use potyi::lsp_catalog::recipes;
use potyi::search::SearchMode;

#[test]
fn recovery_commands_require_a_positive_session_number() {
    assert_eq!(parse_command(":recover").unwrap(), ParsedCommand::Recover { number: None });
    assert_eq!(parse_command(":recover 2").unwrap(), ParsedCommand::Recover { number: Some(2) });
    for input in [":recover 0", ":recover -1", ":recover abc", ":recover 1 2", ":recover --all"] {
        assert!(parse_command(input).is_err(), "{input}");
    }
    let mut bar = CommandBar::new();
    bar.open(":recov");
    assert!(bar.prepare_execute());
    assert_eq!(bar.parse().unwrap(), ParsedCommand::Recover { number: None });
    bar.open(":recover 2");
    assert!(bar.prepare_execute());
    assert_eq!(bar.parse().unwrap(), ParsedCommand::Recover { number: Some(2) });
}

#[test]
fn new_command_accepts_optional_quoted_path() {
    assert_eq!(parse_command(":new").unwrap(), ParsedCommand::New { path: None });
    assert_eq!(
        parse_command(":new \"é notes.txt\"").unwrap(),
        ParsedCommand::New { path: Some("é notes.txt".into()) }
    );
    for input in [":new a b", ":new \"\"", ":new --all", ":new --rel"] {
        assert!(parse_command(input).is_err(), "{input}");
    }
}

#[test]
fn all_commands_are_reachable_by_arrows_and_clicks_across_pages() {
    let mut bar = CommandBar::new();
    bar.open(":");
    let all = commands();
    for spec in &all {
        assert_eq!(bar.suggestion(bar.selected()).unwrap().label, spec.name);
        assert!(bar.suggestion_count() <= MAX_VISIBLE_SUGGESTIONS);
        let y = 600 - COMMAND_BAR_MARGIN - bar.panel_height()
            + bar.selected() as i32 * COMMAND_SUGGESTION_HEIGHT
            + 1;
        assert_eq!(bar.hit_test(800, 600, 30, y), CommandBarHit::Suggestion(bar.selected()));
        bar.move_selection(1);
    }
    assert_eq!(bar.suggestion(bar.selected()).unwrap().label, all[0].name);
    bar.move_selection(-1);
    assert_eq!(bar.suggestion(bar.selected()).unwrap().label, "lsp");
    assert!(bar.apply_suggestion(bar.selected()));
    assert_eq!(bar.input(), ":lsp ");
    for spec in &lsp_commands() {
        assert_eq!(bar.suggestion(bar.selected()).unwrap().label, spec.name);
        bar.move_selection(1);
    }
    bar.move_selection(-1);
    assert!(bar.apply_suggestion(bar.selected()));
    assert_eq!(bar.parse().unwrap(), ParsedCommand::LspStop);
}

#[test]
fn enter_accepts_highlighted_commands_settings_and_options() {
    let mut bar = CommandBar::new();
    bar.open(":");
    bar.move_selection(-1);
    assert!(!bar.prepare_execute());
    assert_eq!(bar.input(), ":lsp ");
    bar.move_selection(-1);
    assert!(bar.prepare_execute());
    assert_eq!(bar.parse().unwrap(), ParsedCommand::LspStop);
    bar.open(":op");
    assert!(!bar.prepare_execute());
    assert_eq!(bar.input(), ":open ");
    bar.insert_text("notes.txt");
    assert!(bar.prepare_execute());
    assert_eq!(bar.parse().unwrap(), ParsedCommand::Open { path: "notes.txt".into() });
    bar.open(":set ");
    assert!(!bar.prepare_execute());
    assert_eq!(bar.input(), ":set font-size ");
    assert!(bar.prepare_execute());
    assert_eq!(bar.parse().unwrap(), ParsedCommand::SetFontSize { points: 12 });
    bar.open(":find notes ");
    bar.move_selection(1);
    assert!(!bar.prepare_execute());
    assert!(bar.input().contains("--ignore-case"));
    assert!(bar.prepare_execute());
}

#[test]
fn wheel_reaches_lsp_and_editing_resets_the_page() {
    let mut bar = CommandBar::new();
    bar.open(":");
    bar.scroll_suggestions(100);
    assert_eq!(bar.suggestion(bar.selected()).unwrap().label, "lsp");
    assert!(bar.navigation_hint().unwrap().contains(&format!("of {}", commands().len())));
    bar.insert_text("new");
    assert_eq!(bar.suggestion(0).unwrap().label, "new");
    assert_eq!(bar.selected(), 0);
    assert!(bar.prepare_execute());
    assert_eq!(bar.parse().unwrap(), ParsedCommand::New { path: None });
}

#[test]
fn formatter_choices_beyond_first_page_can_run_with_enter() {
    let mut bar = CommandBar::new();
    bar.open(":formatters");
    bar.show_formatters((0..12).map(|i| (format!("formatter{i}"), true)).collect());
    bar.scroll_suggestions(11);
    assert!(bar.prepare_execute());
    assert_eq!(
        bar.parse().unwrap(),
        ParsedCommand::Format { provider: Some("formatter11".into()) }
    );
}

#[test]
fn lsp_commands_are_explicit_and_reject_extra_arguments() {
    for (name, expected) in [
        ("hover", ParsedCommand::Hover),
        ("definition", ParsedCommand::Definition),
        ("lsp-back", ParsedCommand::LspBack),
        ("lsp-status", ParsedCommand::LspStatus),
        ("lsp-stop", ParsedCommand::LspStop),
    ] {
        assert_eq!(parse_command(&format!(":{name}")).unwrap(), expected);
        for extra in ["extra", "--all", "--regex", "--rel"] {
            assert!(parse_command(&format!(":{name} {extra}")).is_err());
        }
    }
}

#[test]
fn grouped_lsp_commands_match_aliases_and_validate_arguments() {
    for (subcommand, alias) in [
        ("hover", "hover"),
        ("definition", "definition"),
        ("actions", "actions"),
        ("refactor", "refactor"),
        ("back", "lsp-back"),
        ("status", "lsp-status"),
        ("stop", "lsp-stop"),
        ("start", "lsp-start"),
        ("restart", "lsp-restart"),
    ] {
        assert_eq!(
            parse_command(&format!(":lsp {subcommand}")).unwrap(),
            parse_command(&format!(":{alias}")).unwrap()
        );
        for extra in ["extra", "--all", "--regex", "--rel"] {
            assert!(parse_command(&format!(":lsp {subcommand} {extra}")).is_err());
        }
    }
    assert_eq!(
        parse_command(":lsp rename \"greeting_é\"").unwrap(),
        ParsedCommand::Rename { name: "greeting_é".into() }
    );
    for input in [":lsp", ":lsp nope", ":lsp rename", ":lsp rename a b", ":lsp rename \"a b\"", ":lsp rename --all"] {
        assert!(parse_command(input).is_err(), "{input}");
    }
}

#[test]
fn lsp_group_supports_prefixes_clicks_and_rename_arguments() {
    let mut bar = CommandBar::new();
    bar.open(":lsp");
    assert!(!bar.prepare_execute());
    assert_eq!(bar.input(), ":lsp ");
    let all = lsp_commands();
    assert_eq!(bar.total_suggestion_count(), all.len());
    for spec in &all {
        bar.open(":lsp ");
        let index = all.iter().position(|s| s.name == spec.name).unwrap();
        bar.scroll_suggestions(index as isize);
        let row = bar.selected();
        let y = 600 - COMMAND_BAR_MARGIN - bar.panel_height() + bar.suggestion_row_offset(row) + 1;
        assert_eq!(bar.hit_test(800, 600, 30, y), CommandBarHit::Suggestion(row));
        bar.select_suggestion(row);
        let ready = bar.prepare_execute();
        assert_eq!(bar.input(), format!(":{} ", spec.name));
        assert_eq!(ready, !matches!(spec.name, "lsp rename" | "lsp install"));
        if spec.name == "lsp install" {
            bar.insert_text("unity");
            assert!(bar.prepare_execute());
            assert_eq!(bar.parse().unwrap(), ParsedCommand::LspInstall { server: "csharp".into() });
        } else if !ready {
            bar.insert_text("new_name");
            assert!(bar.prepare_execute());
            assert_eq!(bar.parse().unwrap(), ParsedCommand::Rename { name: "new_name".into() });
        }
    }
    bar.open(":lsp h");
    assert_eq!(bar.total_suggestion_count(), 1);
    assert_eq!(bar.suggestion(0).unwrap().label, "lsp hover");
    assert!(bar.prepare_execute());
    assert_eq!(bar.parse().unwrap(), ParsedCommand::Hover);
    bar.open(":lsp rename preserved_name");
    assert!(bar.prepare_execute());
    assert_eq!(bar.parse().unwrap(), ParsedCommand::Rename { name: "preserved_name".into() });
}

#[test]
fn lsp_setup_commands_validate_arguments_and_complete_all_servers() {
    assert_eq!(parse_command(":lsp doctor").unwrap(), ParsedCommand::LspDoctor { server: None });
    assert_eq!(
        parse_command(":lsp install csharp-ls").unwrap(),
        ParsedCommand::LspInstall { server: "csharp-ls".into() }
    );
    for input in [
        ":lsp install",
        ":lsp install a b",
        ":lsp doctor a b",
        ":lsp install --all",
        ":lsp doctor --rel",
        ":lsp install \"\"",
    ] {
        assert!(parse_command(input).is_err(), "{input}");
    }
    let mut bar = CommandBar::new();
    let all = recipes();
    for (index, recipe) in all.iter().enumerate() {
        bar.open(":lsp install ");
        assert_eq!(bar.total_suggestion_count(), all.len());
        bar.scroll_suggestions(index as isize);
        assert!(bar.apply_suggestion(bar.selected()));
        assert_eq!(bar.parse().unwrap(), ParsedCommand::LspInstall { server: recipe.id.into() });
    }
    bar.open(":lsp doctor ");
    assert!(bar.prepare_execute());
    assert_eq!(bar.parse().unwrap(), ParsedCommand::LspDoctor { server: None });
    bar.open(":lsp install UNI");
    assert!(bar.prepare_execute());
    assert_eq!(bar.parse().unwrap(), ParsedCommand::LspInstall { server: "csharp".into() });
}

#[test]
fn hover_documentation_color_survives_wrapping_and_scrolling() {
    let mut bar = CommandBar::new();
    bar.open(":hover");
    let text = format!("crate_name\n\nfn example()\n\n\n{}", "Documentation é中 ".repeat(70));
    let start = text.find("Documentation").unwrap();
    bar.show_info_styled(&text, &[(start, text.len())]);
    assert!(!bar.info_is_documentation(0));
    assert!(!bar.info_is_documentation(2));
    assert!(bar.info_is_documentation(4));
    assert!(bar.info_is_documentation(5));
    for _ in 0..5 {
        bar.scroll_suggestions(1);
    }
    assert!(bar.info_is_documentation(0));
    bar.show_info("Waiting for the language server…");
    assert!(!bar.info_is_documentation(0), "status text must not inherit the documentation color");
}

#[test]
fn hover_spacing_collapses_blank_lines_and_keeps_hit_targets_aligned() {
    let mut bar = CommandBar::new();
    bar.open(":hover");
    bar.show_info("\n  \npotyi_lsp_demo\n\nfn greeting() -> &'static str\n\n\nReturns a greeting.\n\n");
    assert_eq!(bar.suggestion_count(), 5);
    assert_eq!(bar.suggestion(0).unwrap().label, "potyi_lsp_demo");
    assert_eq!(bar.suggestion(4).unwrap().label, "Returns a greeting.");
    assert_eq!(bar.suggestions_height(), 3 * INFO_LINE_HEIGHT + 2 * INFO_PARAGRAPH_GAP);
    assert_eq!(bar.panel_height(), COMMAND_INPUT_HEIGHT + 72);
    let top = 600 - COMMAND_BAR_MARGIN - bar.panel_height();
    for index in 0..bar.suggestion_count() {
        let y = top + bar.suggestion_row_offset(index);
        assert_eq!(bar.hit_test(800, 600, 40, y), CommandBarHit::Suggestion(index));
        assert_eq!(
            bar.hit_test(800, 600, 40, y + bar.suggestion_row_height(index) - 1),
            CommandBarHit::Suggestion(index)
        );
    }
    let input_y = top + bar.suggestions_height();
    assert_eq!(bar.hit_test(800, 600, 40, input_y), CommandBarHit::Input);
    assert_eq!(bar.hit_test(800, 600, 780, input_y), CommandBarHit::Execute);
    assert_eq!(bar.hit_test(800, 600, 40, top - 1), CommandBarHit::Outside);
    bar.open(":");
    assert_eq!(bar.suggestions_height(), bar.suggestion_count() as i32 * COMMAND_SUGGESTION_HEIGHT);
}

#[test]
fn hover_spacing_keeps_indentation_and_scrolled_layout_consistent() {
    let mut bar = CommandBar::new();
    bar.open(":hover");
    bar.show_info(&"    code\n\n\nnext\n".repeat(12));
    assert_eq!(bar.suggestion(0).unwrap().label, "    code");
    bar.scroll_suggestions(3);
    let top = 600 - COMMAND_BAR_MARGIN - bar.panel_height();
    for index in 0..bar.suggestion_count() {
        assert_eq!(
            bar.hit_test(800, 600, 40, top + bar.suggestion_row_offset(index)),
            CommandBarHit::Suggestion(index)
        );
    }
}

#[test]
fn hover_and_definition_results_can_be_repeated_with_enter() {
    let mut bar = CommandBar::new();
    for command in [":hover", ":definition"] {
        bar.open(command);
        bar.show_info("Result at the previous cursor");
        assert!(bar.prepare_execute());
        assert_eq!(bar.input(), command);
        assert_eq!(bar.hit_test(800, 600, 100, 50), CommandBarHit::Outside);
    }
    for command in [":format", ":save"] {
        bar.open(command);
        bar.show_info("Finished");
        assert!(!bar.prepare_execute());
    }
}

#[test]
fn informational_results_scroll_and_clear_on_input() {
    let mut bar = CommandBar::new();
    bar.open(":hover");
    let epoch = bar.epoch();
    bar.show_info(&(0..20).map(|n| format!("Line {n}")).collect::<Vec<_>>().join("\n"));
    assert_eq!(bar.epoch(), epoch);
    assert_eq!(bar.suggestion(0).unwrap().label, "Line 0");
    bar.move_selection(1);
    assert_eq!(bar.suggestion(0).unwrap().label, "Line 1");
    assert!(!bar.apply_selected());
    bar.insert_text("x");
    assert!(!bar.is_info());
    assert_ne!(bar.epoch(), epoch);
}

#[test]
fn formatting_commands_are_explicit_and_reject_extra_options() {
    assert_eq!(parse_command(":format").unwrap(), ParsedCommand::Format { provider: None });
    assert_eq!(
        parse_command(":format rustfmt").unwrap(),
        ParsedCommand::Format { provider: Some("rustfmt".into()) }
    );
    assert_eq!(parse_command(":formatters").unwrap(), ParsedCommand::Formatters);
    for input in [":format one two", ":format --all", ":format --regex", ":format --rel", ":formatters rustfmt"] {
        assert!(parse_command(input).is_err(), "{input}");
    }
}

#[test]
fn formatter_results_are_selectable_without_running_on_selection() {
    let mut bar = CommandBar::new();
    bar.open(":formatters");
    bar.show_formatters(vec![("rustfmt".into(), true), ("ruff".into(), false)]);
    assert_eq!(bar.suggestion_count(), 2);
    assert_eq!(bar.suggestion(0).unwrap().label, "rustfmt");
    assert!(bar.suggestion(1).unwrap().description.starts_with("Missing"));
    assert!(bar.apply_suggestion(0));
    assert_eq!(bar.input(), ":format rustfmt");
    assert_eq!(bar.formatter_count(), 0);
    bar.close();
    assert_eq!(bar.formatter_count(), 0);
}

#[test]
fn save_as_commands_parse_paths_and_overwrite_intent() {
    for name in ["save-as", "saveas", "sav", "savea"] {
        for overwrite in [false, true] {
            let bang = if overwrite { "!" } else { "" };
            for path in ["new.rs", "folder/é file.txt", r#"C:\new\test.txt"#, "--regex"] {
                assert_eq!(
                    parse_command(&format!(":{name}{bang} {}", quote_argument(path))).unwrap(),
                    ParsedCommand::SaveAs { path: Some(path.to_string()), overwrite },
                );
            }
            assert_eq!(
                parse_command(&format!(":{name}{bang}")).unwrap(),
                ParsedCommand::SaveAs { path: None, overwrite },
            );
        }
    }
    for input in [":save-as a b", ":sav \"\"", ":saveas a --all", ":saveas a --rel"] {
        assert!(parse_command(input).is_err(), "{input}");
    }
    for input in [":save", ":w", ":write"] {
        assert_eq!(parse_command(input).unwrap(), ParsedCommand::Save);
    }
    let mut bar = CommandBar::new();
    bar.open(":save-");
    assert!(bar.apply_selected());
    assert_eq!(bar.input(), ":save-as ");
    assert_eq!(bar.suggestion(0).unwrap().label, ":save-as[!] path");
    bar.open(":sav! ");
    assert_eq!(bar.suggestion(0).unwrap().label, ":saveas[!] path");
}

#[test]
fn parses_quoted_find_and_visible_options() {
    let mut bar = CommandBar::new();
    bar.open(":find \"hello world\" --ignore-case");
    assert_eq!(
        bar.parse().unwrap(),
        ParsedCommand::Find {
            query: "hello world".to_string(),
            mode: SearchMode::CaseInsensitive,
            backward: false,
        },
    );
    assert!((0..bar.suggestion_count())
        .filter_map(|index| bar.suggestion(index))
        .any(|suggestion| suggestion.label == "--ignore-case" && suggestion.active));
}

#[test]
fn parses_replace_all_and_goto() {
    let mut bar = CommandBar::new();
    bar.open(":replace \"old value\" new --regex --all");
    assert_eq!(
        bar.parse().unwrap(),
        ParsedCommand::Replace {
            query: "old value".to_string(),
            replacement: "new".to_string(),
            mode: SearchMode::Regex,
            all: true,
        },
    );
    bar.open(":goto 12:4");
    assert_eq!(
        bar.parse().unwrap(),
        ParsedCommand::Goto { line: 12, column: Some(4), mode: GotoMode::Automatic },
    );
}

#[test]
fn goto_parses_line_number_overrides() {
    assert_eq!(
        parse_command(":goto 76 --rel").unwrap(),
        ParsedCommand::Goto { line: 76, column: None, mode: GotoMode::Relative },
    );
    assert_eq!(
        parse_command(":goto -12:4 --rel").unwrap(),
        ParsedCommand::Goto { line: -12, column: Some(4), mode: GotoMode::Relative },
    );
    assert_eq!(
        parse_command(":goto 76 --abs").unwrap(),
        ParsedCommand::Goto { line: 76, column: None, mode: GotoMode::Absolute },
    );
    assert_eq!(
        parse_command(":goto 76 --abs --rel").unwrap_err(),
        "--abs and --rel cannot be used together",
    );
}

#[test]
fn goto_preserves_direction_and_explicit_overrides() {
    for (input, line, column, mode) in [
        (":goto 3", 3, None, GotoMode::Automatic),
        (":goto +3", 3, None, GotoMode::Relative),
        (":goto -3", -3, None, GotoMode::Relative),
        (":goto +0", 0, None, GotoMode::Relative),
        (":goto -0", 0, None, GotoMode::Relative),
        (":goto +3:2", 3, Some(2), GotoMode::Relative),
        (":goto -3:2", -3, Some(2), GotoMode::Relative),
        (":goto 3 --rel", 3, None, GotoMode::Relative),
        (":goto +3 --abs", 3, None, GotoMode::Absolute),
        (":goto --abs +3", 3, None, GotoMode::Absolute),
    ] {
        assert_eq!(parse_command(input).unwrap(), ParsedCommand::Goto { line, column, mode }, "{input}");
    }
    for input in [":goto +", ":goto -", ":goto +-3", ":goto +3:0"] {
        assert!(parse_command(input).is_err(), "{input}");
    }
}

#[test]
fn goto_options_are_discoverable_and_exclusive() {
    let mut bar = CommandBar::new();
    bar.open(":goto 76 --r");
    assert_eq!(bar.suggestion(0).unwrap().label, "--rel");
    assert!(bar.apply_suggestion(0));
    assert_eq!(bar.input(), ":goto 76 --rel ");
    bar.open(":goto 76 --rel --a");
    assert!(bar.apply_suggestion(0));
    assert_eq!(bar.input(), ":goto 76 --abs ");
}

#[test]
fn command_and_option_clicks_are_actionable() {
    let mut bar = CommandBar::new();
    bar.open(":f");
    assert!(bar.apply_suggestion(0));
    assert_eq!(bar.input(), ":find ");
    let regex_index = (0..bar.suggestion_count())
        .find(|index| bar.suggestion(*index).map(|suggestion| suggestion.label == "--regex").unwrap_or(false))
        .unwrap();
    assert!(bar.apply_suggestion(regex_index));
    assert!(bar.input().contains("--regex"));
    let hit = bar.hit_test(800, 600, 20, 600 - COMMAND_BAR_MARGIN - 2);
    assert_eq!(hit, CommandBarHit::Input);
    let execute_hit = bar.hit_test(800, 600, 800 - COMMAND_BAR_MARGIN - 2, 600 - COMMAND_BAR_MARGIN - 2);
    assert_eq!(execute_hit, CommandBarHit::Execute);
}

#[test]
fn utf8_cursor_editing_stays_on_boundaries() {
    let mut bar = CommandBar::new();
    bar.open(":find é🙂");
    bar.move_left();
    bar.backspace();
    assert_eq!(bar.input(), ":find 🙂");
}

#[test]
fn quote_argument_round_trips() {
    let value = "a path/with \"quotes\"";
    let command = format!(":open {}", quote_argument(value));
    assert_eq!(parse_command(&command).unwrap(), ParsedCommand::Open { path: value.to_string() });
}

#[test]
fn windows_paths_and_empty_replacements_round_trip() {
    let path = r#"C:\Users\Attila\My File.txt"#;
    assert_eq!(
        parse_command(&format!(":open {}", quote_argument(path))).unwrap(),
        ParsedCommand::Open { path: path.to_string() },
    );
    assert_eq!(
        parse_command(":replace old \"\" --all").unwrap(),
        ParsedCommand::Replace {
            query: "old".to_string(),
            replacement: String::new(),
            mode: SearchMode::CaseSensitive,
            all: true,
        },
    );
}

#[test]
fn pasted_controls_stay_single_line_and_parse_as_text() {
    let mut bar = CommandBar::new();
    bar.open(":find \"");
    bar.insert_text("one\ntwo\t");
    bar.insert_text("\"");
    assert!(!bar.input().contains('\n'));
    assert_eq!(
        bar.parse().unwrap(),
        ParsedCommand::Find {
            query: "one\ntwo\t".to_string(),
            mode: SearchMode::CaseSensitive,
            backward: false,
        },
    );
}

#[test]
fn quoted_option_name_is_search_text() {
    assert_eq!(
        parse_command(":find \"--regex\"").unwrap(),
        ParsedCommand::Find { query: "--regex".to_string(), mode: SearchMode::CaseSensitive, backward: false },
    );
}

#[test]
fn font_size_setting_is_discoverable_and_clickable() {
    let mut bar = CommandBar::new();
    bar.open(":set ");
    assert_eq!(bar.suggestion(0).unwrap().label, "font-size");
    assert!(bar.apply_suggestion(0));
    assert_eq!(bar.input(), ":set font-size ");
    let size_index = (0..bar.suggestion_count())
        .find(|index| bar.suggestion(*index).map(|suggestion| suggestion.label == "24").unwrap_or(false))
        .unwrap();
    assert!(bar.apply_suggestion(size_index));
    assert_eq!(bar.parse().unwrap(), ParsedCommand::SetFontSize { points: 24 });
}

#[test]
fn font_size_setting_rejects_unsafe_sizes() {
    for input in [":set font-size 0", ":set font-size 73", ":set font-size huge"] {
        assert!(parse_command(input).is_err());
    }
}

#[test]
fn line_number_setting_is_discoverable_and_clickable() {
    let mut bar = CommandBar::new();
    bar.open(":set ");
    let setting_index = (0..bar.suggestion_count())
        .find(|index| bar.suggestion(*index).map(|suggestion| suggestion.label == "line-numbers").unwrap_or(false))
        .unwrap();
    assert!(bar.apply_suggestion(setting_index));
    assert_eq!(bar.input(), ":set line-numbers ");
    let relative_index = (0..bar.suggestion_count())
        .find(|index| bar.suggestion(*index).map(|suggestion| suggestion.label == "relative").unwrap_or(false))
        .unwrap();
    assert!(bar.apply_suggestion(relative_index));
    assert_eq!(bar.parse().unwrap(), ParsedCommand::SetLineNumbers { mode: LineNumberMode::Relative });
}

#[test]
fn line_number_setting_parses_all_types() {
    for (name, mode) in [
        ("normal", LineNumberMode::Normal),
        ("relative", LineNumberMode::Relative),
        ("dynamic", LineNumberMode::Dynamic),
    ] {
        assert_eq!(
            parse_command(&format!(":set line-numbers {name}")).unwrap(),
            ParsedCommand::SetLineNumbers { mode },
        );
    }
    assert!(parse_command(":set line-numbers unknown").is_err());
}

#[test]
fn keybinding_setting_is_discoverable_and_parses_both_modes() {
    let mut bar = CommandBar::new();
    bar.open(":set keybindings ");
    assert_eq!(bar.suggestion(0).unwrap().label, "conventional");
    assert_eq!(bar.suggestion(1).unwrap().label, "vim");
    for (name, mode) in [("conventional", KeybindingMode::Conventional), ("vim", KeybindingMode::Vim)] {
        assert_eq!(
            parse_command(&format!(":set keybindings {name}")).unwrap(),
            ParsedCommand::SetKeybindings { mode },
        );
    }
    assert!(parse_command(":set keybindings emacs").is_err());
}

#[test]
fn parses_extract_config_without_arguments() {
    assert_eq!(parse_command(":extract-config").unwrap(), ParsedCommand::ExtractConfig);
    assert!(parse_command(":extract-config overwrite").is_err());
}

#[test]
fn parses_term_without_arguments() {
    assert_eq!(parse_command(":term").unwrap(), ParsedCommand::Term);
    assert!(parse_command(":term now").is_err());
}

#[test]
fn parses_split_without_arguments() {
    assert_eq!(parse_command(":split").unwrap(), ParsedCommand::Split);
    assert!(parse_command(":split vertical").is_err());
}

#[test]
fn hover_documentation_is_styled_in_the_bar() {
    let hover = hover_content(&HoverPart::List(vec![
        HoverPart::Text { text: "fn f()".to_string(), plaintext: false, language: true },
        HoverPart::Text { text: "Docs".to_string(), plaintext: false, language: false },
    ]));
    let mut bar = CommandBar::new();
    bar.open(":");
    bar.show_hover(&hover);
    assert!(bar.is_info());
    assert!(!bar.info_is_documentation(0));
    assert!(bar.info_is_documentation(1));
}
