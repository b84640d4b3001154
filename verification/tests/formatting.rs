use potyi::formatting::builtin::{indent, run, supported, MAX_DEPTH, MAX_LINE};
use potyi::formatting::positions::{map_positions, Position, PositionMapper, CHUNK_BYTES};
use potyi::formatting::providers::{FileInfo, Formatters, Provider};
use potyi::formatting::run::{timed_out, FormatterRun, MAX_ERROR_BYTES};

fn file(name: &str) -> FileInfo {
    let extension = match name.rfind('.') {
        Some(dot) if dot > 0 => Some(name[dot + 1..].to_string()),
        _ => None,
    };
    FileInfo { name: Some(name.to_string()), extension }
}

fn shell_provider(script: &str) -> Provider {
    Provider {
        name: "fixture".into(),
        command: "/bin/sh".into(),
        args: vec!["-c".into(), script.into()],
        extensions: vec!["txt".into()],
        filenames: vec![],
    }
}

fn formatted(text: &str, spaces: bool, json: bool) -> Result<String, String> {
    let output = indent(text.as_bytes(), 2, spaces, json)?;
    Ok(String::from_utf8(output).unwrap())
}

#[test]
fn cursor_mapping_handles_unicode_crlf_and_shorter_documents() {
    let text = "éé\r\nlast\n".as_bytes();
    let positions = map_positions(text, [(0, 99), (1, 2)]).unwrap();
    assert_eq!(positions[0], Position { byte: 4, line: 0, column: 2 });
    assert_eq!(positions[1], Position { byte: 8, line: 1, column: 2 });
    assert_eq!(
        map_positions(text, [(10, 0); 2]).unwrap()[0],
        Position { byte: 11, line: 2, column: 0 }
    );
}

#[test]
fn cursor_mapping_does_not_depend_on_chunk_boundaries() {
    let text = format!("{}é🙂\nend", "a".repeat(CHUNK_BYTES - 1));
    let positions = map_positions(text.as_bytes(), [(0, CHUNK_BYTES + 1), (1, 2)]).unwrap();
    assert_eq!(positions[0].byte, CHUNK_BYTES + 5);
    assert_eq!(positions[1].byte, text.len() - 1);
    let mut mapper = PositionMapper::new([(0, CHUNK_BYTES + 1), (1, 2)]);
    for chunk in text.as_bytes().chunks(CHUNK_BYTES) {
        mapper.feed(chunk).unwrap();
    }
    assert_eq!(mapper.finish(), positions);
    let mut bytewise = PositionMapper::new([(0, CHUNK_BYTES + 1), (1, 2)]);
    for byte in text.as_bytes() {
        bytewise.feed(std::slice::from_ref(byte)).unwrap();
    }
    assert_eq!(bytewise.finish(), positions);
}

#[test]
fn binary_formatter_output_is_refused() {
    assert!(map_positions(b"ab\0c", [(0, 0); 2]).unwrap_err().contains("binary output"));
}

#[test]
fn selection_uses_config_order_and_only_skips_unavailable_executables() {
    let mut missing = shell_provider("");
    missing.name = "missing".into();
    missing.command = "/no/such/formatter".into();
    let config = Formatters::from_providers(vec![missing, shell_provider("cat")]).unwrap();
    let available = [false, true];
    let chosen = config.select(Some(&file("file.txt")), None, &available).unwrap();
    assert_eq!(config.provider(chosen).name, "fixture");
    assert!(config.select(None, Some("missing"), &available).is_err());
    let named = config.select(None, Some("fixture"), &available).unwrap();
    assert_eq!(config.provider(named).name, "fixture");
}

#[test]
fn selection_errors_name_their_cause() {
    let config = Formatters::from_providers(vec![shell_provider("cat")]).unwrap();
    assert_eq!(
        config.select(None, None, &[true]).unwrap_err(),
        "Save the document to choose its language, or use :format <provider>"
    );
    assert_eq!(
        config.select(Some(&file("file.unknown")), None, &[true]).unwrap_err(),
        "No matching formatter; use :formatters or configure config/formatters.toml"
    );
    assert_eq!(
        config.select(Some(&file("file.TXT")), None, &[false]).unwrap_err(),
        "No matching formatter is installed; use :formatters"
    );
    assert_eq!(
        config.select(None, Some("unknown"), &[true]).unwrap_err(),
        "Unknown formatter 'unknown'; use :formatters"
    );
    assert_eq!(
        config.select(None, Some("fixture"), &[]).unwrap_err(),
        "Formatter 'fixture' is unavailable; install /bin/sh or set its executable path"
    );
}

#[test]
fn configuration_is_validated() {
    let custom = Provider {
        name: "custom".into(),
        command: "my-format".into(),
        args: vec!["{filepath}".into()],
        extensions: vec![],
        filenames: vec![],
    };
    let again = Provider { name: "custom".into(), command: "my-format".into(), args: vec![], extensions: vec![], filenames: vec![] };
    assert!(Formatters::from_providers(vec![]).is_ok());
    assert_eq!(
        Formatters::from_providers(vec![custom, again]).err().unwrap(),
        "Duplicate formatter: custom"
    );
    let bad_name = Provider { name: "bad name".into(), command: "x".into(), args: vec![], extensions: vec![], filenames: vec![] };
    assert_eq!(
        Formatters::from_providers(vec![bad_name]).err().unwrap(),
        "Invalid formatter name, command, or arguments"
    );
    let empty_command = Provider { name: "ok".into(), command: "  ".into(), args: vec![], extensions: vec![], filenames: vec![] };
    assert!(Formatters::from_providers(vec![empty_command]).is_err());
    let builtin = Provider { name: "builtin".into(), command: "x".into(), args: vec![], extensions: vec![], filenames: vec![] };
    assert_eq!(
        Formatters::from_providers(vec![builtin]).err().unwrap(),
        "The formatter name 'builtin' is reserved for built-in indentation"
    );
    let many: Vec<Provider> = (0..33)
        .map(|k| Provider { name: format!("p{k}"), command: "x".into(), args: vec![], extensions: vec![], filenames: vec![] })
        .collect();
    assert_eq!(
        Formatters::from_providers(many).err().unwrap(),
        "At most 32 formatter providers are supported"
    );
}

#[test]
fn choices_list_builtin_then_matching_providers() {
    let mut toml = shell_provider("");
    toml.name = "taplo".into();
    toml.extensions = vec!["toml".into()];
    toml.filenames = vec!["Cargo.lock".into(), "Pipfile".into()];
    let config = Formatters::from_providers(vec![shell_provider("cat"), toml]).unwrap();
    let all = config.choices(None, &[true, false]);
    assert_eq!(all.len(), 3);
    assert_eq!(all[0].name, "builtin");
    assert_eq!(all[0].description, "Basic C-style/JSON indentation — no installation needed");
    assert_eq!(all[1].name, "fixture");
    assert_eq!(all[1].description, "Installed — .txt");
    assert_eq!(all[2].description, "Not installed; install tool or set its path — .toml, Cargo.lock, Pipfile");
    let for_toml = config.choices(Some(&file("Cargo.lock")), &[true, true]);
    assert_eq!(for_toml.len(), 2);
    assert_eq!(for_toml[0].description, "Not supported for this file type; choose a language formatter");
    assert_eq!(for_toml[1].name, "taplo");
}

#[test]
fn nested_code_tabs_spaces_crlf_and_bom() {
    let source = "\u{feff}class Example {\r\nvoid OnEnable() {\r\nCall(\r\n1,\r\n2);\r\n}\r\n}";
    let expected = "\u{feff}class Example {\r\n  void OnEnable() {\r\n    Call(\r\n      1,\r\n      2);\r\n  }\r\n}";
    assert_eq!(formatted(source, true, false).unwrap(), expected);
    assert_eq!(formatted(expected, true, false).unwrap(), expected);
    assert_eq!(formatted("{\nx();\n}\n", false, false).unwrap(), "{\n\tx();\n}\n");
}

#[test]
fn strings_comments_directives_and_raw_contents_are_preserved() {
    let source = "{\nconst char *s = \"}\\\"{\"; // }\n/* {\n   comment }\n */\n#define BRACE { \\\n  {\nvar s = @\"hi\n  } doubled \"\" quotes\nbye\";\nvar raw = \"\"\"\n  { raw\n  \"\"\";\nauto cpp = R\"tag(\n } \" {\n)tag\";\nx();\n}\n";
    let result = formatted(source, true, false).unwrap();
    assert!(result.contains("\n  const char *s"));
    assert!(result.contains("\n   comment }\n */\n#define BRACE { \\\n  {\n"));
    assert!(result.contains("@\"hi\n  } doubled \"\" quotes\nbye\";"));
    assert!(result.contains("\"\"\"\n  { raw\n  \"\"\";"));
    assert!(result.contains("R\"tag(\n } \" {\n)tag\";"));
    assert!(result.ends_with("\n  x();\n}\n"));
}

#[test]
fn json_quotes_blank_lines_and_final_newline_are_preserved() {
    let source = "{\n\"a\": [\n\"{}[]\",\n\"\",\n1\n]\n   \n}";
    assert_eq!(
        formatted(source, true, true).unwrap(),
        "{\n  \"a\": [\n    \"{}[]\",\n    \"\",\n    1\n  ]\n   \n}"
    );
    assert_eq!(formatted("", true, false).unwrap(), "");
}

#[test]
fn unsupported_and_ambiguous_input_is_rejected() {
    assert!(!supported(Some(&file("script.py"))));
    assert!(!supported(Some(&FileInfo { name: Some("Makefile".into()), extension: None })));
    assert!(supported(Some(&file("Example.CS"))));
    assert!(supported(None));
    for input in ["}", "{]", "\"unclosed", "/* unclosed", "$\"{x}\"", "// comment\\\n{", "x \\\n{"] {
        assert!(formatted(input, true, false).is_err(), "{input}");
    }
    assert!(formatted(&"x".repeat(MAX_LINE + 1), true, false).is_err());
    assert!(formatted(&"{".repeat(MAX_DEPTH + 1), true, false).is_err());
    assert!(indent(b"{", 0, true, false).is_err());
    assert_eq!(
        run(Some(&file("notes.md")), b"x", 4, true).unwrap_err(),
        "Built-in indentation supports C/C++, C#, Java, Objective-C, Protobuf, JSON and untitled code. For this file type, use :formatters to choose a language formatter."
    );
    assert_eq!(run(Some(&file("data.JSON")), b"{\n'a'\n}", 4, true).unwrap(), b"{\n    'a'\n}");
}

#[test]
fn filepath_substitution_is_one_literal_argument() {
    let provider = Provider {
        name: "clang-format".into(),
        command: "clang-format".into(),
        args: vec!["--assume-filename={filepath}".into(), "{filepath}{filepath}".into(), "plain".into()],
        extensions: vec!["cpp".into()],
        filenames: vec![],
    };
    let arguments = provider.arguments("folder with spaces/$(touch nope); test.cpp");
    assert_eq!(arguments[0], "--assume-filename=folder with spaces/$(touch nope); test.cpp");
    assert_eq!(provider.arguments("a")[1], "aa");
    assert_eq!(arguments[2], "plain");
    assert_eq!(provider.untitled_name(), "untitled.cpp");
    assert_eq!(shell_provider("").untitled_name(), "untitled.txt");
}

#[test]
fn formatter_runs_end_on_limits_failure_or_success() {
    let mut run = FormatterRun::new();
    assert_eq!(run.output(b"partial"), Ok(true));
    assert_eq!(run.diagnostics(b"syntax\x07problem\n"), Ok(true));
    assert!(run.result("fixture").is_none());
    assert_eq!(run.output(b""), Ok(false));
    assert_eq!(run.diagnostics(b""), Ok(false));
    assert!(run.result("fixture").is_none());
    run.exited(false, "exit status: 7".into());
    assert_eq!(run.result("fixture").unwrap().unwrap_err(), "fixture failed (exit status: 7): syntax problem");
    let mut ok = FormatterRun::new();
    ok.output(b"").unwrap();
    ok.diagnostics(b"").unwrap();
    ok.exited(true, "exit status: 0".into());
    assert_eq!(ok.result("fixture"), Some(Ok(())));
    let mut noisy = FormatterRun::new();
    assert!(noisy.diagnostics(&vec![0u8; MAX_ERROR_BYTES + 1]).unwrap_err().contains("64 KiB"));
    let mut large = FormatterRun::new();
    assert!(large.output(&vec![b'a'; 4 * 1024 * 1024 + 1]).unwrap_err().contains("4 MiB"));
    assert!(timed_out("fixture").contains("time limit"));
}
