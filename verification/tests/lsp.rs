use potyi::lsp::actions::{actions, diagnostics_in_range, ActionsReply, RawCodeAction};
use potyi::lsp::changes::{incremental_change, position, LspPosition, TextChange};
use potyi::lsp::hover::{hover_content, HoverContent, HoverPart};
use potyi::lsp::utf16_column;

fn raw(title: Option<&str>) -> RawCodeAction {
    RawCodeAction { title: title.map(str::to_string), disabled_reason: None, has_command: false, preferred: false }
}

#[test]
fn command_actions_are_unavailable_and_preferred_edits_come_first() {
    let mut server = raw(Some("Server operation"));
    server.has_command = true;
    let mut quick = raw(Some("Quick fix"));
    quick.preferred = true;
    let mut disabled = raw(Some("Disabled"));
    disabled.disabled_reason = Some("Not here".into());
    let list = actions(&ActionsReply::List(vec![server, quick, disabled], 120)).unwrap();
    assert_eq!(list[0].title, "Quick fix");
    assert!(list[1].disabled.as_ref().unwrap().contains("server command"));
    assert_eq!(list[2].disabled.as_deref(), Some("Not here"));
    assert!(actions(&ActionsReply::List(vec![raw(None)], 2)).is_err());
    let many: Vec<RawCodeAction> = (0..257).map(|_| raw(Some("fix"))).collect();
    assert!(actions(&ActionsReply::List(many, 257 * 16)).is_err());
}

#[test]
fn action_replies_are_checked() {
    assert!(actions(&ActionsReply::Null).unwrap().is_empty());
    assert_eq!(actions(&ActionsReply::NotList).err().unwrap(), "Invalid code-action response");
    assert_eq!(
        actions(&ActionsReply::List(vec![raw(Some("fix"))], 3 * 1024 * 1024)).err().unwrap(),
        "Language server returned too many code actions"
    );
    let long = format!("a\tb\u{7}{}", "x".repeat(300));
    let list = actions(&ActionsReply::List(vec![raw(Some(&long))], 400)).unwrap();
    assert_eq!(list[0].title.chars().count(), 240);
    assert!(list[0].title.starts_with("abxx"));
    assert_eq!(list[0].index, 0);
    assert_eq!(list[0].disabled, None);
}

#[test]
fn utf16_columns_never_split_characters() {
    assert_eq!(utf16_column("a🦀é", 3).unwrap(), 2);
    assert_eq!(utf16_column("a🦀é", 4).unwrap(), 3);
    assert_eq!(utf16_column("a🦀é", 0).unwrap(), 0);
    assert_eq!(utf16_column("a🦀é", 2).unwrap_err(), "Definition position splits a Unicode character");
    assert_eq!(utf16_column("a🦀é", 5).unwrap_err(), "Definition position is outside the line");
}

#[test]
fn diagnostics_touching_the_selection_are_kept() {
    let ranges = [
        (Some((0, 0)), Some((0, 5))),
        (Some((2, 0)), Some((2, 1))),
        (None, Some((1, 0))),
        (Some((1, 3)), Some((4, 0))),
    ];
    assert_eq!(diagnostics_in_range(&ranges, (1, 0), (1, 4)), vec![3]);
    assert_eq!(diagnostics_in_range(&ranges, (0, 5), (2, 0)), vec![0, 1, 3]);
    let many = vec![(Some((0, 0)), Some((9, 0))); 300];
    assert_eq!(diagnostics_in_range(&many, (1, 0), (1, 0)).len(), 256);
}

fn at(line: usize, character: usize) -> LspPosition {
    LspPosition { line, character }
}

#[test]
fn unicode_positions_and_incremental_changes() {
    assert_eq!(position("a🦀é\r\nx", 7).unwrap(), at(0, 4));
    assert_eq!(position("a🦀é\r\nx", 9).unwrap(), at(1, 0));
    assert_eq!(utf16_column("a🦀é", 3).unwrap(), 2);
    assert!(utf16_column("a🦀é", 2).is_err());
    assert!(position("🦀", 1).is_err());
    let change = incremental_change("hello 🦀!", "hello é!").unwrap();
    assert_eq!((change.start, change.end, change.text.as_str()), (at(0, 6), at(0, 8), "é"));
    let change = incremental_change("x\r\ny", "x\ny").unwrap();
    assert_eq!((change.start, change.end, change.text.as_str()), (at(0, 1), at(1, 0), "\n"));
}

/// The byte offset of a language-server position in `text`.
fn offset(text: &str, point: LspPosition) -> usize {
    let start = if point.line == 0 { 0 } else { text.match_indices('\n').nth(point.line - 1).unwrap().0 + 1 };
    let mut used = 0;
    for (byte, ch) in text[start..].char_indices() {
        if used == point.character {
            return start + byte;
        }
        used += ch.len_utf16();
    }
    assert_eq!(used, point.character);
    text.len()
}

#[test]
fn incremental_changes_reconstruct_unicode_and_multiline_documents() {
    let samples = ["", "🦀", "é", "a🦀é", "one\ntwo\n", "one\r\ntwo\r\n", "one\n🦀two\n", "one\r\n\r\n"];
    for old in samples {
        for new in samples {
            let change: TextChange = incremental_change(old, new).unwrap();
            let start = offset(old, change.start);
            let end = offset(old, change.end);
            let rebuilt = format!("{}{}{}", &old[..start], change.text, &old[end..]);
            assert_eq!(rebuilt, new, "{old:?} -> {new:?}");
        }
    }
}

#[test]
fn positions_count_lines_and_utf16_units() {
    assert_eq!(position("", 0).unwrap(), at(0, 0));
    assert_eq!(position("ab\ncd", 5).unwrap(), at(1, 2));
    assert_eq!(position("ab\r\r", 4).unwrap(), at(0, 2));
    assert_eq!(position("é", 2).unwrap(), at(0, 1));
    assert_eq!(position("ab", 3), Err("Invalid cursor position".to_string()));
    let change = incremental_change("same", "same").unwrap();
    assert_eq!((change.start, change.end, change.text.as_str()), (at(0, 4), at(0, 4), ""));
}

fn text(value: &str) -> HoverPart {
    HoverPart::Text { text: value.to_string(), plaintext: false, language: false }
}

fn code(value: &str) -> HoverPart {
    HoverPart::Text { text: value.to_string(), plaintext: false, language: true }
}

fn plain(value: &str) -> HoverPart {
    HoverPart::Text { text: value.to_string(), plaintext: true, language: false }
}

fn documentation(content: &HoverContent) -> String {
    content.documentation.iter().map(|&(start, end)| &content.text[start..end]).collect()
}

#[test]
fn hover_documentation_spans_preserve_code_and_plaintext_signatures() {
    let content = hover_content(&HoverPart::List(vec![
        code("fn greeting() -> &'static str"),
        text("Returns a greeting."),
        code("greeting();"),
    ]));
    assert_eq!(documentation(&content), "Returns a greeting.");
    let content = hover_content(&plain("crate_name\n\nfn greeting()\n\n\nReturns café.\nMore documentation."));
    let (start, end) = content.documentation[0];
    assert_eq!(&content.text[start..end], "Returns café.\nMore documentation.");
    let content = hover_content(&plain("fn greeting()"));
    assert!(content.documentation.is_empty());
    let markdown = HoverPart::Text {
        text: "Description\n```rust\nfn example() {}\n```\nMore description".to_string(),
        plaintext: false,
        language: false,
    };
    let content = hover_content(&markdown);
    assert_eq!(documentation(&content), "Description\nMore description");
}

#[test]
fn hover_parts_are_joined_and_empty_replies_explained() {
    assert_eq!(hover_content(&HoverPart::List(vec![text("one"), code("two")])).text, "one\ntwo");
    assert_eq!(hover_content(&text("**hello**")).text, "**hello**");
    let empty = hover_content(&HoverPart::Other);
    assert_eq!(empty.text, "No hover information at the cursor");
    assert!(empty.documentation.is_empty());
    let blank = hover_content(&HoverPart::List(vec![text("  "), text("\t")]));
    assert_eq!(blank.text, "No hover information at the cursor");
    let controls = hover_content(&text("a\u{7}b\tc"));
    assert_eq!(controls.text, "ab\tc");
    let long = "x".repeat(5000);
    assert_eq!(hover_content(&text(&long)).text.len(), 4096);
    let nested = HoverPart::List(vec![HoverPart::List(vec![text("a"), HoverPart::Other]), text("b")]);
    assert_eq!(hover_content(&nested).text, "a\nb");
}
