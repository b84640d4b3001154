use potyi::lsp::changes::{byte_position, position, LspPosition};
use potyi::lsp::completion::{items, CompletionEntry, CompletionReply};
use potyi::lsp::completion_edit::{prepare, CompletionChoice, RawRange, RawTextEdit};

fn pos(line: usize, character: usize) -> Option<LspPosition> {
    Some(LspPosition { line, character })
}

fn range(start: Option<LspPosition>, end: Option<LspPosition>) -> Option<RawRange> {
    Some(RawRange { start, end })
}

fn edit(range: Option<RawRange>, text: &str) -> RawTextEdit {
    RawTextEdit { range, new_text: Some(text.to_string()) }
}

fn choice(label: &str) -> CompletionChoice {
    CompletionChoice {
        snippet: false,
        has_command: false,
        text_edit: None,
        insert_text: None,
        label: Some(label.to_string()),
        additional: None,
    }
}

fn entry(label: &str, sort_text: Option<&str>, snippet: bool) -> CompletionEntry {
    CompletionEntry {
        label: Some(label.to_string()),
        sort_text: sort_text.map(str::to_string),
        snippet,
        size: 20,
    }
}

#[test]
fn unicode_completion_and_import_are_one_prepared_change() {
    let text = "// 😀\nobj.me";
    let mut item = choice("member");
    item.text_edit = Some(edit(range(pos(1, 4), pos(1, 6)), "member"));
    item.additional = Some(Some(vec![edit(range(pos(0, 0), pos(0, 0)), "use Foo;\n")]));
    let result = prepare(text, text.len(), &item).unwrap();
    assert_eq!(result.text, "use Foo;\n// 😀\nobj.member");
    assert_eq!(result.cursor, result.text.len());
    item.additional = Some(Some(vec![edit(range(pos(1, 5), pos(1, 5)), "use Foo;\n")]));
    assert!(prepare(text, text.len(), &item).err().unwrap().contains("Overlapping"));
}

#[test]
fn insertion_range_preserves_suffix_and_unicode_boundaries() {
    let mut item = choice("Foo");
    item.text_edit = Some(edit(range(pos(0, 4), pos(0, 4)), "Foo"));
    assert_eq!(prepare("obj.tail", 4, &item).unwrap().text, "obj.Footail");
    let mut invalid = choice("x");
    invalid.text_edit = Some(edit(range(pos(0, 1), pos(0, 2)), "x"));
    assert!(prepare("😀", 4, &invalid).is_err());
    let mut snippet = choice("method($0)");
    snippet.snippet = true;
    assert!(prepare("obj.", 4, &snippet).is_err());
}

#[test]
fn lists_are_sorted_bounded_and_exclude_snippets() {
    let reply = CompletionReply {
        null: false,
        has_defaults: false,
        list: Some(vec![entry("z", Some("0"), false), entry("a", None, false), entry("snippet", None, true)]),
    };
    let result = items(&reply).unwrap();
    assert_eq!(result.iter().map(|i| i.label.as_str()).collect::<Vec<_>>(), ["z", "a"]);
    let many = CompletionReply { null: false, has_defaults: false, list: Some((0..1000).map(|_| entry("x", None, false)).collect()) };
    assert_eq!(items(&many).unwrap().len(), 256);
}

#[test]
fn completion_replies_are_checked() {
    let null = CompletionReply { null: true, has_defaults: true, list: None };
    assert!(items(&null).unwrap().is_empty());
    let defaults = CompletionReply { null: false, has_defaults: true, list: Some(vec![]) };
    assert_eq!(items(&defaults).err().unwrap(), "Server returned unsupported completion defaults");
    let invalid = CompletionReply { null: false, has_defaults: false, list: None };
    assert_eq!(items(&invalid).err().unwrap(), "Invalid completion list");
    let mut big = entry("big", None, false);
    big.size = 600 * 1024;
    let reply = CompletionReply { null: false, has_defaults: false, list: Some(vec![entry("a", None, false), big]) };
    let offered = items(&reply).unwrap();
    assert_eq!(offered.len(), 1);
    assert_eq!(offered[0].index, 0);
}

#[test]
fn equal_keys_keep_reply_order_and_labels_are_cleaned() {
    let reply = CompletionReply {
        null: false,
        has_defaults: false,
        list: Some(vec![entry("b", Some("k"), false), entry("a\u{7}x", Some("k"), false), entry("c", Some("j"), false)]),
    };
    let offered = items(&reply).unwrap();
    assert_eq!(offered.iter().map(|i| (i.label.as_str(), i.index)).collect::<Vec<_>>(), [("c", 2), ("b", 0), ("ax", 1)]);
}

#[test]
fn completion_errors_name_the_problem() {
    let mut item = choice("x");
    item.has_command = true;
    assert_eq!(
        prepare("x", 0, &item).err().unwrap(),
        "This completion requires a server command; choose a plain member completion"
    );
    let mut outside = choice("x");
    outside.text_edit = Some(edit(range(pos(0, 0), pos(0, 1)), "y"));
    assert_eq!(prepare("ab", 2, &outside).err().unwrap(), "Completion edit does not contain the cursor");
    let mut missing = choice("x");
    missing.text_edit = Some(RawTextEdit { range: None, new_text: Some("y".to_string()) });
    assert_eq!(prepare("ab", 1, &missing).err().unwrap(), "Missing completion range");
    let mut backwards = choice("x");
    backwards.text_edit = Some(edit(range(pos(0, 2), pos(0, 1)), "y"));
    assert_eq!(prepare("ab", 1, &backwards).err().unwrap(), "Invalid completion edit range");
    let mut no_text = choice("x");
    no_text.label = None;
    assert_eq!(prepare("ab", 1, &no_text).err().unwrap(), "Missing completion text");
    let mut many = choice("x");
    many.additional = Some(Some((0..129).map(|_| edit(range(pos(0, 0), pos(0, 0)), "")).collect()));
    assert_eq!(prepare("ab", 1, &many).err().unwrap(), "Too many completion edits");
    let mut not_list = choice("x");
    not_list.additional = Some(None);
    assert_eq!(prepare("ab", 1, &not_list).err().unwrap(), "Invalid additional completion edits");
    let mut insert = choice("label");
    insert.insert_text = Some("text".to_string());
    let done = prepare("ab", 1, &insert).unwrap();
    assert_eq!((done.text.as_str(), done.cursor), ("atextb", 5));
}

#[test]
fn byte_positions_invert_positions() {
    let text = "a🦀é\r\nx";
    for byte in [0, 1, 5, 7, 9, 10] {
        let at = position(text, byte).unwrap();
        let back = byte_position(text, at).unwrap();
        assert_eq!(position(text, back).unwrap(), at);
        assert!(back <= byte);
    }
    assert_eq!(byte_position(text, LspPosition { line: 0, character: 2 }), None);
    assert_eq!(byte_position(text, LspPosition { line: 2, character: 0 }), None);
    assert_eq!(byte_position(text, LspPosition { line: 1, character: 1 }), Some(10));
}
