//! Copy, cut and paste between the editor and a text clipboard.
use vstd::prelude::*;
use vstd::utf8::{
    encode_scalar, encode_utf8, encode_utf8_decode_utf8, encode_utf8_valid_utf8, has_width_1_encoding,
    has_width_2_encoding, has_width_3_encoding, has_width_4_encoding, valid_utf8,
};
use crate::document::{Document, copy_bytes};
use crate::editor::{Editor, replaced, replacement_fits};
use crate::text::{push_str, string_from, string_from_utf8, string_into_bytes};

verus! {

/// A platform text clipboard.
pub trait TextClipboard {
    fn set_text(&self, text: &str) -> Result<(), String>;

    fn text(&self) -> Result<String, String>;
}

/// The selected bytes of a document: `[start, end)` of its text.
pub open spec fn selected_bytes(d: crate::document::DocV) -> Seq<u8> {
    let c = d.cursor;
    let start = if c.position < c.anchor { c.position } else { c.anchor };
    let end = if c.position < c.anchor { c.anchor } else { c.position };
    d.text.subrange(start as int, end as int)
}

/// The text that copying the selection hands to the clipboard: nothing when
/// nothing is selected, an error when the selection is not UTF-8 or holds
/// a NUL character (which a clipboard's C string cannot carry).
pub fn selection_text(table: &Document) -> (r: Result<Option<String>, String>)
    requires
        table.wf(),
    ensures
        table@.cursor.position == table@.cursor.anchor ==> r == Ok::<Option<String>, String>(None),
        table@.cursor.position != table@.cursor.anchor ==> {
            let b = selected_bytes(table@);
            &&& (!valid_utf8(b) ==> r is Err)
            &&& (valid_utf8(b) && b.contains(0u8) ==> (r matches Err(e) && e@ == "selection contains a NUL byte and cannot be copied as text"@))
            &&& (valid_utf8(b) && !b.contains(0u8) ==> (r matches Ok(Some(s)) && encode_utf8(s@) == b))
        },
{
    if !table.has_selection() {
        return Ok(None);
    }
    let start = table.selection_start();
    let end = table.selection_end();
    let bytes = match table.read_range(start, end - start) {
        Ok(v) => v,
        Err(e) => {
            return Err(e);
        },
    };
    let mut nul = false;
    let mut i: usize = 0;
    while i < bytes.len()
        invariant
            0 <= i <= bytes.len(),
            nul == exists|j: int| 0 <= j < i && bytes@[j] == 0u8,
        decreases bytes.len() - i,
    {
        if bytes[i] == 0 {
            nul = true;
        }
        i = i + 1;
    }
    assert(nul == bytes@.contains(0u8));
    let text = match string_from_utf8(bytes) {
        Ok(s) => s,
        Err(e) => {
            let mut message: Vec<char> = crate::text::chars_of("selection is not valid UTF-8: ");
            let detail = crate::text::chars_of(e.as_str());
            crate::text::extend_chars(&mut message, detail.as_slice());
            return Err(crate::text::string_of(message.as_slice()));
        },
    };
    if nul {
        return Err(string_from("selection contains a NUL byte and cannot be copied as text"));
    }
    Ok(Some(text))
}

/// Copies the selection to the clipboard (see `selection_text`); whether
/// there was a selection to copy.
pub fn copy_selection<C: TextClipboard>(clipboard: &C, table: &Document) -> (r: Result<bool, String>)
    requires
        table.wf(),
    ensures
        table@.cursor.position == table@.cursor.anchor ==> r == Ok::<bool, String>(false),
        r matches Ok(copied) ==> copied == (table@.cursor.position != table@.cursor.anchor),
        table@.cursor.position != table@.cursor.anchor ==> {
            let b = selected_bytes(table@);
            &&& (!valid_utf8(b) ==> r is Err)
            &&& (valid_utf8(b) && b.contains(0u8) ==> (r matches Err(e) && e@
                == "selection contains a NUL byte and cannot be copied as text"@))
        },
{
    match selection_text(table) {
        Ok(Some(text)) => match clipboard.set_text(text.as_str()) {
            Ok(()) => Ok(true),
            Err(e) => Err(e),
        },
        Ok(None) => Ok(false),
        Err(e) => Err(e),
    }
}

/// `s` with every `\r\n` and every other `\r` written as `\n`.
pub open spec fn normalized(s: Seq<char>) -> Seq<char>
    decreases s.len(),
{
    if s.len() == 0 {
        seq![]
    } else if s[0] == '\r' {
        if s.len() > 1 && s[1] == '\n' {
            seq!['\n'] + normalized(s.skip(2))
        } else {
            seq!['\n'] + normalized(s.skip(1))
        }
    } else {
        seq![s[0]] + normalized(s.skip(1))
    }
}

/// `normalized`, on UTF-8 bytes.
pub open spec fn crlf_to_lf(o: Seq<u8>) -> Seq<u8>
    decreases o.len(),
{
    if o.len() == 0 {
        seq![]
    } else if o[0] == 13 {
        if o.len() > 1 && o[1] == 10 {
            seq![10u8] + crlf_to_lf(o.skip(2))
        } else {
            seq![10u8] + crlf_to_lf(o.skip(1))
        }
    } else {
        seq![o[0]] + crlf_to_lf(o.skip(1))
    }
}

proof fn lemma_bytes_of_scalar(v: u32)
    requires
        has_width_1_encoding(v) || has_width_2_encoding(v) || has_width_3_encoding(v) || has_width_4_encoding(v),
    ensures
        encode_scalar(v).len() >= 1,
        encode_scalar(v)[0] == 13 <==> v == 13,
        encode_scalar(v)[0] == 10 <==> v == 10,
        forall|i: int| 0 < i < encode_scalar(v).len() ==> encode_scalar(v)[i] >= 0x80,
        v != 13 ==> forall|i: int| 0 <= i < encode_scalar(v).len() ==> encode_scalar(v)[i] != 13,
{
    if has_width_1_encoding(v) {
        assert((v & 0x7F) as u8 == v) by (bit_vector)
            requires v <= 0x7F;
    } else {
        assert(forall|x: u32| #![auto] (0xC0u8 | ((x >> 6) & 0x1F) as u8) >= 0xC0) by (bit_vector);
        assert(forall|x: u32| #![auto] (0xE0u8 | ((x >> 12) & 0x0F) as u8) >= 0xC0) by (bit_vector);
        assert(forall|x: u32| #![auto] (0xF0u8 | ((x >> 18) & 0x7) as u8) >= 0xC0) by (bit_vector);
        assert(forall|x: u32| #![auto] (0x80u8 | (x & 0x3F) as u8) >= 0x80) by (bit_vector);
        assert(forall|x: u32| #![auto] (0x80u8 | ((x >> 6) & 0x3F) as u8) >= 0x80) by (bit_vector);
        assert(forall|x: u32| #![auto] (0x80u8 | ((x >> 12) & 0x3F) as u8) >= 0x80) by (bit_vector);
    }
}

proof fn lemma_crlf_passes(p: Seq<u8>, rest: Seq<u8>)
    requires
        forall|i: int| 0 <= i < p.len() ==> p[i] != 13,
    ensures
        crlf_to_lf(p + rest) == p + crlf_to_lf(rest),
    decreases p.len(),
{
    if p.len() > 0 {
        assert((p + rest)[0] == p[0]);
        assert((p + rest).skip(1) =~= p.skip(1) + rest);
        lemma_crlf_passes(p.skip(1), rest);
        assert(seq![p[0]] + (p.skip(1) + crlf_to_lf(rest)) =~= p + crlf_to_lf(rest));
    } else {
        assert(p + rest =~= rest);
        assert(p + crlf_to_lf(rest) =~= crlf_to_lf(rest));
    }
}

proof fn lemma_encode_front(c: Seq<char>)
    requires
        c.len() > 0,
    ensures
        encode_utf8(c) == encode_scalar(c[0] as u32) + encode_utf8(c.skip(1)),
{
    assert(c.drop_first() =~= c.skip(1));
}

/// Rewriting line ends on the UTF-8 bytes of a text rewrites them on its characters.
proof fn lemma_crlf_encode(c: Seq<char>)
    ensures
        crlf_to_lf(encode_utf8(c)) == encode_utf8(normalized(c)),
    decreases c.len(),
{
    if c.len() == 0 {
    } else {
        lemma_encode_front(c);
        vstd::utf8::char_is_scalar(c[0]);
        lemma_bytes_of_scalar(c[0] as u32);
        let rest = c.skip(1);
        if c[0] == '\r' {
            assert(encode_scalar(13u32) =~= seq![13u8]) by {
                assert((13u32 & 0x7F) as u8 == 13u8) by (bit_vector);
            }
            assert((c[0] as u32) == 13u32);
            let e = encode_utf8(c);
            assert(e == seq![13u8] + encode_utf8(rest));
            assert(e[0] == 13u8);
            if c.len() > 1 && c[1] == '\n' {
                lemma_encode_front(rest);
                assert(rest[0] == '\n');
                assert(encode_scalar(10u32) =~= seq![10u8]) by {
                    assert((10u32 & 0x7F) as u8 == 10u8) by (bit_vector);
                }
                assert((rest[0] as u32) == 10u32);
                assert(e =~= seq![13u8, 10u8] + encode_utf8(rest.skip(1)));
                assert(e.skip(2) =~= encode_utf8(rest.skip(1)));
                assert(rest.skip(1) =~= c.skip(2));
                lemma_crlf_encode(c.skip(2));
                assert(encode_utf8(seq!['\n'] + normalized(c.skip(2))) == encode_scalar('\n' as u32)
                    + encode_utf8(normalized(c.skip(2)))) by {
                    lemma_encode_front(seq!['\n'] + normalized(c.skip(2)));
                    assert((seq!['\n'] + normalized(c.skip(2))).skip(1) =~= normalized(c.skip(2)));
                }
            } else {
                assert(e.skip(1) =~= encode_utf8(rest));
                if rest.len() > 0 {
                    lemma_encode_front(rest);
                    vstd::utf8::char_is_scalar(rest[0]);
                    lemma_bytes_of_scalar(rest[0] as u32);
                    assert(e[1] == encode_scalar(rest[0] as u32)[0]);
                    assert(rest[0] != '\n');
                    if (rest[0] as u32) == 10u32 {
                        vstd::utf8::char_u32_cast(rest[0], 10u32);
                        vstd::utf8::char_u32_cast('\n', 10u32);
                    }
                    assert((rest[0] as u32) != 10u32);
                }
                lemma_crlf_encode(rest);
                assert(encode_utf8(seq!['\n'] + normalized(rest)) == encode_scalar('\n' as u32)
                    + encode_utf8(normalized(rest))) by {
                    lemma_encode_front(seq!['\n'] + normalized(rest));
                    assert((seq!['\n'] + normalized(rest)).skip(1) =~= normalized(rest));
                }
                assert(encode_scalar(10u32) =~= seq![10u8]) by {
                    assert((10u32 & 0x7F) as u8 == 10u8) by (bit_vector);
                }
            }
        } else {
            if (c[0] as u32) == 13u32 {
                vstd::utf8::char_u32_cast(c[0], 13u32);
                vstd::utf8::char_u32_cast('\r', 13u32);
            }
            assert((c[0] as u32) != 13u32);
            lemma_crlf_passes(encode_scalar(c[0] as u32), encode_utf8(rest));
            lemma_crlf_encode(rest);
            assert(encode_utf8(seq![c[0]] + normalized(rest)) == encode_scalar(c[0] as u32)
                + encode_utf8(normalized(rest))) by {
                lemma_encode_front(seq![c[0]] + normalized(rest));
                assert((seq![c[0]] + normalized(rest)).skip(1) =~= normalized(rest));
            }
        }
    }
}

/// Writes every `\r\n`, and every other `\r`, as `\n`, reusing the string's
/// buffer.
pub fn normalize_line_endings(text: String) -> (r: String)
    ensures
        r@ == normalized(text@),
{
    let ghost chars = text@;
    let mut bytes = string_into_bytes(text);
    let ghost o = bytes@;
    let n = bytes.len();
    let mut read: usize = 0;
    let mut write: usize = 0;
    assert(o.skip(0) =~= o);
    assert(bytes@.take(0) =~= Seq::<u8>::empty());
    while read < n
        invariant
            0 <= write <= read <= n,
            n == o.len(),
            bytes@.len() == n,
            bytes@.subrange(read as int, n as int) == o.subrange(read as int, n as int),
            bytes@.take(write as int) + crlf_to_lf(o.skip(read as int)) == crlf_to_lf(o),
        decreases n - read,
    {
        let ghost before = bytes@;
        let ghost rest = o.skip(read as int);
        assert(rest[0] == o[read as int]);
        assert(bytes@[read as int] == o[read as int]) by {
            assert(bytes@.subrange(read as int, n as int)[0] == o.subrange(read as int, n as int)[0]);
        }
        if bytes[read] == 13 {
            bytes.set(write, 10);
            write = write + 1;
            read = read + 1;
            if read < n && bytes[read] == 10 {
                assert(bytes@[read as int] == o[read as int]) by {
                    assert(bytes@.subrange(read as int, n as int) =~= before.subrange(read as int, n as int));
                    assert(before.subrange(read - 1, n as int)[1] == o.subrange(read - 1, n as int)[1]);
                }
                read = read + 1;
                assert(rest.skip(2) =~= o.skip(read as int));
            } else {
                proof {
                    if read < n {
                        assert(bytes@[read as int] == before[read as int]);
                        assert(before.subrange(read - 1, n as int)[1] == o.subrange(read - 1, n as int)[1]);
                    }
                }
                assert(rest.skip(1) =~= o.skip(read as int));
            }
        } else {
            let b = bytes[read];
            bytes.set(write, b);
            write = write + 1;
            read = read + 1;
            assert(rest.skip(1) =~= o.skip(read as int));
        }
        assert(bytes@.take(write as int) =~= before.take(write - 1).push(bytes@[write - 1]));
        assert(bytes@.subrange(read as int, n as int) =~= o.subrange(read as int, n as int)) by {
            assert(bytes@.subrange(read as int, n as int) =~= before.subrange(read as int, n as int));
            assert(before.subrange(read as int, n as int) =~= before.subrange(read as int - 1, n as int).skip(
                1)) by {
                assert(read >= 1);
            }
        }
    }
    assert(o.skip(read as int) =~= Seq::<u8>::empty());
    assert(bytes@.take(write as int) =~= crlf_to_lf(o));
    bytes.truncate(write);
    proof {
        lemma_crlf_encode(chars);
        encode_utf8_valid_utf8(normalized(chars));
    }
    match string_from_utf8(bytes) {
        Ok(s) => {
            proof {
                encode_utf8_decode_utf8(s@);
                encode_utf8_decode_utf8(normalized(chars));
            }
            s
        },
        Err(_) => {
            assert(false);
            String::new()
        },
    }
}

/// Reads the clipboard's text with its line ends written as `\n`.
pub fn read_text<C: TextClipboard>(clipboard: &C) -> (r: Result<String, String>)
    ensures
        r matches Ok(t) ==> exists|s: Seq<char>| #[trigger] normalized(s) == t@,
{
    match clipboard.text() {
        Ok(text) => {
            let t = normalize_line_endings(text);
            assert(normalized(text@) == t@);
            Ok(t)
        },
        Err(e) => Err(e),
    }
}

/// What pasting `text` does to an editor: nothing when `text` is empty or
/// the editor is read-only, else the selection is replaced by `text`
/// where the result fits, and an error where it does not.
pub open spec fn pasted(before: Editor, after: Editor, r: Result<bool, String>, text: Seq<char>) -> bool {
    &&& text.len() == 0 ==> r == Ok::<bool, String>(false) && after == before
    &&& text.len() > 0 && before.read_only ==> r == Ok::<bool, String>(true) && after == before
    &&& text.len() > 0 && !before.read_only ==> {
        let c = before.document@.cursor;
        let start = if c.position < c.anchor { c.position } else { c.anchor };
        let end = if c.position < c.anchor { c.anchor } else { c.position };
        let t = before.document@.text;
        let rb = encode_utf8(text);
        &&& (replacement_fits(t, start as int, end as int, rb) ==> r == Ok::<bool, String>(true)
            && after.document@.text == replaced(t, start as int, end as int, rb))
        &&& (replacement_fits(t, start as int, end as int, rb) && t.subrange(start as int, end as int) != rb
            ==> crate::editor::one_change(before, after, start as int, end as int, rb))
        &&& (!replacement_fits(t, start as int, end as int, rb) ==> r is Err)
    }
}

/// Types `text` as one undo step; whether there was anything to type.
pub fn paste_text(editor: &mut Editor, text: String) -> (r: Result<bool, String>)
    requires
        old(editor).wf(),
    ensures
        final(editor).wf(),
        text@.len() == 0 ==> r == Ok::<bool, String>(false) && *final(editor) == *old(editor),
        text@.len() > 0 && old(editor).read_only ==> r == Ok::<bool, String>(true) && *final(editor) == *old(editor),
        text@.len() > 0 && !old(editor).read_only ==> {
            let c = old(editor).document@.cursor;
            let start = if c.position < c.anchor { c.position } else { c.anchor };
            let end = if c.position < c.anchor { c.anchor } else { c.position };
            let t = old(editor).document@.text;
            let rb = encode_utf8(text@);
            &&& (replacement_fits(t, start as int, end as int, rb) ==> r == Ok::<bool, String>(true)
                && final(editor).document@.text == replaced(t, start as int, end as int, rb))
            &&& (replacement_fits(t, start as int, end as int, rb) && t.subrange(start as int, end as int) != rb
                ==> crate::editor::one_change(*old(editor), *final(editor), start as int, end as int, rb))
            &&& (!replacement_fits(t, start as int, end as int, rb) ==> r is Err)
        },
{
    if text.as_str().is_empty() {
        return Ok(false);
    }
    match editor.insert(text.as_str()) {
        Ok(()) => Ok(true),
        Err(e) => Err(e),
    }
}

/// Pastes the clipboard's text (see `read_text`) as one undo step.
pub fn paste<C: TextClipboard>(clipboard: &C, editor: &mut Editor) -> (r: Result<bool, String>)
    requires
        old(editor).wf(),
    ensures
        final(editor).wf(),
        (r is Err && *final(editor) == *old(editor)) || exists|s: Seq<char>|
            pasted(*old(editor), *final(editor), r, #[trigger] normalized(s)),
{
    match read_text(clipboard) {
        Ok(text) => {
            let ghost s = choose|s: Seq<char>| #[trigger] normalized(s) == text@;
            let ghost before = *editor;
            let r = paste_text(editor, text);
            assert(pasted(before, *editor, r, normalized(s)));
            r
        },
        Err(e) => Err(e),
    }
}

/// Copies the selection and deletes it as one undo step; whether there
/// was a selection.
pub fn cut_selection<C: TextClipboard>(clipboard: &C, editor: &mut Editor) -> (r: Result<bool, String>)
    requires
        old(editor).wf(),
    ensures
        final(editor).wf(),
        old(editor).document@.cursor.position == old(editor).document@.cursor.anchor ==> r == Ok::<bool, String>(false)
            && *final(editor) == *old(editor),
        old(editor).document@.cursor.position != old(editor).document@.cursor.anchor ==> r == Ok::<bool, String>(true)
            || (r is Err && *final(editor) == *old(editor)),
        old(editor).document@.cursor.position != old(editor).document@.cursor.anchor ==> {
            let b = selected_bytes(old(editor).document@);
            &&& (!valid_utf8(b) ==> r is Err)
            &&& (valid_utf8(b) && b.contains(0u8) ==> (r matches Err(e) && e@
                == "selection contains a NUL byte and cannot be copied as text"@))
        },
        r == Ok::<bool, String>(true) && !old(editor).read_only ==> ({
            let c = old(editor).document@.cursor;
            let start = if c.position < c.anchor { c.position } else { c.anchor };
            let end = if c.position < c.anchor { c.anchor } else { c.position };
            crate::editor::one_change(*old(editor), *final(editor), start as int, end as int, seq![])
        }),
        r == Ok::<bool, String>(true) ==> final(editor).document@.text == if old(editor).read_only {
            old(editor).document@.text
        } else {
            let c = old(editor).document@.cursor;
            let start = if c.position < c.anchor { c.position } else { c.anchor };
            let end = if c.position < c.anchor { c.anchor } else { c.position };
            crate::document::spliced(old(editor).document@.text, start as int, end as int, seq![])
        },
{
    match copy_selection(clipboard, &editor.document) {
        Ok(true) => {},
        Ok(false) => {
            return Ok(false);
        },
        Err(e) => {
            return Err(e);
        },
    }
    match editor.delete_selection() {
        Ok(()) => Ok(true),
        Err(e) => Err(e),
    }
}

} // verus!
