//! Language-server positions of byte offsets, and the single edit that
//! turns one version of a document into the next.
use vstd::prelude::*;
use vstd::utf8::*;
use crate::document::is_continuation;
use crate::text::string_from;

verus! {

pub const LF: u8 = 10;
pub const CR: u8 = 13;

/// A position as language servers count it: a zero-based line and the
/// UTF-16 code units before it on that line.
#[derive(Clone, Copy, Debug, PartialEq, Eq, Structural)]
pub struct LspPosition {
    pub line: usize,
    pub character: usize,
}

/// Line feeds in `b`.
pub open spec fn newlines(b: Seq<u8>) -> nat
    decreases b.len(),
{
    if b.len() == 0 {
        0
    } else {
        newlines(b.drop_last()) + if b.last() == LF { 1nat } else { 0nat }
    }
}

/// Where the last line of `b` starts: just after its last line feed.
pub open spec fn last_line_start(b: Seq<u8>) -> int
    decreases b.len(),
{
    if b.len() == 0 {
        0
    } else if b.last() == LF {
        b.len() as int
    } else {
        last_line_start(b.drop_last())
    }
}

/// `b` without the carriage returns that end it.
pub open spec fn trim_cr(b: Seq<u8>) -> Seq<u8>
    decreases b.len(),
{
    if b.len() > 0 && b.last() == CR {
        trim_cr(b.drop_last())
    } else {
        b
    }
}

/// UTF-16 code units of the characters that the UTF-8 bytes `b` encode:
/// one per leading byte, two for a four-byte character.
pub open spec fn utf16_units(b: Seq<u8>) -> nat
    decreases b.len(),
{
    if b.len() == 0 {
        0
    } else {
        utf16_units(b.drop_last()) + byte_units(b.last())
    }
}

pub open spec fn byte_units(x: u8) -> nat {
    if is_continuation_byte(x) {
        0
    } else if x >= 0xf0 {
        2
    } else {
        1
    }
}

/// Whether offset `k` of `b` starts a character (or ends the text), as
/// `str::is_char_boundary` decides.
pub open spec fn char_boundary(b: Seq<u8>, k: int) -> bool {
    k == 0 || k == b.len() || (0 < k < b.len() && !is_continuation_byte(b[k]))
}

/// The language-server position of byte offset `k` of `b`: the line feeds
/// before it, and the code units between the line's start and `k`, not
/// counting carriage returns just before `k`; none where `k` is not a
/// character boundary.
pub open spec fn lsp_position(b: Seq<u8>, k: int) -> Option<(nat, nat)> {
    if char_boundary(b, k) {
        let p = b.take(k);
        Some((newlines(p), utf16_units(trim_cr(p.skip(last_line_start(p))))))
    } else {
        None
    }
}

proof fn lemma_units_append(a: Seq<u8>, c: Seq<u8>)
    ensures
        utf16_units(a + c) == utf16_units(a) + utf16_units(c),
    decreases c.len(),
{
    if c.len() == 0 {
        assert(a + c =~= a);
    } else {
        lemma_units_append(a, c.drop_last());
        assert((a + c).drop_last() =~= a + c.drop_last());
    }
}

/// The code units of valid UTF-8 are at most its bytes.
proof fn lemma_units_le_len(b: Seq<u8>)
    requires
        valid_utf8(b),
    ensures
        utf16_units(b) <= b.len(),
    decreases b.len(),
{
    if b.len() > 0 {
        let first = take_first_scalar(b);
        let rest = pop_first_scalar(b);
        assert(b =~= first + rest);
        lemma_units_append(first, rest);
        lemma_units_le_len(rest);
        let n = first.len() as int;
        assert(first.subrange(0, 0) =~= Seq::<u8>::empty());
        assert(first.subrange(0, n) =~= first);
        assert(1 <= n <= 4);
        lemma_units_step(first, 0, 0);
        if n >= 2 {
            lemma_units_step(first, 0, 1);
        }
        if n >= 3 {
            lemma_units_step(first, 0, 2);
        }
        if n >= 4 {
            lemma_units_step(first, 0, 3);
        }
    }
}

/// A part of `b` has no more code units than `b`.
proof fn lemma_units_sub(b: Seq<u8>, i: int, j: int)
    requires
        0 <= i <= j <= b.len(),
    ensures
        utf16_units(b.subrange(i, j)) <= utf16_units(b),
{
    assert(b =~= b.subrange(0, i) + b.subrange(i, j) + b.subrange(j, b.len() as int));
    lemma_units_append(b.subrange(0, i) + b.subrange(i, j), b.subrange(j, b.len() as int));
    lemma_units_append(b.subrange(0, i), b.subrange(i, j));
}

proof fn lemma_trim_cr_prefix(b: Seq<u8>)
    ensures
        trim_cr(b).len() <= b.len(),
        trim_cr(b) == b.take(trim_cr(b).len() as int),
        forall|k: int| trim_cr(b).len() <= k < b.len() ==> b[k] == CR,
        trim_cr(b).len() > 0 ==> trim_cr(b).last() != CR,
    decreases b.len(),
{
    if b.len() > 0 && b.last() == CR {
        lemma_trim_cr_prefix(b.drop_last());
        assert(b.drop_last().take(trim_cr(b).len() as int) =~= b.take(trim_cr(b).len() as int));
        assert forall|k: int| trim_cr(b).len() <= k < b.len() implies b[k] == CR by {
            if k < b.len() - 1 {
                assert(b.drop_last()[k] == b[k]);
            }
        }
    } else {
        assert(b.take(b.len() as int) =~= b);
    }
}

proof fn lemma_newlines_step(b: Seq<u8>, i: int)
    requires
        0 <= i < b.len(),
    ensures
        newlines(b.take(i + 1)) == newlines(b.take(i)) + if b[i] == LF { 1nat } else { 0nat },
        last_line_start(b.take(i + 1)) == if b[i] == LF { i + 1 } else { last_line_start(b.take(i)) },
{
    assert(b.take(i + 1).drop_last() =~= b.take(i));
}

proof fn lemma_line_start_bounds(b: Seq<u8>)
    ensures
        0 <= last_line_start(b) <= b.len(),
        forall|k: int| last_line_start(b) <= k < b.len() ==> b[k] != LF,
        last_line_start(b) > 0 ==> b[last_line_start(b) - 1] == LF,
    decreases b.len(),
{
    if b.len() > 0 && b.last() != LF {
        lemma_line_start_bounds(b.drop_last());
        assert forall|k: int| last_line_start(b) <= k < b.len() implies b[k] != LF by {
            if k < b.len() - 1 {
                assert(b.drop_last()[k] == b[k]);
            }
        }
    }
}

proof fn lemma_units_step(b: Seq<u8>, i: int, j: int)
    requires
        0 <= i <= j < b.len(),
    ensures
        utf16_units(b.subrange(i, j + 1)) == utf16_units(b.subrange(i, j)) + byte_units(b[j]),
{
    assert(b.subrange(i, j + 1).drop_last() =~= b.subrange(i, j));
}

/// The language-server position of byte offset `byte` of `text`.
pub fn position(text: &str, byte: usize) -> (r: Result<LspPosition, String>)
    ensures
        match lsp_position(encode_utf8(text@), byte as int) {
            Some((line, character)) => r matches Ok(p) && p.line == line && p.character == character,
            None => r matches Err(e) && e@ == "Invalid cursor position"@,
        },
{
    let b = text.as_bytes();
    let ghost s = b@;
    if !(byte == 0 || byte == b.len() || (byte < b.len() && !is_continuation(b[byte]))) {
        return Err(string_from("Invalid cursor position"));
    }
    let ghost p = s.take(byte as int);
    let mut line: usize = 0;
    let mut start: usize = 0;
    let mut i: usize = 0;
    assert(s.take(0) =~= Seq::<u8>::empty());
    while i < byte
        invariant
            0 <= i <= byte <= b.len(),
            b@ == s,
            p == s.take(byte as int),
            line == newlines(s.take(i as int)),
            start == last_line_start(s.take(i as int)),
            line <= i,
        decreases byte - i,
    {
        proof {
            lemma_newlines_step(s, i as int);
        }
        if b[i] == LF {
            line = line + 1;
            start = i + 1;
        }
        i = i + 1;
    }
    proof {
        lemma_line_start_bounds(p);
    }
    let mut end: usize = byte;
    assert(p.skip(start as int) =~= s.subrange(start as int, byte as int));
    while end > start && b[end - 1] == CR
        invariant
            start <= end <= byte <= b.len(),
            b@ == s,
            p == s.take(byte as int),
            start == last_line_start(p),
            trim_cr(p.skip(start as int)) == trim_cr(s.subrange(start as int, end as int)),
        decreases end,
    {
        assert(s.subrange(start as int, end as int).drop_last() =~= s.subrange(start as int, end as int - 1));
        end = end - 1;
    }
    assert(p.skip(start as int) =~= s.subrange(start as int, byte as int));
    assert(trim_cr(s.subrange(start as int, end as int)) == s.subrange(start as int, end as int)) by {
        if end > start {
            assert(s.subrange(start as int, end as int).last() == s[end - 1]);
        }
    }
    proof {
        lemma_units_sub(s, start as int, end as int);
        encode_utf8_valid_utf8(text@);
        lemma_units_le_len(s);
    }
    let mut character: usize = 0;
    let mut j: usize = start;
    assert(s.subrange(start as int, start as int) =~= Seq::<u8>::empty());
    while j < end
        invariant
            start <= j <= end <= b.len(),
            b@ == s,
            character == utf16_units(s.subrange(start as int, j as int)),
            utf16_units(s.subrange(start as int, end as int)) <= b.len(),
        decreases end - j,
    {
        proof {
            lemma_units_step(s, start as int, j as int);
            assert(s.subrange(start as int, end as int) =~= s.subrange(start as int, j as int + 1)
                + s.subrange(j as int + 1, end as int));
            lemma_units_append(s.subrange(start as int, j as int + 1), s.subrange(j as int + 1, end as int));
        }
        let x = b[j];
        if !is_continuation(x) {
            character = character + if x >= 0xf0 { 2 } else { 1 };
        }
        j = j + 1;
    }
    Ok(LspPosition { line, character })
}

/// The bytes that `a` and `b` share at their start, counted from `i`.
pub open spec fn common_prefix(a: Seq<u8>, b: Seq<u8>, i: int) -> int
    decreases a.len() - i,
{
    if 0 <= i < a.len() && i < b.len() && a[i] == b[i] {
        common_prefix(a, b, i + 1)
    } else {
        i
    }
}

/// The greatest offset up to `k` that is a character boundary of both.
pub open spec fn back_to_boundary(a: Seq<u8>, b: Seq<u8>, k: int) -> int
    decreases k,
{
    if k <= 0 || (char_boundary(a, k) && char_boundary(b, k)) {
        k
    } else {
        back_to_boundary(a, b, k - 1)
    }
}

/// Where the change from `a` to `b` starts: after their common start,
/// taken back to a character boundary, and before a carriage return that
/// would otherwise be split from its line feed.
pub open spec fn change_start(a: Seq<u8>, b: Seq<u8>) -> int {
    let k = back_to_boundary(a, b, common_prefix(a, b, 0));
    if k > 0 && (a[k - 1] == CR || b[k - 1] == CR) {
        k - 1
    } else {
        k
    }
}

/// The bytes that `a` and `b` share at their end, counted from `j`, not
/// reaching back before `start`.
pub open spec fn common_suffix(a: Seq<u8>, b: Seq<u8>, start: int, j: int) -> int
    decreases a.len() - start - j,
{
    if 0 <= j && j < a.len() - start && j < b.len() - start && a[a.len() - 1 - j] == b[b.len() - 1 - j] {
        common_suffix(a, b, start, j + 1)
    } else {
        j
    }
}

/// The longest shared end, up to `s` bytes, that begins on a character
/// boundary of both.
pub open spec fn back_suffix(a: Seq<u8>, b: Seq<u8>, s: int) -> int
    decreases s,
{
    if s <= 0 || (char_boundary(a, a.len() - s) && char_boundary(b, b.len() - s)) {
        s
    } else {
        back_suffix(a, b, s - 1)
    }
}

/// How many bytes at the end the change leaves alone: the shared end,
/// taken to a character boundary, without a line feed that starts it.
pub open spec fn change_suffix(a: Seq<u8>, b: Seq<u8>, start: int) -> int {
    let s = back_suffix(a, b, common_suffix(a, b, start, 0));
    if s > 0 && (a[a.len() - s] == LF || b[b.len() - s] == LF) {
        s - 1
    } else {
        s
    }
}

/// Whether the `j`-th bytes from the ends of `a` and `b` are equal.
pub open spec fn ends_match(a: Seq<u8>, b: Seq<u8>, j: int) -> bool {
    a[a.len() - 1 - j] == b[b.len() - 1 - j]
}

/// One edit a language server applies: replace the text between two
/// positions by `text`.
pub struct TextChange {
    pub start: LspPosition,
    pub end: LspPosition,
    pub text: String,
}

/// Whether `k` is a character boundary of `b`.
fn is_boundary(b: &[u8], k: usize) -> (r: bool)
    requires
        k <= b.len(),
    ensures
        r == char_boundary(b@, k as int),
{
    k == 0 || k == b.len() || !is_continuation(b[k])
}

/// In valid UTF-8 a character boundary is one in the sense of `str`.
proof fn lemma_boundary_valid(b: Seq<u8>, k: int)
    requires
        valid_utf8(b),
        char_boundary(b, k),
    ensures
        is_char_boundary(b, k),
{
    is_char_boundary_start_end_of_seq(b);
    if 0 < k < b.len() {
        is_char_boundary_iff_not_is_continuation_byte(b, k);
    }
}

/// In valid UTF-8 a character starts right after an ASCII byte.
proof fn lemma_after_ascii(bytes: Seq<u8>, i: int)
    requires
        valid_utf8(bytes),
        is_char_boundary(bytes, i),
        0 <= i < bytes.len(),
        bytes[i] < 0x80,
    ensures
        is_char_boundary(bytes, i + 1),
    decreases bytes.len(),
{
    reveal_with_fuel(is_char_boundary, 2);
    let l = length_of_first_scalar(bytes);
    let rest = pop_first_scalar(bytes);
    if i > 0 {
        assert(rest[i - l] == bytes[i]);
        lemma_after_ascii(rest, i - l);
    }
}

/// Where the change from `a` to `b` starts (see `change_start`).
fn change_start_of(a: &[u8], b: &[u8]) -> (k: usize)
    requires
        valid_utf8(a@),
        valid_utf8(b@),
    ensures
        k == change_start(a@, b@),
        k <= a.len(),
        k <= b.len(),
        char_boundary(a@, k as int),
        char_boundary(b@, k as int),
{
    let ghost sa = a@;
    let ghost sb = b@;
    let mut start: usize = 0;
    while start < a.len() && start < b.len() && a[start] == b[start]
        invariant
            0 <= start <= a.len(),
            start <= b.len(),
            a@ == sa,
            b@ == sb,
            common_prefix(sa, sb, 0) == common_prefix(sa, sb, start as int),
            forall|i: int| 0 <= i < start ==> sa[i] == sb[i],
        decreases a.len() - start,
    {
        start = start + 1;
    }
    let ghost p0 = start as int;
    assert(common_prefix(sa, sb, 0) == p0);
    while !(is_boundary(a, start) && is_boundary(b, start))
        invariant
            0 <= start <= p0,
            p0 <= a.len(),
            p0 <= b.len(),
            a@ == sa,
            b@ == sb,
            back_to_boundary(sa, sb, p0) == back_to_boundary(sa, sb, start as int),
        decreases start,
    {
        start = start - 1;
    }
    assert(back_to_boundary(sa, sb, p0) == start as int);
    if start > 0 && (a[start - 1] == CR || b[start - 1] == CR) {
        assert(sa[start - 1] == sb[start - 1]);
        start = start - 1;
    }
    start
}

/// How many bytes at the end the change leaves alone (see `change_suffix`).
fn change_suffix_of(a: &[u8], b: &[u8], start: usize) -> (s: usize)
    requires
        valid_utf8(a@),
        valid_utf8(b@),
        start <= a.len(),
        start <= b.len(),
    ensures
        s == change_suffix(a@, b@, start as int),
        s <= a.len() - start,
        s <= b.len() - start,
        char_boundary(a@, a.len() - s),
        char_boundary(b@, b.len() - s),
{
    let ghost sa = a@;
    let ghost sb = b@;
    let mut suffix: usize = 0;
    while suffix < a.len() - start && suffix < b.len() - start && a[a.len() - 1 - suffix] == b[b.len() - 1 - suffix]
        invariant
            start <= a.len(),
            start <= b.len(),
            0 <= suffix <= a.len() - start,
            suffix <= b.len() - start,
            a@ == sa,
            b@ == sb,
            common_suffix(sa, sb, start as int, 0) == common_suffix(sa, sb, start as int, suffix as int),
            forall|j: int| 0 <= j < suffix ==> #[trigger] ends_match(sa, sb, j),
        decreases a.len() - start - suffix,
    {
        assert(ends_match(sa, sb, suffix as int));
        suffix = suffix + 1;
    }
    let ghost s0 = suffix as int;
    assert(common_suffix(sa, sb, start as int, 0) == s0);
    while !(is_boundary(a, a.len() - suffix) && is_boundary(b, b.len() - suffix))
        invariant
            0 <= suffix <= s0,
            s0 <= a.len() - start,
            s0 <= b.len() - start,
            start <= a.len(),
            start <= b.len(),
            a@ == sa,
            b@ == sb,
            back_suffix(sa, sb, s0) == back_suffix(sa, sb, suffix as int),
            forall|j: int| 0 <= j < s0 ==> #[trigger] ends_match(sa, sb, j),
        decreases suffix,
    {
        suffix = suffix - 1;
    }
    assert(back_suffix(sa, sb, s0) == suffix as int);
    if suffix > 0 && (a[a.len() - suffix] == LF || b[b.len() - suffix] == LF) {
        proof {
            let k = sa.len() - suffix;
            let m = sb.len() - suffix;
            assert(ends_match(sa, sb, suffix - 1));
            lemma_boundary_valid(sa, k);
            lemma_boundary_valid(sb, m);
            lemma_after_ascii(sa, k);
            lemma_after_ascii(sb, m);
            if k + 1 < sa.len() {
                is_char_boundary_iff_not_is_continuation_byte(sa, k + 1);
            }
            if m + 1 < sb.len() {
                is_char_boundary_iff_not_is_continuation_byte(sb, m + 1);
            }
        }
        suffix = suffix - 1;
    }
    suffix
}

/// The text that bytes `from` to `to` of valid UTF-8 encode, both ends
/// being character boundaries.
fn text_between(b: &[u8], from: usize, to: usize) -> (r: Result<String, String>)
    requires
        valid_utf8(b@),
        from <= to <= b.len(),
        char_boundary(b@, from as int),
        char_boundary(b@, to as int),
    ensures
        r matches Ok(t) && encode_utf8(t@) == b@.subrange(from as int, to as int),
{
    let mut bytes: Vec<u8> = Vec::new();
    let mut k: usize = from;
    while k < to
        invariant
            from <= k <= to <= b.len(),
            bytes@ == b@.subrange(from as int, k as int),
        decreases to - k,
    {
        bytes.push(b[k]);
        assert(bytes@ =~= b@.subrange(from as int, k + 1));
        k = k + 1;
    }
    proof {
        lemma_valid_between(b@, from as int, to as int);
    }
    crate::text::string_from_utf8(bytes)
}

/// The edit that turns `old` into `new`: what lies between their common
/// start and common end (see `change_start` and `change_suffix`), with
/// both ends given as positions in `old`.
pub fn incremental_change(old: &str, new: &str) -> (r: Result<TextChange, String>)
    ensures
        ({
            let a = encode_utf8(old@);
            let b = encode_utf8(new@);
            let st = change_start(a, b);
            let sf = change_suffix(a, b, st);
            r matches Ok(c) && lsp_position(a, st) == Some((c.start.line as nat, c.start.character as nat))
                && lsp_position(a, a.len() - sf) == Some((c.end.line as nat, c.end.character as nat))
                && encode_utf8(c.text@) == b.subrange(st, b.len() - sf)
        }),
{
    let a = old.as_bytes();
    let b = new.as_bytes();
    proof {
        encode_utf8_valid_utf8(old@);
        encode_utf8_valid_utf8(new@);
    }
    let start = change_start_of(a, b);
    let suffix = change_suffix_of(a, b, start);
    let from = match position(old, start) {
        Ok(p) => p,
        Err(e) => return Err(e),
    };
    let to = match position(old, a.len() - suffix) {
        Ok(p) => p,
        Err(e) => return Err(e),
    };
    match text_between(b, start, b.len() - suffix) {
        Ok(text) => Ok(TextChange { start: from, end: to, text }),
        Err(e) => Err(e),
    }
}

/// The first byte offset of `b`, from `k` on, whose language-server
/// position is `target`.
pub open spec fn first_offset(b: Seq<u8>, target: (nat, nat), k: int) -> Option<int>
    decreases b.len() + 1 - k,
{
    if k < 0 || k > b.len() {
        None
    } else if lsp_position(b, k) == Some(target) {
        Some(k)
    } else {
        first_offset(b, target, k + 1)
    }
}

/// Carriage returns at the end of `b`.
pub open spec fn trailing_crs(b: Seq<u8>) -> nat {
    (b.len() - trim_cr(b).len()) as nat
}

proof fn lemma_units_trim_cr(b: Seq<u8>)
    ensures
        utf16_units(trim_cr(b)) + trailing_crs(b) == utf16_units(b),
{
    lemma_trim_cr_prefix(b);
    let m = trim_cr(b).len() as int;
    assert(b =~= b.take(m) + b.subrange(m, b.len() as int));
    lemma_units_append(b.take(m), b.subrange(m, b.len() as int));
    lemma_units_crs(b.subrange(m, b.len() as int));
}

proof fn lemma_units_crs(c: Seq<u8>)
    requires
        forall|k: int| 0 <= k < c.len() ==> c[k] == CR,
    ensures
        utf16_units(c) == c.len(),
    decreases c.len(),
{
    if c.len() > 0 {
        lemma_units_crs(c.drop_last());
    }
}

proof fn lemma_trim_cr_push(b: Seq<u8>, x: u8)
    ensures
        x == CR ==> trim_cr(b.push(x)) == trim_cr(b),
        x != CR ==> trim_cr(b.push(x)) == b.push(x),
{
    assert(b.push(x).drop_last() =~= b);
}

proof fn lemma_newlines_monotonic(b: Seq<u8>, i: int, j: int)
    requires
        0 <= i <= j <= b.len(),
    ensures
        newlines(b.take(i)) <= newlines(b.take(j)),
    decreases j - i,
{
    if i < j {
        lemma_newlines_monotonic(b, i, j - 1);
        lemma_newlines_step(b, j - 1);
    }
}

/// The first byte offset of `text` whose position is `target` (see
/// `first_offset`).
pub fn byte_position(text: &str, target: LspPosition) -> (r: Option<usize>)
    ensures
        first_offset(encode_utf8(text@), (target.line as nat, target.character as nat), 0) == match r {
            Some(k) => Some(k as int),
            None => None::<int>,
        },
{
    let b = text.as_bytes();
    let ghost s = b@;
    let ghost t = (target.line as nat, target.character as nat);
    proof {
        encode_utf8_valid_utf8(text@);
        lemma_units_le_len(s);
    }
    let mut line: usize = 0;
    let mut start: usize = 0;
    let mut units: usize = 0;
    let mut crs: usize = 0;
    let mut k: usize = 0;
    assert(s.take(0) =~= Seq::<u8>::empty());
    assert(s.subrange(0, 0) =~= Seq::<u8>::empty());
    loop
        invariant
            0 <= k <= b.len(),
            b@ == s,
            s == encode_utf8(text@),
            t == (target.line as nat, target.character as nat),
            utf16_units(s) <= s.len(),
            line == newlines(s.take(k as int)),
            line <= k,
            start == last_line_start(s.take(k as int)),
            start <= k,
            units == utf16_units(s.subrange(start as int, k as int)),
            crs == trailing_crs(s.subrange(start as int, k as int)),
            first_offset(s, t, 0) == first_offset(s, t, k as int),
        decreases b.len() + 1 - k,
    {
        proof {
            lemma_line_start_bounds(s.take(k as int));
            lemma_units_trim_cr(s.subrange(start as int, k as int));
            assert(s.take(k as int).skip(start as int) =~= s.subrange(start as int, k as int));
        }
        let ghost here = lsp_position(s, k as int);
        assert(char_boundary(s, k as int) ==> here == Some((line as nat, (units - crs) as nat)));
        if is_boundary(b, k) && line == target.line && units - crs == target.character {
            assert(here == Some(t));
            assert(first_offset(s, t, k as int) == Some(k as int));
            return Some(k);
        }
        assert(here != Some(t));
        if k == b.len() || line > target.line {
            proof {
                if k < b.len() {
                    assert forall|j: int| k <= j <= s.len() implies #[trigger] lsp_position(s, j) != Some(t) by {
                        lemma_newlines_monotonic(s, k as int, j);
                    }
                } else {
                    assert forall|j: int| k <= j <= s.len() implies #[trigger] lsp_position(s, j) != Some(t) by {
                        assert(j == k);
                    }
                }
                lemma_no_offset(s, t, k as int);
            }
            return None;
        }
        let x = b[k];
        proof {
            lemma_newlines_step(s, k as int);
            lemma_units_step(s, start as int, k as int);
            lemma_trim_cr_push(s.subrange(start as int, k as int), x);
            lemma_trim_cr_prefix(s.subrange(start as int, k as int));
            lemma_trim_cr_prefix(s.subrange(start as int, k + 1));
            assert(s.subrange(start as int, k + 1) =~= s.subrange(start as int, k as int).push(x));
            lemma_units_sub(s, start as int, k + 1);
        }
        if x == LF {
            line = line + 1;
            start = k + 1;
            units = 0;
            crs = 0;
            assert(s.subrange(k + 1, k + 1) =~= Seq::<u8>::empty());
        } else {
            units = units + if is_continuation(x) { 0 } else if x >= 0xf0 { 2 } else { 1 };
            crs = if x == CR { crs + 1 } else { 0 };
        }
        k = k + 1;
    }
}

proof fn lemma_no_offset(b: Seq<u8>, t: (nat, nat), k: int)
    requires
        0 <= k <= b.len(),
        forall|j: int| k <= j <= b.len() ==> #[trigger] lsp_position(b, j) != Some(t),
    ensures
        first_offset(b, t, k) is None,
    decreases b.len() + 1 - k,
{
    if k < b.len() {
        lemma_no_offset(b, t, k + 1);
    } else {
        assert(first_offset(b, t, k + 1) is None);
    }
}

/// Bytes between two character boundaries of valid UTF-8 are valid UTF-8.
pub proof fn lemma_valid_between(b: Seq<u8>, from: int, to: int)
    requires
        valid_utf8(b),
        0 <= from <= to <= b.len(),
        char_boundary(b, from),
        char_boundary(b, to),
    ensures
        valid_utf8(b.subrange(from, to)),
{
    let t = b.subrange(from, b.len() as int);
    lemma_boundary_valid(b, from);
    valid_utf8_split(b, from);
    assert(char_boundary(t, to - from)) by {
        if 0 < to - from < t.len() {
            assert(t[to - from] == b[to]);
        }
    }
    lemma_boundary_valid(t, to - from);
    valid_utf8_split(t, to - from);
    assert(t.subrange(0, to - from) =~= b.subrange(from, to));
}

/// The offset `first_offset` finds is a character boundary with that
/// position.
pub proof fn lemma_first_offset(b: Seq<u8>, t: (nat, nat), j: int)
    requires
        first_offset(b, t, j) is Some,
    ensures
        j <= first_offset(b, t, j)->0 <= b.len(),
        0 <= first_offset(b, t, j)->0,
        lsp_position(b, first_offset(b, t, j)->0) == Some(t),
        char_boundary(b, first_offset(b, t, j)->0),
    decreases b.len() + 1 - j,
{
    if 0 <= j <= b.len() && lsp_position(b, j) != Some(t) {
        lemma_first_offset(b, t, j + 1);
    }
}

proof fn lemma_common_prefix(a: Seq<u8>, b: Seq<u8>, i: int)
    requires
        0 <= i <= a.len(),
        i <= b.len(),
        forall|j: int| 0 <= j < i ==> a[j] == b[j],
    ensures
        i <= common_prefix(a, b, i) <= a.len(),
        common_prefix(a, b, i) <= b.len(),
        forall|j: int| 0 <= j < common_prefix(a, b, i) ==> a[j] == b[j],
    decreases a.len() - i,
{
    if i < a.len() && i < b.len() && a[i] == b[i] {
        lemma_common_prefix(a, b, i + 1);
    }
}

proof fn lemma_back_to_boundary(a: Seq<u8>, b: Seq<u8>, k: int)
    requires
        0 <= k,
    ensures
        0 <= back_to_boundary(a, b, k) <= k,
    decreases k,
{
    if k > 0 && !(char_boundary(a, k) && char_boundary(b, k)) {
        lemma_back_to_boundary(a, b, k - 1);
    }
}

proof fn lemma_common_suffix(a: Seq<u8>, b: Seq<u8>, start: int, j: int)
    requires
        0 <= start,
        0 <= j <= a.len() - start,
        j <= b.len() - start,
        forall|i: int| 0 <= i < j ==> #[trigger] ends_match(a, b, i),
    ensures
        j <= common_suffix(a, b, start, j) <= a.len() - start,
        common_suffix(a, b, start, j) <= b.len() - start,
        forall|i: int| 0 <= i < common_suffix(a, b, start, j) ==> #[trigger] ends_match(a, b, i),
    decreases a.len() - start - j,
{
    if j < a.len() - start && j < b.len() - start && a[a.len() - 1 - j] == b[b.len() - 1 - j] {
        assert(ends_match(a, b, j));
        lemma_common_suffix(a, b, start, j + 1);
    }
}

proof fn lemma_back_suffix(a: Seq<u8>, b: Seq<u8>, s: int)
    requires
        0 <= s,
    ensures
        0 <= back_suffix(a, b, s) <= s,
    decreases s,
{
    if s > 0 && !(char_boundary(a, a.len() - s) && char_boundary(b, b.len() - s)) {
        lemma_back_suffix(a, b, s - 1);
    }
}

/// Applying the change from `a` to `b` to `a` gives `b`: the text before
/// the change and the text after it are shared by both.
pub proof fn lemma_change_rebuilds(a: Seq<u8>, b: Seq<u8>)
    ensures
        ({
            let st = change_start(a, b);
            let sf = change_suffix(a, b, st);
            &&& 0 <= st <= a.len() - sf
            &&& st <= b.len() - sf
            &&& a.take(st) + b.subrange(st, b.len() - sf) + a.subrange(a.len() - sf, a.len() as int) == b
        }),
{
    lemma_common_prefix(a, b, 0);
    let p = common_prefix(a, b, 0);
    lemma_back_to_boundary(a, b, p);
    let st = change_start(a, b);
    lemma_common_suffix(a, b, st, 0);
    let s0 = common_suffix(a, b, st, 0);
    lemma_back_suffix(a, b, s0);
    let sf = change_suffix(a, b, st);
    assert(a.take(st) =~= b.take(st));
    assert(a.subrange(a.len() - sf, a.len() as int) =~= b.subrange(b.len() - sf, b.len() as int)) by {
        assert forall|m: int| 0 <= m < sf implies #[trigger] a.subrange(a.len() - sf, a.len() as int)[m]
            == b.subrange(b.len() - sf, b.len() as int)[m] by {
            assert(ends_match(a, b, sf - 1 - m));
        }
    }
    assert(b.take(st) + b.subrange(st, b.len() - sf) + b.subrange(b.len() - sf, b.len() as int) =~= b);
}

/// Every character boundary's position is found again, at the same or an
/// earlier offset, and the offset found has that position.
pub proof fn lemma_position_found(b: Seq<u8>, k: int)
    requires
        char_boundary(b, k),
    ensures
        first_offset(b, lsp_position(b, k)->0, 0) is Some,
        first_offset(b, lsp_position(b, k)->0, 0)->0 <= k,
        lsp_position(b, first_offset(b, lsp_position(b, k)->0, 0)->0) == lsp_position(b, k),
{
    let t = lsp_position(b, k)->0;
    lemma_found_by(b, t, k, 0);
    lemma_first_offset(b, t, 0);
}

proof fn lemma_found_by(b: Seq<u8>, t: (nat, nat), k: int, j: int)
    requires
        0 <= j <= k <= b.len(),
        lsp_position(b, k) == Some(t),
    ensures
        first_offset(b, t, j) is Some,
        first_offset(b, t, j)->0 <= k,
    decreases k - j,
{
    if j < k && lsp_position(b, j) != Some(t) {
        lemma_found_by(b, t, k, j + 1);
    }
}

} // verus!
