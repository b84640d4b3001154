//! The built-in indenter: conservative re-indentation of C-style code and
//! JSON by bracket depth, refusing input it cannot read safely.
use vstd::prelude::*;
use crate::command_bar::suggest::{ascii_lower, ascii_lower_exec};
use crate::formatting::positions::{opt_chars, MAX_OUTPUT_BYTES};
use crate::formatting::providers::{file_view, FileInfo};
use crate::text::{chars_of, eq_str, string_from};

verus! {

/// Whether the built-in indenter handles files with this (lower-case)
/// extension.
pub open spec fn builtin_language(e: Seq<char>) -> bool {
    ||| e == "c"@ || e == "h"@ || e == "cc"@ || e == "cpp"@ || e == "cxx"@
    ||| e == "hh"@ || e == "hpp"@ || e == "hxx"@ || e == "m"@ || e == "mm"@
    ||| e == "java"@ || e == "cs"@ || e == "proto"@ || e == "json"@ || e == "jsonc"@
}

/// Whether the built-in indenter handles a file: untitled documents, and
/// files whose extension names a supported language, in any case.
pub open spec fn builtin_supported(file: Option<(Option<Seq<char>>, Option<Seq<char>>)>) -> bool {
    match file {
        None => true,
        Some((_, Some(e))) => builtin_language(ascii_lower(e)),
        Some((_, None)) => false,
    }
}

/// The extensions whose files the built-in indenter re-indents.
pub open spec fn indented_extensions() -> Seq<Seq<char>> {
    seq!["c"@, "h"@, "cc"@, "cpp"@, "cxx"@, "hh"@, "hpp"@, "hxx"@, "m"@, "mm"@, "java"@, "cs"@, "proto"@, "json"@, "jsonc"@]
}

/// The built-in indenter accepts untitled documents and exactly the files
/// whose extension, in any case, is one of `indented_extensions`; a file
/// without an extension is refused.
pub proof fn builtin_accepts_exactly_its_extensions(name: Option<Seq<char>>, extension: Option<Seq<char>>)
    ensures
        builtin_supported(None),
        builtin_supported(Some((name, extension))) <==> (extension matches Some(e)
            && indented_extensions().contains(ascii_lower(e))),
{
    if let Some(e) = extension {
        let l = ascii_lower(e);
        assert(indented_extensions()[0] == "c"@);
        assert(indented_extensions()[1] == "h"@);
        assert(indented_extensions()[2] == "cc"@);
        assert(indented_extensions()[3] == "cpp"@);
        assert(indented_extensions()[4] == "cxx"@);
        assert(indented_extensions()[5] == "hh"@);
        assert(indented_extensions()[6] == "hpp"@);
        assert(indented_extensions()[7] == "hxx"@);
        assert(indented_extensions()[8] == "m"@);
        assert(indented_extensions()[9] == "mm"@);
        assert(indented_extensions()[10] == "java"@);
        assert(indented_extensions()[11] == "cs"@);
        assert(indented_extensions()[12] == "proto"@);
        assert(indented_extensions()[13] == "json"@);
        assert(indented_extensions()[14] == "jsonc"@);
        if builtin_language(l) {
            assert(indented_extensions().contains(l));
        }
        if indented_extensions().contains(l) {
            let i = choose|i: int| 0 <= i < indented_extensions().len() && indented_extensions()[i] == l;
            assert(builtin_language(l));
        }
    }
}

/// Whether the file is JSON, which the indenter reads with JSON's lexical
/// rules.
pub open spec fn is_json(file: Option<(Option<Seq<char>>, Option<Seq<char>>)>) -> bool {
    match file {
        Some((_, Some(e))) => ascii_lower(e) == "json"@ || ascii_lower(e) == "jsonc"@,
        _ => false,
    }
}

fn lower_extension(file: Option<&FileInfo>) -> (r: Option<Vec<char>>)
    ensures
        match file {
            Some(f) => match opt_chars(f.extension) {
                Some(e) => r matches Some(l) && l@ == ascii_lower(e),
                None => r is None,
            },
            None => r is None,
        },
{
    match file {
        Some(f) => match &f.extension {
            Some(e) => {
                let chars = chars_of(e.as_str());
                Some(ascii_lower_exec(chars.as_slice()))
            },
            None => None,
        },
        None => None,
    }
}

/// Whether the built-in indenter handles the file (`None`: an untitled
/// document).
pub fn supported(file: Option<&FileInfo>) -> (r: bool)
    ensures
        r == builtin_supported(file_view(file)),
{
    match file {
        None => true,
        Some(_) => match lower_extension(file) {
            None => false,
            Some(l) => {
                let e = l.as_slice();
                eq_str(e, "c") || eq_str(e, "h") || eq_str(e, "cc") || eq_str(e, "cpp") || eq_str(e, "cxx")
                    || eq_str(e, "hh") || eq_str(e, "hpp") || eq_str(e, "hxx") || eq_str(e, "m") || eq_str(e, "mm")
                    || eq_str(e, "java") || eq_str(e, "cs") || eq_str(e, "proto") || eq_str(e, "json")
                    || eq_str(e, "jsonc")
            },
        },
    }
}

/// Whether the file is JSON.
pub fn json_file(file: Option<&FileInfo>) -> (r: bool)
    ensures
        r == is_json(file_view(file)),
{
    match lower_extension(file) {
        None => false,
        Some(l) => eq_str(l.as_slice(), "json") || eq_str(l.as_slice(), "jsonc"),
    }
}

/// Longest line the indenter reads.
pub const MAX_LINE: usize = 65536;
/// Deepest bracket nesting the indenter follows.
pub const MAX_DEPTH: usize = 256;

/// What the scanner is inside of, between lines.
pub enum Lex {
    Code,
    Comment,
    Quote(u8),
    Verbatim,
    Raw(usize),
    CppRaw(Vec<u8>),
}

pub enum LexV {
    Code,
    Comment,
    Quote(u8),
    Verbatim,
    Raw(nat),
    CppRaw(Seq<u8>),
}

impl View for Lex {
    type V = LexV;

    open spec fn view(&self) -> LexV {
        match self {
            Lex::Code => LexV::Code,
            Lex::Comment => LexV::Comment,
            Lex::Quote(q) => LexV::Quote(*q),
            Lex::Verbatim => LexV::Verbatim,
            Lex::Raw(n) => LexV::Raw(*n as nat),
            Lex::CppRaw(end) => LexV::CppRaw(end@),
        }
    }
}

/// Whether `pat` occurs in `line` at `i`.
pub open spec fn at(line: Seq<u8>, i: int, pat: Seq<u8>) -> bool {
    0 <= i && i + pat.len() <= line.len() && line.subrange(i, i + pat.len()) == pat
}

pub const SLASH: u8 = 47;
pub const STAR: u8 = 42;
pub const DQUOTE: u8 = 34;
pub const SQUOTE: u8 = 39;
pub const BACKSLASH: u8 = 92;
pub const DOLLAR: u8 = 36;
pub const AT_SIGN: u8 = 64;
pub const UPPER_R: u8 = 82;
pub const LPAREN: u8 = 40;
pub const RPAREN: u8 = 41;
pub const LBRACE: u8 = 123;
pub const RBRACE: u8 = 125;
pub const LBRACKET: u8 = 91;
pub const RBRACKET: u8 = 93;
pub const HASH: u8 = 35;
pub const SPACE: u8 = 32;
pub const TAB: u8 = 9;
pub const NEWLINE: u8 = 10;
pub const CR: u8 = 13;

/// Number of `"` in a row from `i`.
pub open spec fn quote_run(line: Seq<u8>, i: int) -> nat
    decreases line.len() - i,
{
    if 0 <= i < line.len() && line[i] == DQUOTE {
        1 + quote_run(line, i + 1)
    } else {
        0
    }
}

/// Offset from `from` of the first `(`, if any.
pub open spec fn paren_after(line: Seq<u8>, from: int) -> Option<nat>
    decreases line.len() - from,
{
    if from < 0 || from >= line.len() {
        None
    } else if line[from] == LPAREN {
        Some(0)
    } else {
        match paren_after(line, from + 1) {
            Some(n) => Some(n + 1),
            None => None,
        }
    }
}

pub open spec fn is_hex_digit(b: u8) -> bool {
    (48 <= b <= 57) || (97 <= b <= 102) || (65 <= b <= 70)
}

pub open spec fn is_opener(b: u8) -> bool {
    b == LBRACE || b == LBRACKET || b == LPAREN
}

pub open spec fn is_closer(b: u8) -> bool {
    b == RBRACE || b == RBRACKET || b == RPAREN
}

/// The opening bracket that `b` closes.
pub open spec fn opener_of(b: u8) -> u8 {
    if b == RBRACE {
        LBRACE
    } else if b == RBRACKET {
        LBRACKET
    } else {
        LPAREN
    }
}

/// One step of the scanner: fail with a message, stop reading the line
/// (a line comment), or go on at a later offset in a new state.
pub enum Step {
    Fail(Seq<char>),
    Stop,
    Go(int, LexV, Seq<u8>),
}

/// A step from `i` in code.
pub open spec fn code_step(json: bool, stack: Seq<u8>, line: Seq<u8>, i: int) -> Step {
    let byte = line[i];
    if !json && (at(line, i, seq![DOLLAR, DQUOTE]) || at(line, i, seq![DOLLAR, AT_SIGN, DQUOTE])
        || at(line, i, seq![AT_SIGN, DOLLAR, DQUOTE])) {
        Step::Fail("Built-in indentation cannot safely handle interpolated strings yet; use :formatters. Document unchanged."@)
    } else if at(line, i, seq![SLASH, SLASH]) {
        if line.last() == BACKSLASH {
            Step::Fail("Continued line comments need a language formatter; use :formatters. Document unchanged."@)
        } else {
            Step::Stop
        }
    } else if at(line, i, seq![SLASH, STAR]) {
        Step::Go(i + 2, LexV::Comment, stack)
    } else if !json && at(line, i, seq![AT_SIGN, DQUOTE]) {
        Step::Go(i + 2, LexV::Verbatim, stack)
    } else if !json && at(line, i, seq![UPPER_R, DQUOTE]) {
        match paren_after(line, i + 2) {
            Some(n) => if n <= 16 {
                Step::Go(i + n + 3, LexV::CppRaw(seq![RPAREN] + line.subrange(i + 2, i + 2 + n) + seq![DQUOTE]), stack)
            } else {
                Step::Fail("Unrecognized raw string; use :formatters. Document unchanged."@)
            },
            None => Step::Fail("Unrecognized raw string; use :formatters. Document unchanged."@),
        }
    } else if byte == DQUOTE {
        let count = quote_run(line, i);
        if !json && count >= 3 {
            Step::Go(i + count, LexV::Raw(count), stack)
        } else {
            Step::Go(i + 1, LexV::Quote(byte), stack)
        }
    } else if !json && byte == SQUOTE {
        if i > 0 && is_hex_digit(line[i - 1]) && i + 1 < line.len() && is_hex_digit(line[i + 1]) {
            Step::Go(i + 1, LexV::Code, stack)
        } else {
            Step::Go(i + 1, LexV::Quote(byte), stack)
        }
    } else if is_opener(byte) {
        if stack.len() == MAX_DEPTH {
            Step::Fail("Code is nested too deeply for built-in indentation"@)
        } else {
            Step::Go(i + 1, LexV::Code, stack.push(byte))
        }
    } else if is_closer(byte) {
        if stack.len() == 0 || stack.last() != opener_of(byte) {
            Step::Fail("Unmatched closing bracket; fix it or use :formatters. Document unchanged."@)
        } else {
            Step::Go(i + 1, LexV::Code, stack.drop_last())
        }
    } else if byte == BACKSLASH {
        Step::Fail("Escapes outside strings need a language formatter; use :formatters. Document unchanged."@)
    } else {
        Step::Go(i + 1, LexV::Code, stack)
    }
}

/// A step of the scanner from offset `i` of the line.
pub open spec fn scan_step(json: bool, lex: LexV, stack: Seq<u8>, line: Seq<u8>, i: int) -> Step {
    let byte = line[i];
    match lex {
        LexV::Comment => if at(line, i, seq![STAR, SLASH]) {
            Step::Go(i + 2, LexV::Code, stack)
        } else {
            Step::Go(i + 1, lex, stack)
        },
        LexV::Quote(quote) => if byte == BACKSLASH {
            Step::Go(i + 2, lex, stack)
        } else if byte == quote {
            Step::Go(i + 1, LexV::Code, stack)
        } else {
            Step::Go(i + 1, lex, stack)
        },
        LexV::Verbatim => if at(line, i, seq![DQUOTE, DQUOTE]) {
            Step::Go(i + 2, lex, stack)
        } else if byte == DQUOTE {
            Step::Go(i + 1, LexV::Code, stack)
        } else {
            Step::Go(i + 1, lex, stack)
        },
        LexV::Raw(count) => {
            let quotes = quote_run(line, i);
            if quotes >= count {
                Step::Go(i + count, LexV::Code, stack)
            } else {
                Step::Go(i + if quotes > 1 { quotes as int } else { 1 }, lex, stack)
            }
        },
        LexV::CppRaw(end) => if at(line, i, end) {
            Step::Go(i + end.len(), LexV::Code, stack)
        } else {
            Step::Go(i + 1, lex, stack)
        },
        LexV::Code => code_step(json, stack, line, i),
    }
}

/// The scanner's state after reading `line` from offset `i`, or why it
/// refuses the line.
pub open spec fn scan_from(json: bool, lex: LexV, stack: Seq<u8>, line: Seq<u8>, i: int) -> Result<(LexV, Seq<u8>), Seq<char>>
    decreases line.len() - i,
{
    if i < 0 || i >= line.len() {
        Ok((lex, stack))
    } else {
        match scan_step(json, lex, stack, line, i) {
            Step::Fail(m) => Err(m),
            Step::Stop => Ok((lex, stack)),
            Step::Go(j, next, s) => if j <= i || j >= line.len() {
                Ok((next, s))
            } else {
                scan_from(json, next, s, line, j)
            },
        }
    }
}

/// Lexical states the scanner can be in: raw strings end in at least one
/// quote, C++ raw strings in `)` and `"`.
pub open spec fn lex_ok(lex: LexV) -> bool {
    match lex {
        LexV::Raw(count) => count >= 1,
        LexV::CppRaw(end) => end.len() >= 2,
        _ => true,
    }
}

/// The scanner: its lexical state, the open brackets, whether a
/// preprocessor directive continues on the next line, and whether the
/// file is JSON.
pub struct Scanner {
    pub lex: Lex,
    pub stack: Vec<u8>,
    pub directive: bool,
    pub json: bool,
}

impl Scanner {
    pub open spec fn wf(&self) -> bool {
        lex_ok(self.lex@) && self.stack@.len() <= MAX_DEPTH
    }

    /// A scanner at the start of a file.
    pub fn new(json: bool) -> (r: Self)
        ensures
            r.wf(),
            r.lex@ == LexV::Code,
            r.stack@ == Seq::<u8>::empty(),
            !r.directive,
            r.json == json,
    {
        Scanner { lex: Lex::Code, stack: Vec::new(), directive: false, json }
    }
}

fn at2(line: &[u8], i: usize, a: u8, b: u8) -> (r: bool)
    ensures
        r == at(line@, i as int, seq![a, b]),
{
    if i < line.len() && line.len() - i >= 2 {
        let r = line[i] == a && line[i + 1] == b;
        assert(line@.subrange(i as int, i + 2)[0] == line@[i as int]);
        assert(line@.subrange(i as int, i + 2)[1] == line@[i + 1]);
        if r {
            assert(line@.subrange(i as int, i + 2) =~= seq![a, b]);
        }
        r
    } else {
        false
    }
}

fn at3(line: &[u8], i: usize, a: u8, b: u8, c: u8) -> (r: bool)
    ensures
        r == at(line@, i as int, seq![a, b, c]),
{
    if i < line.len() && line.len() - i >= 3 {
        let r = line[i] == a && line[i + 1] == b && line[i + 2] == c;
        assert(line@.subrange(i as int, i + 3)[0] == line@[i as int]);
        assert(line@.subrange(i as int, i + 3)[1] == line@[i + 1]);
        assert(line@.subrange(i as int, i + 3)[2] == line@[i + 2]);
        if r {
            assert(line@.subrange(i as int, i + 3) =~= seq![a, b, c]);
        }
        r
    } else {
        false
    }
}

fn at_bytes(line: &[u8], i: usize, pat: &[u8]) -> (r: bool)
    ensures
        r == at(line@, i as int, pat@),
{
    if i > line.len() || line.len() - i < pat.len() {
        return false;
    }
    let mut k: usize = 0;
    while k < pat.len()
        invariant
            0 <= k <= pat.len(),
            i + pat.len() <= line.len(),
            forall|q: int| 0 <= q < k ==> line@[i + q] == pat@[q],
        decreases pat.len() - k,
    {
        if line[i + k] != pat[k] {
            assert(line@.subrange(i as int, i + pat.len())[k as int] == line@[i + k]);
            return false;
        }
        k = k + 1;
    }
    assert(line@.subrange(i as int, i + pat.len()) =~= pat@);
    true
}

fn quote_count(line: &[u8], i: usize) -> (n: usize)
    requires
        i <= line.len(),
    ensures
        n == quote_run(line@, i as int),
        i + n <= line.len(),
{
    let mut j: usize = i;
    while j < line.len() && line[j] == DQUOTE
        invariant
            i <= j <= line.len(),
            quote_run(line@, i as int) == (j - i) + quote_run(line@, j as int),
        decreases line.len() - j,
    {
        j = j + 1;
    }
    j - i
}

fn find_paren(line: &[u8], from: usize) -> (r: Option<usize>)
    requires
        from <= line.len(),
    ensures
        match paren_after(line@, from as int) {
            Some(n) => r == Some(n as usize) && from + n < line.len(),
            None => r is None,
        },
{
    let mut j: usize = from;
    while j < line.len()
        invariant
            from <= j <= line.len(),
            paren_after(line@, from as int) == match paren_after(line@, j as int) {
                Some(m) => Some((m + (j - from)) as nat),
                None => None::<nat>,
            },
            forall|q: int| from <= q < j ==> line@[q] != LPAREN,
        decreases line.len() - j,
    {
        if line[j] == LPAREN {
            return Some(j - from);
        }
        j = j + 1;
    }
    None
}

fn is_hex_byte(b: u8) -> (r: bool)
    ensures
        r == is_hex_digit(b),
{
    (48 <= b && b <= 57) || (97 <= b && b <= 102) || (65 <= b && b <= 70)
}

impl Scanner {
    fn code_step(&mut self, line: &[u8], i: usize) -> (r: Result<Option<usize>, String>)
        requires
            old(self).wf(),
            old(self).lex@ == LexV::Code,
            i < line.len(),
            line.len() <= MAX_LINE,
        ensures
            final(self).wf(),
            final(self).json == old(self).json,
            final(self).directive == old(self).directive,
            match code_step(old(self).json, old(self).stack@, line@, i as int) {
                Step::Fail(m) => r matches Err(e) && e@ == m,
                Step::Stop => r matches Ok(None) && final(self).lex@ == old(self).lex@ && final(self).stack@ == old(self).stack@,
                Step::Go(j, l, s) => r matches Ok(Some(k)) && k == j && i < k && k <= line.len() + 1 && final(self).lex@ == l && final(self).stack@ == s,
            },
    {
        let byte = line[i];
        let json = self.json;
        if !json && (at2(line, i, DOLLAR, DQUOTE) || at3(line, i, DOLLAR, AT_SIGN, DQUOTE) || at3(line, i, AT_SIGN, DOLLAR, DQUOTE)) {
            return Err(string_from("Built-in indentation cannot safely handle interpolated strings yet; use :formatters. Document unchanged."));
        }
        if at2(line, i, SLASH, SLASH) {
            if line[line.len() - 1] == BACKSLASH {
                return Err(string_from("Continued line comments need a language formatter; use :formatters. Document unchanged."));
            }
            return Ok(None);
        }
        if at2(line, i, SLASH, STAR) {
            self.lex = Lex::Comment;
            return Ok(Some(i + 2));
        }
        if !json && at2(line, i, AT_SIGN, DQUOTE) {
            self.lex = Lex::Verbatim;
            return Ok(Some(i + 2));
        }
        if !json && at2(line, i, UPPER_R, DQUOTE) {
            match find_paren(line, i + 2) {
                Some(n) => {
                    if n > 16 {
                        return Err(string_from("Unrecognized raw string; use :formatters. Document unchanged."));
                    }
                    let mut closing: Vec<u8> = Vec::new();
                    closing.push(RPAREN);
                    let mut k: usize = 0;
                    while k < n
                        invariant
                            0 <= k <= n,
                            i + 2 + n < line.len(),
                            closing@ =~= seq![RPAREN] + line@.subrange(i + 2, i + 2 + k),
                        decreases n - k,
                    {
                        closing.push(line[i + 2 + k]);
                        k = k + 1;
                    }
                    closing.push(DQUOTE);
                    assert(closing@ =~= seq![RPAREN] + line@.subrange(i + 2, i + 2 + n) + seq![DQUOTE]);
                    self.lex = Lex::CppRaw(closing);
                    return Ok(Some(i + n + 3));
                },
                None => {
                    return Err(string_from("Unrecognized raw string; use :formatters. Document unchanged."));
                },
            }
        }
        if byte == DQUOTE {
            let count = quote_count(line, i);
            if !json && count >= 3 {
                self.lex = Lex::Raw(count);
                return Ok(Some(i + count));
            }
            self.lex = Lex::Quote(byte);
            return Ok(Some(i + 1));
        }
        if !json && byte == SQUOTE {
            if i > 0 && is_hex_byte(line[i - 1]) && i + 1 < line.len() && is_hex_byte(line[i + 1]) {
                return Ok(Some(i + 1));
            }
            self.lex = Lex::Quote(byte);
            return Ok(Some(i + 1));
        }
        if byte == LBRACE || byte == LBRACKET || byte == LPAREN {
            if self.stack.len() == MAX_DEPTH {
                return Err(string_from("Code is nested too deeply for built-in indentation"));
            }
            self.stack.push(byte);
            return Ok(Some(i + 1));
        }
        if byte == RBRACE || byte == RBRACKET || byte == RPAREN {
            let expected = if byte == RBRACE {
                LBRACE
            } else if byte == RBRACKET {
                LBRACKET
            } else {
                LPAREN
            };
            if self.stack.len() == 0 || self.stack[self.stack.len() - 1] != expected {
                return Err(string_from("Unmatched closing bracket; fix it or use :formatters. Document unchanged."));
            }
            self.stack.pop();
            return Ok(Some(i + 1));
        }
        if byte == BACKSLASH {
            return Err(string_from("Escapes outside strings need a language formatter; use :formatters. Document unchanged."));
        }
        Ok(Some(i + 1))
    }

    fn step(&mut self, line: &[u8], i: usize) -> (r: Result<Option<usize>, String>)
        requires
            old(self).wf(),
            i < line.len(),
            line.len() <= MAX_LINE,
        ensures
            final(self).wf(),
            final(self).json == old(self).json,
            final(self).directive == old(self).directive,
            match scan_step(old(self).json, old(self).lex@, old(self).stack@, line@, i as int) {
                Step::Fail(m) => r matches Err(e) && e@ == m,
                Step::Stop => r matches Ok(None) && final(self).lex@ == old(self).lex@ && final(self).stack@ == old(self).stack@,
                Step::Go(j, l, s) => r matches Ok(Some(k)) && k == j && i < k && k <= line.len() + 1 && final(self).lex@ == l && final(self).stack@ == s,
            },
    {
        let byte = line[i];
        match &self.lex {
            Lex::Code => self.code_step(line, i),
            Lex::Comment => {
                if at2(line, i, STAR, SLASH) {
                    self.lex = Lex::Code;
                    Ok(Some(i + 2))
                } else {
                    Ok(Some(i + 1))
                }
            },
            Lex::Quote(q) => {
                let quote = *q;
                if byte == BACKSLASH {
                    Ok(Some(i + 2))
                } else if byte == quote {
                    self.lex = Lex::Code;
                    Ok(Some(i + 1))
                } else {
                    Ok(Some(i + 1))
                }
            },
            Lex::Verbatim => {
                if at2(line, i, DQUOTE, DQUOTE) {
                    Ok(Some(i + 2))
                } else if byte == DQUOTE {
                    self.lex = Lex::Code;
                    Ok(Some(i + 1))
                } else {
                    Ok(Some(i + 1))
                }
            },
            Lex::Raw(c) => {
                let count = *c;
                let quotes = quote_count(line, i);
                if quotes >= count {
                    self.lex = Lex::Code;
                    Ok(Some(i + count))
                } else if quotes > 1 {
                    Ok(Some(i + quotes))
                } else {
                    Ok(Some(i + 1))
                }
            },
            Lex::CppRaw(end) => {
                let n = end.len();
                let hit = at_bytes(line, i, end.as_slice());
                if hit {
                    self.lex = Lex::Code;
                    Ok(Some(i + n))
                } else {
                    Ok(Some(i + 1))
                }
            },
        }
    }

    /// Reads one line, ending in the state after it, or refuses it.
    pub fn scan(&mut self, line: &[u8]) -> (r: Result<(), String>)
        requires
            old(self).wf(),
            line.len() <= MAX_LINE,
        ensures
            final(self).wf(),
            final(self).json == old(self).json,
            final(self).directive == old(self).directive,
            match scan_from(old(self).json, old(self).lex@, old(self).stack@, line@, 0) {
                Ok((l, s)) => r is Ok && final(self).lex@ == l && final(self).stack@ == s,
                Err(m) => r matches Err(e) && e@ == m,
            },
    {
        let mut i: usize = 0;
        while i < line.len()
            invariant
                self.wf(),
                self.json == old(self).json,
                self.directive == old(self).directive,
                line.len() <= MAX_LINE,
                i <= line.len() + 1,
                scan_from(old(self).json, old(self).lex@, old(self).stack@, line@, 0)
                    == scan_from(self.json, self.lex@, self.stack@, line@, i as int),
            decreases line.len() + 1 - i,
        {
            match self.step(line, i) {
                Err(e) => {
                    return Err(e);
                },
                Ok(None) => {
                    return Ok(());
                },
                Ok(Some(j)) => {
                    i = j;
                },
            }
        }
        Ok(())
    }
}

/// Most bytes the formatters accept.
pub const MAX_INPUT_BYTES: usize = 2097152;

/// What the indenter carries from one line to the next.
pub struct LineState {
    pub lex: LexV,
    pub stack: Seq<u8>,
    pub directive: bool,
}

/// Where the line starting at `start` ends: after its newline, or at the
/// end of the input.
pub open spec fn line_stop(input: Seq<u8>, start: int) -> int
    decreases input.len() - start,
{
    if start < 0 || start >= input.len() {
        input.len() as int
    } else if input[start] == NEWLINE {
        start + 1
    } else {
        line_stop(input, start + 1)
    }
}

/// Length of the byte order mark that opens the first line.
pub open spec fn bom_len(line: Seq<u8>, first: bool) -> int {
    if first && at(line, 0, seq![0xefu8, 0xbbu8, 0xbfu8]) {
        3
    } else {
        0
    }
}

/// Where the line's content ends, before `\n` or `\r\n`.
pub open spec fn content_end(line: Seq<u8>) -> int {
    let e = if line.len() > 0 && line.last() == NEWLINE {
        line.len() - 1
    } else {
        line.len() as int
    };
    if e > 0 && line[e - 1] == CR {
        e - 1
    } else {
        e
    }
}

/// Where the blanks (spaces and tabs) from `from` end, before `end`.
pub open spec fn blanks_end(line: Seq<u8>, from: int, end: int) -> int
    decreases end - from,
{
    if from < 0 || from >= end || from >= line.len() {
        from
    } else if line[from] == SPACE || line[from] == TAB {
        blanks_end(line, from + 1, end)
    } else {
        from
    }
}

/// The depth of a line: the open brackets, less the closing brackets that
/// lead its code (blanks between them allowed).
pub open spec fn dedent(line: Seq<u8>, k: int, end: int, depth: nat) -> nat
    decreases end - k,
{
    if k < 0 || k >= end || k >= line.len() {
        depth
    } else if is_closer(line[k]) {
        dedent(line, k + 1, end, if depth > 0 { (depth - 1) as nat } else { 0 })
    } else if line[k] != SPACE && line[k] != TAB {
        depth
    } else {
        dedent(line, k + 1, end, depth)
    }
}

/// `n` tabs, or `n` spaces.
pub open spec fn padding(n: nat, spaces: bool) -> Seq<u8> {
    Seq::new(n, |_k: int| if spaces { SPACE } else { TAB })
}

/// Whether the line continues or starts a preprocessor directive.
pub open spec fn is_directive(json: bool, line: Seq<u8>, st: LineState, first: bool) -> bool {
    let leading = blanks_end(line, bom_len(line, first), content_end(line));
    !json && st.lex is Code && (st.directive || (leading < content_end(line) && line[leading] == HASH))
}

/// Whether the line is written out as it stands: inside a string or
/// comment, a directive, or blank.
pub open spec fn is_preserved(json: bool, line: Seq<u8>, st: LineState, first: bool) -> bool {
    let leading = blanks_end(line, bom_len(line, first), content_end(line));
    !(st.lex is Code) || is_directive(json, line, st, first) || leading == content_end(line)
}

/// The line as the indenter writes it.
pub open spec fn line_output(json: bool, width: nat, spaces: bool, line: Seq<u8>, st: LineState, first: bool) -> Seq<u8> {
    let bom = bom_len(line, first);
    let end = content_end(line);
    let leading = blanks_end(line, bom, end);
    if is_preserved(json, line, st, first) {
        line
    } else {
        let depth = dedent(line, leading, end, st.stack.len());
        let n = if spaces { depth * width } else { depth };
        line.subrange(0, bom) + padding(n, spaces) + line.subrange(leading, line.len() as int)
    }
}

/// The state after a line, or why the line is refused.
pub open spec fn line_next(json: bool, line: Seq<u8>, st: LineState, first: bool) -> Result<LineState, Seq<char>> {
    let bom = bom_len(line, first);
    let end = content_end(line);
    let leading = blanks_end(line, bom, end);
    if is_directive(json, line, st, first) {
        Ok(LineState { lex: st.lex, stack: st.stack, directive: leading < end && line[end - 1] == BACKSLASH })
    } else {
        match scan_from(json, st.lex, st.stack, line.subrange(bom, end), 0) {
            Ok((l, s)) => Ok(LineState { lex: l, stack: s, directive: st.directive }),
            Err(m) => Err(m),
        }
    }
}

/// The indented text of the input from `pos`, given what came before.
#[verifier::opaque]
pub open spec fn indent_from(json: bool, width: nat, spaces: bool, input: Seq<u8>, pos: int, st: LineState,
    written: int, first: bool) -> Result<Seq<u8>, Seq<char>>
    decreases input.len() - pos,
{
    if pos < 0 || pos >= input.len() {
        if st.lex is Code {
            Ok(Seq::empty())
        } else {
            Err("Unclosed string or comment; document unchanged. Finish it or use :formatters."@)
        }
    } else {
        let stop = line_stop(input, pos);
        let line = input.subrange(pos, stop);
        if line.len() > MAX_LINE {
            Err("Built-in indentation supports lines up to 64 KiB; document unchanged"@)
        } else {
            let out = line_output(json, width, spaces, line, st, first);
            if written + out.len() > MAX_OUTPUT_BYTES {
                Err("Indented output exceeds 4 MiB; document unchanged"@)
            } else {
                match line_next(json, line, st, first) {
                    Err(m) => Err(m),
                    Ok(next) => if stop <= pos || stop > input.len() {
                        Ok(out)
                    } else {
                        match indent_from(json, width, spaces, input, stop, next, written + out.len(), false) {
                            Ok(rest) => Ok(out + rest),
                            Err(m) => Err(m),
                        }
                    },
                }
            }
        }
    }
}

/// The input re-indented with `width` columns per level (spaces) or one
/// tab per level, or why it is refused.
pub open spec fn indented(input: Seq<u8>, width: nat, spaces: bool, json: bool) -> Result<Seq<u8>, Seq<char>> {
    if !(1 <= width <= 32) {
        Err("Built-in indentation needs tab_width between 1 and 32"@)
    } else {
        indent_from(json, width, spaces, input, 0, LineState { lex: LexV::Code, stack: Seq::empty(), directive: false }, 0, true)
    }
}

/// `r` with `head` in front of its text.
pub open spec fn after(head: Seq<u8>, r: Result<Seq<u8>, Seq<char>>) -> Result<Seq<u8>, Seq<char>> {
    match r {
        Ok(rest) => Ok(head + rest),
        Err(m) => Err(m),
    }
}

proof fn lemma_indent_step(json: bool, width: nat, spaces: bool, input: Seq<u8>, pos: int, st: LineState,
    written: int, first: bool, stop: int, out: Seq<u8>, next: LineState)
    requires
        0 <= pos < stop <= input.len(),
        stop == line_stop(input, pos),
        stop - pos <= MAX_LINE,
        out == line_output(json, width, spaces, input.subrange(pos, stop), st, first),
        written + out.len() <= MAX_OUTPUT_BYTES,
        line_next(json, input.subrange(pos, stop), st, first) == Ok::<LineState, Seq<char>>(next),
    ensures
        indent_from(json, width, spaces, input, pos, st, written, first)
            == after(out, indent_from(json, width, spaces, input, stop, next, written + out.len(), false)),
{
    reveal(indent_from);
}

proof fn lemma_indent_done(json: bool, width: nat, spaces: bool, input: Seq<u8>, pos: int, st: LineState,
    written: int, first: bool)
    requires
        pos >= input.len(),
    ensures
        indent_from(json, width, spaces, input, pos, st, written, first) == if st.lex is Code {
            Ok(Seq::<u8>::empty())
        } else {
            Err::<Seq<u8>, Seq<char>>("Unclosed string or comment; document unchanged. Finish it or use :formatters."@)
        },
{
    reveal(indent_from);
}

proof fn lemma_indent_long_line(json: bool, width: nat, spaces: bool, input: Seq<u8>, pos: int, st: LineState,
    written: int, first: bool)
    requires
        0 <= pos < input.len(),
        line_stop(input, pos) <= input.len(),
        line_stop(input, pos) - pos > MAX_LINE,
    ensures
        indent_from(json, width, spaces, input, pos, st, written, first)
            == Err::<Seq<u8>, Seq<char>>("Built-in indentation supports lines up to 64 KiB; document unchanged"@),
{
    reveal(indent_from);
}

proof fn lemma_indent_line_fails(json: bool, width: nat, spaces: bool, input: Seq<u8>, pos: int, st: LineState,
    written: int, first: bool, stop: int, m: Seq<char>)
    requires
        0 <= pos < stop <= input.len(),
        stop == line_stop(input, pos),
        stop - pos <= MAX_LINE,
        ({
            let line = input.subrange(pos, stop);
            let out = line_output(json, width, spaces, line, st, first);
            if written + out.len() > MAX_OUTPUT_BYTES {
                m == "Indented output exceeds 4 MiB; document unchanged"@
            } else {
                line_next(json, line, st, first) == Err::<LineState, Seq<char>>(m)
            }
        }),
    ensures
        indent_from(json, width, spaces, input, pos, st, written, first) == Err::<Seq<u8>, Seq<char>>(m),
{
    reveal(indent_from);
}

fn copy_range(input: &[u8], a: usize, b: usize) -> (v: Vec<u8>)
    requires
        a <= b <= input.len(),
    ensures
        v@ == input@.subrange(a as int, b as int),
{
    let mut v: Vec<u8> = Vec::new();
    let mut k: usize = a;
    while k < b
        invariant
            a <= k <= b <= input.len(),
            v@ == input@.subrange(a as int, k as int),
        decreases b - k,
    {
        v.push(input[k]);
        assert(v@ =~= input@.subrange(a as int, k + 1));
        k = k + 1;
    }
    v
}

fn find_line_stop(input: &[u8], pos: usize) -> (stop: usize)
    requires
        pos < input.len(),
    ensures
        stop == line_stop(input@, pos as int),
        pos < stop <= input.len(),
{
    let mut k: usize = pos;
    while k < input.len() && input[k] != NEWLINE
        invariant
            pos <= k <= input.len(),
            line_stop(input@, pos as int) == line_stop(input@, k as int),
        decreases input.len() - k,
    {
        k = k + 1;
    }
    if k < input.len() {
        k + 1
    } else {
        k
    }
}

fn blanks_end_exec(line: &[u8], from: usize, end: usize) -> (r: usize)
    requires
        from <= end <= line.len(),
    ensures
        r == blanks_end(line@, from as int, end as int),
        from <= r <= end,
{
    let mut k: usize = from;
    while k < end && (line[k] == SPACE || line[k] == TAB)
        invariant
            from <= k <= end <= line.len(),
            blanks_end(line@, from as int, end as int) == blanks_end(line@, k as int, end as int),
        decreases end - k,
    {
        k = k + 1;
    }
    k
}

fn dedent_exec(line: &[u8], from: usize, end: usize, depth: usize) -> (r: usize)
    requires
        from <= end <= line.len(),
    ensures
        r == dedent(line@, from as int, end as int, depth as nat),
        r <= depth,
{
    let mut k: usize = from;
    let mut d: usize = depth;
    while k < end
        invariant
            from <= k <= end <= line.len(),
            d <= depth,
            dedent(line@, from as int, end as int, depth as nat) == dedent(line@, k as int, end as int, d as nat),
        decreases end - k,
    {
        let b = line[k];
        if b == RBRACE || b == RBRACKET || b == RPAREN {
            d = if d > 0 { d - 1 } else { 0 };
        } else if b != SPACE && b != TAB {
            return d;
        }
        k = k + 1;
    }
    d
}

/// Re-indents the input with `width` columns per level, as spaces or as
/// one tab per level; `json` reads it with JSON's lexical rules.
pub fn indent(input: &[u8], width: usize, spaces: bool, json: bool) -> (r: Result<Vec<u8>, String>)
    ensures
        match indented(input@, width as nat, spaces, json) {
            Ok(out) => r matches Ok(v) && v@ == out,
            Err(m) => r matches Err(e) && e@ == m,
        },
{
    if width < 1 || width > 32 {
        return Err(string_from("Built-in indentation needs tab_width between 1 and 32"));
    }
    let mut scanner = Scanner::new(json);
    let mut output: Vec<u8> = Vec::new();
    let mut pos: usize = 0;
    let mut first = true;
    while pos < input.len()
        invariant
            scanner.wf(),
            scanner.json == json,
            1 <= width <= 32,
            pos <= input.len(),
            output@.len() <= MAX_OUTPUT_BYTES,
            indented(input@, width as nat, spaces, json) == after(output@, indent_from(json, width as nat, spaces, input@, pos as int,
                LineState { lex: scanner.lex@, stack: scanner.stack@, directive: scanner.directive }, output@.len() as int, first)),
        decreases input.len() - pos,
    {
        let ghost st = LineState { lex: scanner.lex@, stack: scanner.stack@, directive: scanner.directive };
        let ghost old_output = output@;
        let stop = find_line_stop(input, pos);
        if stop - pos > MAX_LINE {
            proof {
                lemma_indent_long_line(json, width as nat, spaces, input@, pos as int, st, old_output.len() as int, first);
            }
            return Err(string_from("Built-in indentation supports lines up to 64 KiB; document unchanged"));
        }
        let line = copy_range(input, pos, stop);
        let ghost out_line = line_output(json, width as nat, spaces, line@, st, first);
        let r = indent_line(&mut scanner, &mut output, line.as_slice(), width, spaces, first);
        match r {
            Err(e) => {
                proof {
                    lemma_indent_line_fails(json, width as nat, spaces, input@, pos as int, st, old_output.len() as int, first, stop as int, e@);
                }
                return Err(e);
            },
            Ok(()) => {},
        }
        proof {
            let next = LineState { lex: scanner.lex@, stack: scanner.stack@, directive: scanner.directive };
            assert(line_next(json, line@, st, first) == Ok::<LineState, Seq<char>>(next));
            lemma_indent_step(json, width as nat, spaces, input@, pos as int, st, old_output.len() as int, first, stop as int, out_line, next);
            lemma_after_after(old_output, out_line, indent_from(json, width as nat, spaces, input@, stop as int, next, (old_output.len() + out_line.len()) as int, false));
        }
        pos = stop;
        first = false;
    }
    proof {
        lemma_indent_done(json, width as nat, spaces, input@, pos as int,
            LineState { lex: scanner.lex@, stack: scanner.stack@, directive: scanner.directive }, output@.len() as int, first);
    }
    if !(match &scanner.lex { Lex::Code => true, _ => false }) {
        return Err(string_from("Unclosed string or comment; document unchanged. Finish it or use :formatters."));
    }
    assert(output@ + Seq::<u8>::empty() =~= output@);
    Ok(output)
}

proof fn lemma_after_after(a: Seq<u8>, b: Seq<u8>, x: Result<Seq<u8>, Seq<char>>)
    ensures
        after(a, after(b, x)) == after(a + b, x),
{
    match x {
        Ok(rest) => {
            assert(a + (b + rest) =~= a + b + rest);
        },
        Err(_) => {},
    }
}

struct Layout {
    bom: usize,
    end: usize,
    leading: usize,
    directive: bool,
    preserve: bool,
}

fn layout(scanner: &Scanner, line: &[u8], first: bool) -> (r: Layout)
    requires
        0 < line.len() <= MAX_LINE,
    ensures
        ({
            let st = LineState { lex: scanner.lex@, stack: scanner.stack@, directive: scanner.directive };
            &&& r.bom == bom_len(line@, first)
            &&& r.end == content_end(line@)
            &&& r.leading == blanks_end(line@, r.bom as int, r.end as int)
            &&& r.bom <= r.leading <= r.end <= line.len()
            &&& r.directive == is_directive(scanner.json, line@, st, first)
            &&& r.preserve == is_preserved(scanner.json, line@, st, first)
        }),
{
    let bom: usize = if first && at3(line, 0, 0xef, 0xbb, 0xbf) { 3 } else { 0 };
    let mut end = line.len();
    if line[end - 1] == NEWLINE {
        end = end - 1;
    }
    if end > 0 && line[end - 1] == CR {
        end = end - 1;
    }
    assert(bom <= end) by {
        if bom == 3 {
            assert(line@.subrange(0, 3)[2] == line@[2]);
        }
    }
    let leading = blanks_end_exec(line, bom, end);
    let in_code = match &scanner.lex {
        Lex::Code => true,
        _ => false,
    };
    let directive = !scanner.json && in_code && (scanner.directive || (leading < end && line[leading] == HASH));
    let preserve = !in_code || directive || leading == end;
    Layout { bom, end, leading, directive, preserve }
}

/// The line with `n` units of indentation in place of its leading blanks
/// (the byte order mark kept).
pub open spec fn reindented(line: Seq<u8>, bom: int, leading: int, n: nat, spaces: bool) -> Seq<u8> {
    line.subrange(0, bom) + padding(n, spaces) + line.subrange(leading, line.len() as int)
}

fn append_line(output: &mut Vec<u8>, line: &[u8], preserve: bool, bom: usize, leading: usize, n: usize, spaces: bool)
    requires
        bom <= leading <= line.len(),
    ensures
        final(output)@ == old(output)@ + if preserve { line@ } else { reindented(line@, bom as int, leading as int, n as nat, spaces) },
{
    let ghost before = output@;
    if preserve {
        let mut k: usize = 0;
        while k < line.len()
            invariant
                0 <= k <= line.len(),
                output@ == before + line@.take(k as int),
            decreases line.len() - k,
        {
            output.push(line[k]);
            assert(output@ =~= before + line@.take(k + 1));
            k = k + 1;
        }
        assert(line@.take(line.len() as int) =~= line@);
    } else {
        let mut k: usize = 0;
        while k < bom
            invariant
                0 <= k <= bom <= line.len(),
                output@ == before + line@.take(k as int),
            decreases bom - k,
        {
            output.push(line[k]);
            assert(output@ =~= before + line@.take(k + 1));
            k = k + 1;
        }
        let pad: u8 = if spaces { SPACE } else { TAB };
        let mut q: usize = 0;
        while q < n
            invariant
                0 <= q <= n,
                output@ == before + line@.take(bom as int) + padding(q as nat, spaces),
                pad == if spaces { SPACE } else { TAB },
            decreases n - q,
        {
            output.push(pad);
            assert(output@ =~= before + line@.take(bom as int) + padding((q + 1) as nat, spaces));
            q = q + 1;
        }
        let mut k: usize = leading;
        while k < line.len()
            invariant
                bom <= leading <= k <= line.len(),
                output@ == before + line@.take(bom as int) + padding(n as nat, spaces) + line@.subrange(leading as int, k as int),
            decreases line.len() - k,
        {
            output.push(line[k]);
            assert(output@ =~= before + line@.take(bom as int) + padding(n as nat, spaces) + line@.subrange(leading as int, k + 1));
            k = k + 1;
        }
        assert(line@.take(bom as int) =~= line@.subrange(0, bom as int));
        assert(output@ =~= before + reindented(line@, bom as int, leading as int, n as nat, spaces));
    }
}

proof fn lemma_line_output(json: bool, width: nat, spaces: bool, line: Seq<u8>, st: LineState, first: bool, depth: nat, n: nat)
    requires
        !is_preserved(json, line, st, first),
        depth == dedent(line, blanks_end(line, bom_len(line, first), content_end(line)), content_end(line), st.stack.len()),
        n == if spaces { depth * width } else { depth },
    ensures
        line_output(json, width, spaces, line, st, first) == reindented(line, bom_len(line, first),
            blanks_end(line, bom_len(line, first), content_end(line)), n, spaces),
{
}

/// One line: checks the size of the output, appends the line as indented,
/// and moves the scanner past it.
fn indent_line(scanner: &mut Scanner, output: &mut Vec<u8>, line: &[u8], width: usize, spaces: bool, first: bool) -> (r: Result<(), String>)
    requires
        old(scanner).wf(),
        1 <= width <= 32,
        0 < line.len() <= MAX_LINE,
        old(output)@.len() <= MAX_OUTPUT_BYTES,
    ensures
        ({
            let st = LineState { lex: old(scanner).lex@, stack: old(scanner).stack@, directive: old(scanner).directive };
            let out = line_output(old(scanner).json, width as nat, spaces, line@, st, first);
            if old(output)@.len() + out.len() > MAX_OUTPUT_BYTES {
                r matches Err(e) && e@ == "Indented output exceeds 4 MiB; document unchanged"@
            } else {
                match line_next(old(scanner).json, line@, st, first) {
                    Err(m) => r matches Err(e) && e@ == m,
                    Ok(next) => {
                        &&& r is Ok
                        &&& final(output)@ == old(output)@ + out
                        &&& final(scanner).lex@ == next.lex
                        &&& final(scanner).stack@ == next.stack
                        &&& final(scanner).directive == next.directive
                    },
                }
            }
        }),
        final(scanner).wf(),
        final(scanner).json == old(scanner).json,
        final(output)@.len() <= MAX_OUTPUT_BYTES,
{
    let ghost st = LineState { lex: scanner.lex@, stack: scanner.stack@, directive: scanner.directive };
    let json = scanner.json;
    let lay = layout(scanner, line, first);
    let depth = if lay.preserve { scanner.stack.len() } else { dedent_exec(line, lay.leading, lay.end, scanner.stack.len()) };
    assert(scanner.stack@.len() <= MAX_DEPTH);
    assert(depth <= 256);
    assert(depth * width <= 8192) by (nonlinear_arith)
        requires
            depth <= 256,
            width <= 32,
    ;
    let n: usize = if spaces { depth * width } else { depth };
    let length: usize = if lay.preserve { line.len() } else { lay.bom + n + (line.len() - lay.leading) };
    let ghost out = line_output(json, width as nat, spaces, line@, st, first);
    proof {
        if !lay.preserve {
            lemma_line_output(json, width as nat, spaces, line@, st, first, depth as nat, n as nat);
        }
        assert(out == if lay.preserve { line@ } else { reindented(line@, lay.bom as int, lay.leading as int, n as nat, spaces) });
        assert(out.len() == length);
    }
    if length > MAX_OUTPUT_BYTES - output.len() {
        return Err(string_from("Indented output exceeds 4 MiB; document unchanged"));
    }
    append_line(output, line, lay.preserve, lay.bom, lay.leading, n, spaces);
    if lay.directive {
        scanner.directive = lay.leading < lay.end && line[lay.end - 1] == BACKSLASH;
        Ok(())
    } else {
        let content = copy_range(line, lay.bom, lay.end);
        scanner.scan(content.as_slice())
    }
}

/// The built-in indentation of a document, or why it is refused: the file
/// type must be supported and the document at most 2 MiB; JSON files are
/// read with JSON's lexical rules.
pub fn run(file: Option<&FileInfo>, document: &[u8], tab_width: usize, insert_spaces: bool) -> (r: Result<Vec<u8>, String>)
    ensures
        !builtin_supported(file_view(file)) ==> (r matches Err(e) && e@ == "Built-in indentation supports C/C++, C#, Java, Objective-C, Protobuf, JSON and untitled code. For this file type, use :formatters to choose a language formatter."@),
        builtin_supported(file_view(file)) && document.len() > MAX_INPUT_BYTES ==> (r matches Err(e) && e@ == "Formatting is limited to documents up to 2 MiB"@),
        builtin_supported(file_view(file)) && document.len() <= MAX_INPUT_BYTES ==> match indented(document@, tab_width as nat, insert_spaces, is_json(file_view(file))) {
            Ok(out) => r matches Ok(v) && v@ == out,
            Err(m) => r matches Err(e) && e@ == m,
        },
{
    if !supported(file) {
        return Err(string_from("Built-in indentation supports C/C++, C#, Java, Objective-C, Protobuf, JSON and untitled code. For this file type, use :formatters to choose a language formatter."));
    }
    if document.len() > MAX_INPUT_BYTES {
        return Err(string_from("Formatting is limited to documents up to 2 MiB"));
    }
    let json = json_file(file);
    indent(document, tab_width, insert_spaces, json)
}

} // verus!
