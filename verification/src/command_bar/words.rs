//! Splitting command input into words, and quoting arguments so that they
//! split back into exactly one word.
use vstd::prelude::*;
use crate::text::{chars_of, is_white_space, is_whitespace, string_of};

verus! {

/// One word of command input: its text after quotes and escapes are resolved,
/// and whether any part of it was quoted (a quoted word is never an option).
#[derive(Clone, Debug, PartialEq, Eq)]
pub struct CommandWord {
    pub text: Vec<char>,
    pub quoted: bool,
}

/// Mathematical form of a word.
pub struct WordV {
    pub text: Seq<char>,
    pub quoted: bool,
}

impl View for CommandWord {
    type V = WordV;

    open spec fn view(&self) -> WordV {
        WordV { text: self.text@, quoted: self.quoted }
    }
}

pub open spec fn words_view(words: Seq<CommandWord>) -> Seq<WordV> {
    words.map_values(|w: CommandWord| w@)
}

/// The state of the splitter between two characters.
pub struct TokState {
    pub words: Seq<WordV>,
    pub current: Seq<char>,
    pub quote: Option<char>,
    pub started: bool,
    pub quoted: bool,
}

pub open spec fn initial_state() -> TokState {
    TokState { words: seq![], current: seq![], quote: None, started: false, quoted: false }
}

/// What a backslash stands for, given the characters after it: the text it
/// produces and how many of the following characters it consumes.
pub open spec fn escape_of(rest: Seq<char>) -> (Seq<char>, int) {
    if rest.len() == 0 {
        (seq!['\\'], 0)
    } else if rest[0] == 'n' {
        (seq!['\n'], 1)
    } else if rest[0] == 'r' {
        (seq!['\r'], 1)
    } else if rest[0] == 't' {
        (seq!['\t'], 1)
    } else if rest[0] == '\\' || rest[0] == '"' || rest[0] == '\'' || is_white_space(rest[0]) {
        (seq![rest[0]], 1)
    } else {
        (seq!['\\'], 0)
    }
}

/// Splitting `s` from state `st`: whitespace separates words, `"` and `'`
/// quote (whitespace included), and a backslash escapes; an open quote at
/// the end is an error.
pub open spec fn split_from(s: Seq<char>, st: TokState) -> Result<Seq<WordV>, ()>
    decreases s.len(),
{
    if s.len() == 0 {
        if st.quote is Some {
            Err(())
        } else if st.started {
            Ok(st.words.push(WordV { text: st.current, quoted: st.quoted }))
        } else {
            Ok(st.words)
        }
    } else {
        let c = s[0];
        let rest = s.drop_first();
        if st.quote is Some {
            if c == st.quote->0 {
                split_from(rest, TokState { quote: None, ..st })
            } else if c == '\\' {
                let (text, used) = escape_of(rest);
                split_from(rest.skip(used), TokState { current: st.current + text, ..st })
            } else {
                split_from(rest, TokState { current: st.current.push(c), ..st })
            }
        } else if c == '"' || c == '\'' {
            split_from(rest, TokState { quote: Some(c), started: true, quoted: true, ..st })
        } else if c == '\\' {
            let (text, used) = escape_of(rest);
            split_from(rest.skip(used), TokState { current: st.current + text, started: true, ..st })
        } else if is_white_space(c) {
            if st.started {
                split_from(
                    rest,
                    TokState {
                        words: st.words.push(WordV { text: st.current, quoted: st.quoted }),
                        current: seq![],
                        quote: None,
                        started: false,
                        quoted: false,
                    },
                )
            } else {
                split_from(rest, st)
            }
        } else {
            split_from(rest, TokState { current: st.current.push(c), started: true, ..st })
        }
    }
}

/// The input without its leading `:`, if it has one.
pub open spec fn command_body(input: Seq<char>) -> Seq<char> {
    if input.len() > 0 && input[0] == ':' {
        input.drop_first()
    } else {
        input
    }
}

/// The words of a command line.
pub open spec fn spec_tokenize(input: Seq<char>) -> Result<Seq<WordV>, ()> {
    split_from(command_body(input), initial_state())
}

/// Resolves one escape starting after the backslash at `i`; returns the next index.
fn push_escape(current: &mut Vec<char>, body: &[char], i: usize) -> (next: usize)
    requires
        i <= body.len(),
    ensures
        ({
            let (text, used) = escape_of(body@.skip(i as int));
            &&& final(current)@ == old(current)@ + text
            &&& next == i + used
            &&& next <= body.len()
        }),
{
    if i < body.len() {
        let c = body[i];
        if c == 'n' {
            current.push('\n');
            return i + 1;
        } else if c == 'r' {
            current.push('\r');
            return i + 1;
        } else if c == 't' {
            current.push('\t');
            return i + 1;
        } else if c == '\\' || c == '"' || c == '\'' || is_whitespace(c) {
            current.push(c);
            return i + 1;
        }
    }
    current.push('\\');
    i
}

/// Splits command input into words (see `spec_tokenize`); `Err` when a
/// quote is left open.
pub fn tokenize(input: &[char]) -> (r: Result<Vec<CommandWord>, String>)
    ensures
        spec_tokenize(input@) is Ok <==> r is Ok,
        r matches Ok(words) ==> words_view(words@) == spec_tokenize(input@)->Ok_0,
        r matches Err(m) ==> m@ == "Close the quoted argument"@,
{
    let start: usize = if input.len() > 0 && input[0] == ':' { 1 } else { 0 };
    let ghost body = command_body(input@);
    assert(body =~= input@.skip(start as int));
    let mut words: Vec<CommandWord> = Vec::new();
    let mut current: Vec<char> = Vec::new();
    let mut quote: Option<char> = None;
    let mut started = false;
    let mut quoted = false;
    let mut i = start;
    assert(words_view(words@) =~= Seq::<WordV>::empty());
    assert(current@ =~= Seq::<char>::empty());
    while i < input.len()
        invariant
            start <= i <= input.len(),
            body == input@.skip(start as int),
            spec_tokenize(input@) == split_from(
                input@.skip(i as int),
                TokState {
                    words: words_view(words@),
                    current: current@,
                    quote: quote,
                    started: started,
                    quoted: quoted,
                },
            ),
        decreases input.len() - i,
    {
        let ghost st = TokState {
            words: words_view(words@),
            current: current@,
            quote: quote,
            started: started,
            quoted: quoted,
        };
        let ghost s = input@.skip(i as int);
        assert(s.drop_first() =~= input@.skip(i + 1));
        let c = input[i];
        assert(s[0] == c);
        if let Some(q) = quote {
            if c == q {
                quote = None;
                i = i + 1;
            } else if c == '\\' {
                let next = push_escape(&mut current, input, i + 1);
                proof {
                    let (text, used) = escape_of(s.drop_first());
                    assert(input@.skip(i + 1).skip(used) =~= input@.skip(next as int));
                }
                i = next;
            } else {
                current.push(c);
                i = i + 1;
            }
        } else if c == '"' || c == '\'' {
            quote = Some(c);
            started = true;
            quoted = true;
            i = i + 1;
        } else if c == '\\' {
            started = true;
            let next = push_escape(&mut current, input, i + 1);
            proof {
                let (text, used) = escape_of(s.drop_first());
                assert(input@.skip(i + 1).skip(used) =~= input@.skip(next as int));
            }
            i = next;
        } else if is_whitespace(c) {
            if started {
                let word = CommandWord { text: current, quoted: quoted };
                words.push(word);
                proof {
                    assert(words_view(words@) =~= st.words.push(WordV { text: st.current, quoted: st.quoted }));
                }
                current = Vec::new();
                assert(current@ =~= Seq::<char>::empty());
                started = false;
                quoted = false;
            }
            i = i + 1;
        } else {
            current.push(c);
            started = true;
            i = i + 1;
        }
    }
    assert(input@.skip(i as int) =~= Seq::<char>::empty());
    if quote.is_some() {
        return Err(String::from_str("Close the quoted argument"));
    }
    if started {
        let ghost before = words_view(words@);
        words.push(CommandWord { text: current, quoted: quoted });
        assert(words_view(words@) =~= before.push(WordV { text: current@, quoted: quoted }));
    }
    Ok(words)
}


/// Characters that force an argument into quotes.
pub open spec fn is_special(c: char) -> bool {
    is_white_space(c) || c == '"' || c == '\\'
}

/// Whether `v` must be quoted to be read back as one word.
pub open spec fn needs_quotes(v: Seq<char>) -> bool {
    ||| v.len() == 0
    ||| (v.len() >= 2 && v[0] == '-' && v[1] == '-')
    ||| exists|i: int| 0 <= i < v.len() && is_special(#[trigger] v[i])
}

/// How one character is written inside double quotes.
pub open spec fn escape_char(c: char) -> Seq<char> {
    if c == '\n' {
        seq!['\\', 'n']
    } else if c == '\r' {
        seq!['\\', 'r']
    } else if c == '\t' {
        seq!['\\', 't']
    } else if c == '"' || c == '\\' {
        seq!['\\', c]
    } else {
        seq![c]
    }
}

/// How `v` is written inside double quotes.
pub open spec fn escaped(v: Seq<char>) -> Seq<char>
    decreases v.len(),
{
    if v.len() == 0 {
        seq![]
    } else {
        escaped(v.drop_last()) + escape_char(v.last())
    }
}

/// `v` written as one command argument: unchanged when that is unambiguous,
/// otherwise double-quoted with escapes.
pub open spec fn spec_quote_argument(v: Seq<char>) -> Seq<char> {
    if needs_quotes(v) {
        seq!['"'] + escaped(v) + seq!['"']
    } else {
        v
    }
}

/// Writes `value` as one command argument (see `spec_quote_argument`).
pub fn quote_argument(value: &str) -> (r: String)
    ensures
        r@ == spec_quote_argument(value@),
{
    let v = chars_of(value);
    let mut special = false;
    let mut i: usize = 0;
    while i < v.len()
        invariant
            0 <= i <= v.len(),
            special == exists|j: int| 0 <= j < i && is_special(#[trigger] v@[j]),
        decreases v.len() - i,
    {
        if is_whitespace(v[i]) || v[i] == '"' || v[i] == '\\' {
            special = true;
        }
        i = i + 1;
    }
    let dashes = v.len() >= 2 && v[0] == '-' && v[1] == '-';
    if v.len() > 0 && !dashes && !special {
        assert(!needs_quotes(value@));
        return string_of(v.as_slice());
    }
    let mut out: Vec<char> = Vec::new();
    out.push('"');
    let mut i: usize = 0;
    while i < v.len()
        invariant
            0 <= i <= v.len(),
            out@ == seq!['"'] + escaped(v@.take(i as int)),
        decreases v.len() - i,
    {
        let c = v[i];
        if c == '\n' {
            out.push('\\');
            out.push('n');
        } else if c == '\r' {
            out.push('\\');
            out.push('r');
        } else if c == '\t' {
            out.push('\\');
            out.push('t');
        } else if c == '"' || c == '\\' {
            out.push('\\');
            out.push(c);
        } else {
            out.push(c);
        }
        proof {
            assert(v@.take(i + 1).drop_last() =~= v@.take(i as int));
            assert(out@ =~= seq!['"'] + escaped(v@.take(i + 1)));
        }
        i = i + 1;
    }
    out.push('"');
    assert(v@.take(v.len() as int) =~= v@);
    assert(out@ =~= spec_quote_argument(value@));
    string_of(out.as_slice())
}

proof fn lemma_escaped_concat(a: Seq<char>, b: Seq<char>)
    ensures
        escaped(a + b) == escaped(a) + escaped(b),
    decreases b.len(),
{
    if b.len() == 0 {
        assert(a + b =~= a);
        assert(escaped(a) + escaped(b) =~= escaped(a));
    } else {
        lemma_escaped_concat(a, b.drop_last());
        assert((a + b).drop_last() =~= a + b.drop_last());
        assert(escaped(a) + escaped(b) =~= escaped(a) + escaped(b.drop_last()) + escape_char(b.last()));
    }
}

proof fn lemma_escaped_first(v: Seq<char>)
    requires
        v.len() > 0,
    ensures
        escaped(v) == escape_char(v[0]) + escaped(v.drop_first()),
{
    lemma_escaped_concat(seq![v[0]], v.drop_first());
    assert(seq![v[0]] + v.drop_first() =~= v);
    assert(seq![v[0]].drop_last() =~= Seq::<char>::empty());
    assert(escaped(Seq::<char>::empty()) =~= Seq::<char>::empty());
    assert(seq![v[0]].last() == v[0]);
    assert(escaped(seq![v[0]]) =~= escape_char(v[0]));
}

/// Inside double quotes, the escaped form of `v` reads back as `v`.
proof fn lemma_split_escaped(v: Seq<char>, tail: Seq<char>, st: TokState)
    requires
        st.quote == Some('"'),
    ensures
        split_from(escaped(v) + tail, st) == split_from(
            tail,
            TokState { current: st.current + v, ..st },
        ),
    decreases v.len(),
{
    if v.len() == 0 {
        assert(escaped(v) + tail =~= tail);
        assert(st.current + v =~= st.current);
    } else {
        let c = v[0];
        let rest = v.drop_first();
        lemma_escaped_first(v);
        let r = escaped(rest) + tail;
        let s = escaped(v) + tail;
        assert(s =~= escape_char(c) + r);
        let next = TokState { current: st.current.push(c), ..st };
        if c == '\n' || c == '\r' || c == '\t' || c == '"' || c == '\\' {
            assert(s.drop_first().skip(1) =~= r);
            assert(st.current + escape_of(s.drop_first()).0 =~= st.current.push(c));
        } else {
            assert(s.drop_first() =~= r);
        }
        assert(split_from(s, st) == split_from(r, next));
        lemma_split_escaped(rest, tail, next);
        assert(next.current + rest =~= st.current + v);
    }
}

/// Characters that need no quoting and open no quote read back unchanged.
proof fn lemma_split_plain(v: Seq<char>, tail: Seq<char>, st: TokState)
    requires
        st.quote is None,
        forall|i: int| 0 <= i < v.len() ==> !is_special(#[trigger] v[i]) && v[i] != '\'',
    ensures
        split_from(v + tail, st) == split_from(
            tail,
            TokState { current: st.current + v, started: st.started || v.len() > 0, ..st },
        ),
    decreases v.len(),
{
    if v.len() == 0 {
        assert(v + tail =~= tail);
        assert(st.current + v =~= st.current);
    } else {
        let c = v[0];
        let rest = v.drop_first();
        assert((v + tail).drop_first() =~= rest + tail);
        let next = TokState { current: st.current.push(c), started: true, ..st };
        assert(split_from(v + tail, st) == split_from(rest + tail, next));
        lemma_split_plain(rest, tail, next);
        assert(next.current + rest =~= st.current + v);
    }
}

/// A quoted argument followed by the end of input or whitespace reads back as
/// exactly one word holding `v`; the one exception is an unquoted `'`.
pub proof fn lemma_quoted_word(v: Seq<char>, tail: Seq<char>, st: TokState)
    requires
        needs_quotes(v) || !v.contains('\''),
        st.quote is None,
        !st.started,
        !st.quoted,
        st.current == Seq::<char>::empty(),
        tail.len() == 0 || is_white_space(tail[0]),
    ensures
        split_from(spec_quote_argument(v) + tail, st) == split_from(
            tail,
            TokState { current: v, started: true, quoted: needs_quotes(v), ..st },
        ),
{
    if needs_quotes(v) {
        let s = spec_quote_argument(v) + tail;
        let opened = TokState { quote: Some('"'), started: true, quoted: true, ..st };
        assert(s.drop_first() =~= escaped(v) + (seq!['"'] + tail));
        lemma_split_escaped(v, seq!['"'] + tail, opened);
        assert((seq!['"'] + tail).drop_first() =~= tail);
        assert(st.current + v =~= v);
    } else {
        assert forall|i: int| 0 <= i < v.len() implies !is_special(#[trigger] v[i]) && v[i] != '\'' by {
            if v[i] == '\'' {
                assert(v.contains('\''));
            }
        }
        lemma_split_plain(v, tail, st);
        assert(st.current + v =~= v);
    }
}

/// Quoting law: an argument written by `quote_argument` splits back into
/// exactly that argument, unless it holds a `'` that was left unquoted.
pub proof fn lemma_quote_argument_round_trip(v: Seq<char>)
    requires
        needs_quotes(v) || !v.contains('\''),
    ensures
        split_from(spec_quote_argument(v), initial_state()) == Ok::<Seq<WordV>, ()>(
            seq![WordV { text: v, quoted: needs_quotes(v) }],
        ),
{
    lemma_quoted_word(v, seq![], initial_state());
    assert(spec_quote_argument(v) + seq![] =~= spec_quote_argument(v));
    assert(Seq::<WordV>::empty().push(WordV { text: v, quoted: needs_quotes(v) })
        =~= seq![WordV { text: v, quoted: needs_quotes(v) }]);
}

} // verus!
