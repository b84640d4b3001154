//! Language-server messages on a byte stream: `Content-Length` headers,
//! a blank line, then the JSON body.
use vstd::prelude::*;
use vstd::utf8::encode_utf8;
use crate::command_bar::suggest::{ascii_lower, ascii_lower_exec, trimmed};
use crate::numbers::{decimal, spec_decimal, spec_parse_unsigned};
use crate::text::{chars_of, count_trailing_ws, eq_str, push_str, slice_vec, string_from, string_of, trim, trim_end};

verus! {

/// Largest message body, in bytes.
pub const MAX_MESSAGE: usize = 8388608;
/// Most header bytes before a body.
pub const MAX_HEADERS: usize = 8192;

/// `str::parse::<usize>`: the number that `s` writes (an optional `+`,
/// then decimal digits, within range), or the parse error's message.
/// What the message says is not stated.
#[verifier::external_body]
fn parse_usize(s: &str) -> (r: Result<usize, String>)
    ensures
        match spec_parse_unsigned(s@, usize::MAX as nat) {
            Some(v) => r == Ok::<usize, String>(v as usize),
            None => r is Err,
        },
{
    s.parse::<usize>().map_err(|e| e.to_string())
}

/// The headers read so far: the body length they gave, and their bytes.
pub struct HeaderReader {
    length: Option<usize>,
    bytes: usize,
}

pub struct HeadersV {
    pub length: Option<nat>,
    pub bytes: nat,
}

impl View for HeaderReader {
    type V = HeadersV;

    closed spec fn view(&self) -> HeadersV {
        HeadersV {
            length: match self.length {
                Some(n) => Some(n as nat),
                None => None,
            },
            bytes: self.bytes as nat,
        }
    }
}

/// Where the first `:` of `s` is.
pub open spec fn first_colon(s: Seq<char>, i: int) -> Option<int>
    decreases s.len() - i,
{
    if i < 0 || i >= s.len() {
        None
    } else if s[i] == ':' {
        Some(i)
    } else {
        first_colon(s, i + 1)
    }
}

/// What a header line changes: `Err(Some(m))` refuses the message with
/// `m`, `Err(None)` refuses it with the length's parse error; otherwise
/// the new state, and the body length once the blank line ends the
/// headers.
pub open spec fn header_step(h: HeadersV, line: Seq<char>) -> Result<(HeadersV, Option<nat>), Option<Seq<char>>> {
    let count = encode_utf8(line).len();
    let total = h.bytes + count;
    if count == 0 || total > MAX_HEADERS {
        Err(Some("LSP closed its output or sent an oversized header"@))
    } else if line == "\r\n"@ {
        match h.length {
            Some(n) => if 0 < n <= MAX_MESSAGE {
                Ok((HeadersV { bytes: total, ..h }, Some(n)))
            } else {
                Err(Some("Missing or oversized LSP Content-Length"@))
            },
            None => Err(Some("Missing or oversized LSP Content-Length"@)),
        }
    } else {
        let t = trim_end(line);
        match first_colon(t, 0) {
            None => Err(Some("Invalid LSP header"@)),
            Some(i) => if ascii_lower(t.take(i)) == "content-length"@ {
                if h.length is Some {
                    Err(Some("Duplicate LSP Content-Length"@))
                } else {
                    match spec_parse_unsigned(trim(t.skip(i + 1)), usize::MAX as nat) {
                        Some(n) => Ok((HeadersV { length: Some(n), bytes: total }, None)),
                        None => Err(None),
                    }
                }
            } else {
                Ok((HeadersV { bytes: total, ..h }, None))
            },
        }
    }
}

impl HeaderReader {
    pub closed spec fn wf(&self) -> bool {
        self.bytes <= MAX_HEADERS
    }

    /// No header read yet.
    pub fn new() -> (r: Self)
        ensures
            r.wf(),
            r@ == (HeadersV { length: None, bytes: 0 }),
    {
        HeaderReader { length: None, bytes: 0 }
    }

    /// How many bytes the next header line may have: one more than the
    /// headers have left, so that a longer line is seen to be too long.
    pub fn line_limit(&self) -> (r: usize)
        requires
            self.wf(),
        ensures
            r == MAX_HEADERS - self@.bytes + 1,
    {
        MAX_HEADERS - self.bytes + 1
    }

    /// Takes a header line as read (its line ending included; empty at the
    /// end of the stream): more headers follow (`None`), the body has
    /// `Some(n)` bytes, or the message is refused (see `header_step`).
    pub fn line(&mut self, line: &str) -> (r: Result<Option<usize>, String>)
        requires
            old(self).wf(),
        ensures
            final(self).wf(),
            match header_step(old(self)@, line@) {
                Ok((h, done)) => final(self)@ == h && match done {
                    Some(n) => r == Ok::<Option<usize>, String>(Some(n as usize)),
                    None => r == Ok::<Option<usize>, String>(None),
                },
                Err(Some(m)) => r matches Err(e) && e@ == m,
                Err(None) => r is Err,
            },
    {
        let count = line.as_bytes().len();
        if count == 0 || count > MAX_HEADERS - self.bytes {
            return Err(string_from("LSP closed its output or sent an oversized header"));
        }
        let chars = chars_of(line);
        proof {
            reveal_strlit("\r\n");
        }
        if chars.len() == 2 && chars[0] == '\r' && chars[1] == '\n' {
            assert(line@ =~= "\r\n"@);
            self.bytes = self.bytes + count;
            return match self.length {
                Some(n) => if 0 < n && n <= MAX_MESSAGE {
                    Ok(Some(n))
                } else {
                    Err(string_from("Missing or oversized LSP Content-Length"))
                },
                None => Err(string_from("Missing or oversized LSP Content-Length")),
            };
        }
        assert(line@ != "\r\n"@) by {
            if line@ == "\r\n"@ {
                assert(chars@[0] == '\r' && chars@[1] == '\n');
            }
        }
        let tail = count_trailing_ws(chars.as_slice(), chars.len());
        assert(chars@.take(chars.len() as int) =~= chars@);
        let t = slice_vec(chars.as_slice(), 0, chars.len() - tail);
        assert(t@ =~= trim_end(line@));
        let mut i: usize = 0;
        while i < t.len() && t[i] != ':'
            invariant
                0 <= i <= t.len(),
                first_colon(t@, 0) == first_colon(t@, i as int),
            decreases t.len() - i,
        {
            i = i + 1;
        }
        if i == t.len() {
            return Err(string_from("Invalid LSP header"));
        }
        let key = slice_vec(t.as_slice(), 0, i);
        assert(key@ =~= t@.take(i as int));
        let lower = ascii_lower_exec(key.as_slice());
        if eq_str(lower.as_slice(), "content-length") {
            if self.length.is_some() {
                return Err(string_from("Duplicate LSP Content-Length"));
            }
            let value = trimmed(t.as_slice(), i + 1);
            let text = string_of(value.as_slice());
            match parse_usize(text.as_str()) {
                Ok(n) => {
                    self.length = Some(n);
                    self.bytes = self.bytes + count;
                    Ok(None)
                },
                Err(e) => Err(e),
            }
        } else {
            self.bytes = self.bytes + count;
            Ok(None)
        }
    }
}

/// The frame of a message body: its `Content-Length` header, a blank
/// line, then the body; refused past 8 MiB.
pub fn frame(body: &[u8]) -> (r: Result<Vec<u8>, String>)
    ensures
        body.len() > MAX_MESSAGE ==> (r matches Err(e) && e@ == "LSP request exceeds size limit"@),
        body.len() <= MAX_MESSAGE ==> (r matches Ok(v) && v@ == encode_utf8("Content-Length: "@ + spec_decimal(
            body.len() as nat) + "\r\n\r\n"@) + body@),
{
    if body.len() > MAX_MESSAGE {
        return Err(string_from("LSP request exceeds size limit"));
    }
    let mut header = chars_of("Content-Length: ");
    let digits = decimal(body.len() as u64);
    crate::text::extend_chars(&mut header, digits.as_slice());
    push_str(&mut header, "\r\n\r\n");
    let text = string_of(header.as_slice());
    let mut out = crate::text::string_into_bytes(text);
    let ghost start = out@;
    let mut k: usize = 0;
    while k < body.len()
        invariant
            0 <= k <= body.len(),
            out@ == start + body@.take(k as int),
        decreases body.len() - k,
    {
        out.push(body[k]);
        assert(out@ =~= start + body@.take(k + 1));
        k = k + 1;
    }
    assert(body@.take(body.len() as int) =~= body@);
    Ok(out)
}

} // verus!
