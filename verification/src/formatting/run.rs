//! Running an external formatter: its arguments, and the decisions made
//! while its output and diagnostics are read (limits, failure, success).
use vstd::prelude::*;
use crate::command_bar::suggest::trimmed;
use crate::formatting::positions::MAX_OUTPUT_BYTES;
use crate::formatting::providers::{Provider, ProviderV};
use crate::text::{chars_of, extend_chars, is_control, is_control_char, lossy_utf8, push_str, string_from_utf8_lossy,
    string_of, trim};

verus! {

/// Most diagnostic bytes a formatter may write.
pub const MAX_ERROR_BYTES: usize = 65536;
/// Diagnostic bytes kept for the error message.
pub const MAX_DIAGNOSTIC: usize = 1024;

/// `{filepath}` in a provider's argument.
pub open spec fn placeholder() -> Seq<char> {
    seq!['{', 'f', 'i', 'l', 'e', 'p', 'a', 't', 'h', '}']
}

/// `arg` with every `{filepath}` replaced by `path`, left to right.
pub open spec fn substituted(arg: Seq<char>, path: Seq<char>) -> Seq<char>
    decreases arg.len(),
{
    if arg.len() == 0 {
        arg
    } else if arg.len() >= 10 && arg.take(10) == placeholder() {
        path + substituted(arg.skip(10), path)
    } else {
        seq![arg[0]] + substituted(arg.skip(1), path)
    }
}

fn placeholder_at(arg: &[char], i: usize) -> (r: bool)
    requires
        i <= arg.len(),
    ensures
        r == (arg@.skip(i as int).len() >= 10 && arg@.skip(i as int).take(10) == placeholder()),
{
    if arg.len() - i < 10 {
        return false;
    }
    let pattern = ['{', 'f', 'i', 'l', 'e', 'p', 'a', 't', 'h', '}'];
    let mut k: usize = 0;
    while k < 10
        invariant
            0 <= k <= 10,
            i + 10 <= arg.len(),
            pattern@ == placeholder(),
            forall|q: int| 0 <= q < k ==> arg@[i + q] == placeholder()[q],
        decreases 10 - k,
    {
        if arg[i + k] != pattern[k] {
            assert(arg@.skip(i as int).take(10)[k as int] == arg@[i + k]);
            return false;
        }
        k = k + 1;
    }
    assert(arg@.skip(i as int).take(10) =~= placeholder());
    true
}

/// One argument with `{filepath}` replaced by `path`.
pub fn substitute(arg: &str, path: &str) -> (r: String)
    ensures
        r@ == substituted(arg@, path@),
{
    let a = chars_of(arg);
    let p = chars_of(path);
    let mut out: Vec<char> = Vec::new();
    let mut i: usize = 0;
    assert(a@.skip(0) =~= a@);
    assert(out@ + substituted(a@, path@) =~= substituted(a@, path@));
    while i < a.len()
        invariant
            0 <= i <= a.len(),
            a@ == arg@,
            p@ == path@,
            out@ + substituted(a@.skip(i as int), path@) == substituted(arg@, path@),
        decreases a.len() - i,
    {
        let ghost rest = a@.skip(i as int);
        if placeholder_at(a.as_slice(), i) {
            extend_chars(&mut out, p.as_slice());
            assert(rest.skip(10) =~= a@.skip(i + 10));
            assert(out@ + substituted(a@.skip(i + 10), path@) =~= (out@.subrange(0, out@.len() - p@.len()) + substituted(rest, path@)));
            i = i + 10;
        } else {
            out.push(a[i]);
            assert(rest.skip(1) =~= a@.skip(i + 1));
            assert(rest[0] == a@[i as int]);
            assert(out@ + substituted(a@.skip(i + 1), path@) =~= (out@.drop_last() + substituted(rest, path@)));
            i = i + 1;
        }
    }
    assert(a@.skip(i as int) =~= Seq::<char>::empty());
    assert(out@ + Seq::<char>::empty() =~= out@);
    string_of(out.as_slice())
}

impl Provider {
    /// The provider's arguments for a file at `path`: each `{filepath}`
    /// becomes the path, which stays one argument however it is spelled.
    pub fn arguments(&self, path: &str) -> (r: Vec<String>)
        ensures
            r@.len() == self@.args.len(),
            forall|i: int| 0 <= i < r@.len() ==> (#[trigger] r@[i])@ == substituted(self@.args[i], path@),
    {
        let mut r: Vec<String> = Vec::new();
        let mut i: usize = 0;
        while i < self.args.len()
            invariant
                0 <= i <= self.args.len(),
                r@.len() == i,
                forall|k: int| 0 <= k < i ==> (#[trigger] r@[k])@ == substituted(self@.args[k], path@),
            decreases self.args.len() - i,
        {
            assert(self@.args[i as int] == self.args@[i as int]@);
            r.push(substitute(self.args[i].as_str(), path));
            i = i + 1;
        }
        r
    }

    /// The name a formatter sees for an unsaved document: `untitled.`
    /// with the provider's first extension, or `txt`.
    pub fn untitled_name(&self) -> (r: String)
        ensures
            r@ == "untitled."@ + if self@.extensions.len() > 0 { self@.extensions[0] } else { "txt"@ },
    {
        let mut name = chars_of("untitled.");
        if self.extensions.len() > 0 {
            assert(self@.extensions[0] == self.extensions@[0]@);
            extend_chars(&mut name, chars_of(self.extensions[0].as_str()).as_slice());
        } else {
            push_str(&mut name, "txt");
        }
        string_of(name.as_slice())
    }
}

/// What is known of a running formatter: bytes of output and of
/// diagnostics so far, the first diagnostic bytes, which pipes are closed,
/// and its exit (whether it succeeded, and how it reports its status).
pub struct FormatterRun {
    output_length: usize,
    error_length: usize,
    diagnostic: Vec<u8>,
    stdout_closed: bool,
    stderr_closed: bool,
    status: Option<(bool, String)>,
}

pub struct RunV {
    pub output_length: nat,
    pub error_length: nat,
    pub diagnostic: Seq<u8>,
    pub stdout_closed: bool,
    pub stderr_closed: bool,
    pub status: Option<(bool, Seq<char>)>,
}

impl View for FormatterRun {
    type V = RunV;

    closed spec fn view(&self) -> RunV {
        RunV {
            output_length: self.output_length as nat,
            error_length: self.error_length as nat,
            diagnostic: self.diagnostic@,
            stdout_closed: self.stdout_closed,
            stderr_closed: self.stderr_closed,
            status: match self.status {
                Some((ok, s)) => Some((ok, s@)),
                None => None,
            },
        }
    }
}

/// The diagnostics as an error message: decoded, control characters
/// blanked, trimmed.
pub open spec fn diagnostic_message(bytes: Seq<u8>) -> Seq<char> {
    trim(lossy_utf8(bytes).map_values(|c: char| if is_control_char(c) { ' ' } else { c }))
}

/// How a run ends once both pipes are closed and the formatter exited.
pub open spec fn run_result(r: RunV, name: Seq<char>) -> Option<Result<(), Seq<char>>> {
    if r.stdout_closed && r.stderr_closed && r.status is Some {
        let (ok, status) = r.status->0;
        if ok {
            Some(Ok(()))
        } else {
            Some(Err(name + " failed ("@ + status + "): "@ + diagnostic_message(r.diagnostic)))
        }
    } else {
        None
    }
}

impl FormatterRun {
    pub closed spec fn wf(&self) -> bool {
        &&& self.output_length <= MAX_OUTPUT_BYTES
        &&& self.error_length <= MAX_ERROR_BYTES
        &&& self.diagnostic@.len() <= MAX_DIAGNOSTIC
    }

    /// A formatter just started.
    pub fn new() -> (r: Self)
        ensures
            r.wf(),
            r@ == (RunV {
                output_length: 0,
                error_length: 0,
                diagnostic: seq![],
                stdout_closed: false,
                stderr_closed: false,
                status: None,
            }),
    {
        FormatterRun {
            output_length: 0,
            error_length: 0,
            diagnostic: Vec::new(),
            stdout_closed: false,
            stderr_closed: false,
            status: None,
        }
    }

    /// Output read from the formatter (nothing: the pipe closed). Refused
    /// past 4 MiB; otherwise the caller keeps the chunk. Whether it made
    /// progress.
    pub fn output(&mut self, chunk: &[u8]) -> (r: Result<bool, String>)
        requires
            old(self).wf(),
        ensures
            final(self).wf(),
            chunk.len() == 0 ==> r == Ok::<bool, String>(false)
                && final(self)@ == (RunV { stdout_closed: true, ..old(self)@ }),
            chunk.len() > 0 && old(self)@.output_length + chunk.len() > MAX_OUTPUT_BYTES ==> (r matches Err(e)
                && e@ == "Formatter output exceeds 4 MiB; document preserved"@),
            chunk.len() > 0 && old(self)@.output_length + chunk.len() <= MAX_OUTPUT_BYTES ==> r == Ok::<bool, String>(true)
                && final(self)@ == (RunV { output_length: (old(self)@.output_length + chunk.len()) as nat, ..old(self)@ }),
    {
        if chunk.len() == 0 {
            self.stdout_closed = true;
            return Ok(false);
        }
        if chunk.len() > MAX_OUTPUT_BYTES - self.output_length {
            return Err(crate::text::string_from("Formatter output exceeds 4 MiB; document preserved"));
        }
        self.output_length = self.output_length + chunk.len();
        Ok(true)
    }

    /// Diagnostics read from the formatter (nothing: the pipe closed).
    /// Refused past 64 KiB; the first 1 KiB is kept for the message.
    pub fn diagnostics(&mut self, chunk: &[u8]) -> (r: Result<bool, String>)
        requires
            old(self).wf(),
        ensures
            final(self).wf(),
            chunk.len() == 0 ==> r == Ok::<bool, String>(false)
                && final(self)@ == (RunV { stderr_closed: true, ..old(self)@ }),
            chunk.len() > 0 && old(self)@.error_length + chunk.len() > MAX_ERROR_BYTES ==> (r matches Err(e)
                && e@ == "Formatter diagnostics exceed 64 KiB; document preserved"@),
            chunk.len() > 0 && old(self)@.error_length + chunk.len() <= MAX_ERROR_BYTES ==> {
                let keep = if chunk.len() < MAX_DIAGNOSTIC - old(self)@.diagnostic.len() {
                    chunk.len() as int
                } else {
                    MAX_DIAGNOSTIC - old(self)@.diagnostic.len()
                };
                &&& r == Ok::<bool, String>(true)
                &&& final(self)@ == (RunV {
                    error_length: (old(self)@.error_length + chunk.len()) as nat,
                    diagnostic: old(self)@.diagnostic + chunk@.take(keep),
                    ..old(self)@
                })
            },
    {
        if chunk.len() == 0 {
            self.stderr_closed = true;
            return Ok(false);
        }
        if chunk.len() > MAX_ERROR_BYTES - self.error_length {
            return Err(crate::text::string_from("Formatter diagnostics exceed 64 KiB; document preserved"));
        }
        self.error_length = self.error_length + chunk.len();
        let room = MAX_DIAGNOSTIC - self.diagnostic.len();
        let keep = if chunk.len() < room { chunk.len() } else { room };
        let ghost before = self.diagnostic@;
        let mut k: usize = 0;
        while k < keep
            invariant
                0 <= k <= keep <= chunk.len(),
                keep <= room,
                room == MAX_DIAGNOSTIC - before.len(),
                self.diagnostic@ == before + chunk@.take(k as int),
                self.output_length == old(self).output_length,
                self.error_length == old(self).error_length + chunk.len(),
                self.error_length <= MAX_ERROR_BYTES,
                self.output_length <= MAX_OUTPUT_BYTES,
                self.stdout_closed == old(self).stdout_closed,
                self.stderr_closed == old(self).stderr_closed,
                self.status == old(self).status,
            decreases keep - k,
        {
            self.diagnostic.push(chunk[k]);
            assert(self.diagnostic@ =~= before + chunk@.take(k + 1));
            k = k + 1;
        }
        Ok(true)
    }

    /// The formatter exited; whether it succeeded and its status as text.
    pub fn exited(&mut self, success: bool, status: String)
        ensures
            final(self).wf() == old(self).wf(),
            final(self)@ == (RunV { status: Some((success, status@)), ..old(self)@ }),
    {
        self.status = Some((success, status));
    }

    /// Whether the formatter's exit is known.
    pub fn has_exited(&self) -> (r: bool)
        ensures
            r == self@.status is Some,
    {
        self.status.is_some()
    }

    /// How the run ends, once both pipes are closed and the formatter
    /// exited: success, or its failure with the diagnostics.
    pub fn result(&self, name: &str) -> (r: Option<Result<(), String>>)
        ensures
            match run_result(self@, name@) {
                None => r is None,
                Some(Ok(())) => r matches Some(Ok(())),
                Some(Err(m)) => r matches Some(Err(e)) && e@ == m,
            },
    {
        if !(self.stdout_closed && self.stderr_closed) {
            return None;
        }
        match &self.status {
            None => None,
            Some((ok, status)) => {
                if *ok {
                    return Some(Ok(()));
                }
                let text = string_from_utf8_lossy(self.diagnostic.as_slice());
                let chars = chars_of(text.as_str());
                let mut blanked: Vec<char> = Vec::new();
                let mut i: usize = 0;
                while i < chars.len()
                    invariant
                        0 <= i <= chars.len(),
                        chars@ == lossy_utf8(self.diagnostic@),
                        blanked@ == chars@.take(i as int).map_values(|c: char| if is_control_char(c) { ' ' } else { c }),
                    decreases chars.len() - i,
                {
                    let c = chars[i];
                    blanked.push(if is_control(c) { ' ' } else { c });
                    assert(blanked@ =~= chars@.take(i + 1).map_values(|c: char| if is_control_char(c) { ' ' } else { c }));
                    i = i + 1;
                }
                assert(chars@.take(chars.len() as int) =~= chars@);
                let message = trimmed(blanked.as_slice(), 0);
                assert(blanked@.skip(0) =~= blanked@);
                let mut m = chars_of(name);
                push_str(&mut m, " failed (");
                extend_chars(&mut m, chars_of(status.as_str()).as_slice());
                push_str(&mut m, "): ");
                extend_chars(&mut m, message.as_slice());
                Some(Err(string_of(m.as_slice())))
            },
        }
    }
}

/// The error for a formatter that ran out of time.
pub fn timed_out(name: &str) -> (r: String)
    ensures
        r@ == name@ + " exceeded the formatting time limit; document preserved"@,
{
    let mut m = chars_of(name);
    push_str(&mut m, " exceeded the formatting time limit; document preserved");
    string_of(m.as_slice())
}

} // verus!
