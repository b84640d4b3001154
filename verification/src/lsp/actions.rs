//! Code actions offered by a language server: which can be previewed, and
//! in what order they are listed.
use vstd::prelude::*;
use crate::formatting::positions::opt_chars;
use crate::text::{chars_of, is_control, is_control_char, string_from, string_of};

verus! {

/// Most code actions a reply may hold.
pub const MAX_ACTIONS: usize = 256;
/// Longest reply, serialized, that the editor accepts.
pub const MAX_REPLY_BYTES: usize = 2097152;
/// Longest title kept, in characters.
pub const MAX_TITLE: usize = 240;

/// What the editor reads of one code action of a reply.
pub struct RawCodeAction {
    /// Its `title`, when that is a string.
    pub title: Option<String>,
    /// Its `disabled.reason`, when that is a string.
    pub disabled_reason: Option<String>,
    /// Whether it carries a `command` that is not null.
    pub has_command: bool,
    /// Whether its `isPreferred` is `true`.
    pub preferred: bool,
}

pub struct RawV {
    pub title: Option<Seq<char>>,
    pub disabled_reason: Option<Seq<char>>,
    pub has_command: bool,
    pub preferred: bool,
}

impl View for RawCodeAction {
    type V = RawV;

    open spec fn view(&self) -> RawV {
        RawV {
            title: opt_chars(self.title),
            disabled_reason: opt_chars(self.disabled_reason),
            has_command: self.has_command,
            preferred: self.preferred,
        }
    }
}

/// A server's reply to a code-action request, as the editor reads it.
pub enum ActionsReply {
    /// `null`: no actions.
    Null,
    /// Neither `null` nor a list.
    NotList,
    /// A list of actions, and the length of the whole reply serialized.
    List(Vec<RawCodeAction>, usize),
}

/// A code action as the editor lists it; `index` is its place in the reply.
pub struct CodeActionItem {
    pub title: String,
    pub disabled: Option<String>,
    pub index: usize,
}

impl View for CodeActionItem {
    type V = (Seq<char>, Option<Seq<char>>, int);

    open spec fn view(&self) -> (Seq<char>, Option<Seq<char>>, int) {
        (self.title@, opt_chars(self.disabled), self.index as int)
    }
}

pub open spec fn raws_view(v: Seq<RawCodeAction>) -> Seq<RawV> {
    v.map_values(|a: RawCodeAction| a@)
}

/// `s` without its control characters.
pub open spec fn without_controls(s: Seq<char>) -> Seq<char>
    decreases s.len(),
{
    if s.len() == 0 {
        s
    } else if is_control_char(s.last()) {
        without_controls(s.drop_last())
    } else {
        without_controls(s.drop_last()).push(s.last())
    }
}

/// The title as listed: control characters removed, at most 240 kept.
pub open spec fn clean_title(t: Seq<char>) -> Seq<char> {
    let w = without_controls(t);
    if w.len() <= MAX_TITLE {
        w
    } else {
        w.take(MAX_TITLE as int)
    }
}

/// Why an action cannot be previewed, if it cannot: the reason the server
/// gives, or that it needs a server command.
pub open spec fn disabled_of(a: RawV) -> Option<Seq<char>> {
    match a.disabled_reason {
        Some(r) => Some(r),
        None => if a.has_command {
            Some("This action requires a server command; only previewable workspace edits are supported"@)
        } else {
            None
        },
    }
}

/// The listed actions among the first `n` whose preference is `preferred`,
/// in reply order.
pub open spec fn ordered(raws: Seq<RawV>, preferred: bool, n: int) -> Seq<(Seq<char>, Option<Seq<char>>, int)>
    decreases n,
{
    if n <= 0 {
        Seq::empty()
    } else {
        ordered(raws, preferred, n - 1) + if raws[n - 1].preferred == preferred {
            seq![(clean_title(raws[n - 1].title->0), disabled_of(raws[n - 1]), n - 1)]
        } else {
            Seq::empty()
        }
    }
}

/// The actions listed for a reply, preferred ones first and otherwise in
/// reply order, or why the reply is refused.
pub open spec fn action_list(reply: ActionsReply) -> Result<Seq<(Seq<char>, Option<Seq<char>>, int)>, Seq<char>> {
    match reply {
        ActionsReply::Null => Ok(Seq::empty()),
        ActionsReply::NotList => Err("Invalid code-action response"@),
        ActionsReply::List(actions, serialized_len) => {
            let raws = raws_view(actions@);
            if raws.len() > MAX_ACTIONS || serialized_len > MAX_REPLY_BYTES {
                Err("Language server returned too many code actions"@)
            } else if exists|i: int| 0 <= i < raws.len() && (#[trigger] raws[i]).title is None {
                Err("Code action has no title"@)
            } else {
                Ok(ordered(raws, true, raws.len() as int) + ordered(raws, false, raws.len() as int))
            }
        },
    }
}

fn title_of(t: &str) -> (r: String)
    ensures
        r@ == clean_title(t@),
{
    let chars = chars_of(t);
    let ghost s = t@;
    let mut kept: Vec<char> = Vec::new();
    let mut i: usize = 0;
    assert(s.take(0) =~= Seq::<char>::empty());
    while i < chars.len()
        invariant
            0 <= i <= chars.len(),
            chars@ == s,
            kept@ == clean_title(s.take(i as int)),
            kept@.len() <= MAX_TITLE,
        decreases chars.len() - i,
    {
        let c = chars[i];
        assert(s.take(i + 1).drop_last() =~= s.take(i as int));
        assert(s.take(i + 1).last() == c);
        if !is_control(c) && kept.len() < MAX_TITLE {
            kept.push(c);
        }
        proof {
            let w = without_controls(s.take(i as int));
            if !is_control_char(c) && w.len() >= MAX_TITLE {
                assert(w.push(c).take(MAX_TITLE as int) =~= w.take(MAX_TITLE as int));
            }
            if !is_control_char(c) && w.len() < MAX_TITLE {
                assert(kept@ =~= w.push(c));
            }
        }
        i = i + 1;
    }
    assert(s.take(s.len() as int) =~= s);
    string_of(kept.as_slice())
}

fn item_of(a: &RawCodeAction, title: &String, index: usize) -> (r: CodeActionItem)
    requires
        a@.title == Some(title@),
    ensures
        r@ == (clean_title(title@), disabled_of(a@), index as int),
{
    let disabled = match &a.disabled_reason {
        Some(reason) => Some(string_of(chars_of(reason.as_str()).as_slice())),
        None => if a.has_command {
            Some(string_from("This action requires a server command; only previewable workspace edits are supported"))
        } else {
            None
        },
    };
    CodeActionItem { title: title_of(title.as_str()), disabled, index }
}

fn collect(raws: &Vec<RawCodeAction>, preferred: bool, out: &mut Vec<CodeActionItem>)
    requires
        forall|i: int| 0 <= i < raws@.len() ==> (#[trigger] raws@[i])@.title is Some,
    ensures
        final(out)@.map_values(|c: CodeActionItem| c@)
            == old(out)@.map_values(|c: CodeActionItem| c@) + ordered(raws_view(raws@), preferred, raws@.len() as int),
{
    let ghost before = out@.map_values(|c: CodeActionItem| c@);
    let ghost rv = raws_view(raws@);
    let mut i: usize = 0;
    assert(before + ordered(rv, preferred, 0) =~= before);
    while i < raws.len()
        invariant
            0 <= i <= raws.len(),
            rv == raws_view(raws@),
            rv.len() == raws@.len(),
            forall|k: int| 0 <= k < raws@.len() ==> (#[trigger] raws@[k])@.title is Some,
            out@.map_values(|c: CodeActionItem| c@) == before + ordered(rv, preferred, i as int),
        decreases raws.len() - i,
    {
        let a = &raws[i];
        assert(rv[i as int] == a@);
        let ghost prior = out@;
        if a.preferred == preferred {
            match &a.title {
                Some(t) => {
                    let item = item_of(a, t, i);
                    out.push(item);
                    assert(out@.map_values(|c: CodeActionItem| c@) =~= prior.map_values(|c: CodeActionItem| c@).push(item@));
                },
                None => {},
            }
        }
        assert(before + ordered(rv, preferred, i + 1) =~= before + ordered(rv, preferred, i as int) + if rv[i as int].preferred == preferred {
            seq![(clean_title(rv[i as int].title->0), disabled_of(rv[i as int]), i as int)]
        } else {
            Seq::empty()
        });
        i = i + 1;
    }
}

/// The actions of a reply as the editor lists them: preferred ones first,
/// otherwise in reply order; titles without control characters and at
/// most 240 characters long; those that need a server command or that the
/// server disables marked with the reason. Refused: a reply that is not a
/// list, one with more than 256 actions or over 2 MiB, and an action
/// without a title.
pub fn actions(reply: &ActionsReply) -> (r: Result<Vec<CodeActionItem>, String>)
    ensures
        match action_list(*reply) {
            Ok(items) => r matches Ok(v) && v@.map_values(|c: CodeActionItem| c@) == items,
            Err(m) => r matches Err(e) && e@ == m,
        },
{
    match reply {
        ActionsReply::Null => {
            let v: Vec<CodeActionItem> = Vec::new();
            assert(v@.map_values(|c: CodeActionItem| c@) =~= Seq::empty());
            Ok(v)
        },
        ActionsReply::NotList => Err(string_from("Invalid code-action response")),
        ActionsReply::List(raws, serialized_len) => {
            let ghost rv = raws_view(raws@);
            if raws.len() > MAX_ACTIONS || *serialized_len > MAX_REPLY_BYTES {
                return Err(string_from("Language server returned too many code actions"));
            }
            let mut i: usize = 0;
            while i < raws.len()
                invariant
                    0 <= i <= raws.len(),
                    rv == raws_view(raws@),
                    rv.len() == raws@.len(),
                    rv.len() <= MAX_ACTIONS,
                    *serialized_len <= MAX_REPLY_BYTES,
                    *reply == ActionsReply::List(*raws, *serialized_len),
                    forall|k: int| 0 <= k < i ==> (#[trigger] raws@[k])@.title is Some,
                decreases raws.len() - i,
            {
                assert(rv[i as int] == raws@[i as int]@);
                if raws[i].title.is_none() {
                    assert(rv[i as int].title is None);
                    return Err(string_from("Code action has no title"));
                }
                i = i + 1;
            }
            assert(!(exists|k: int| 0 <= k < rv.len() && (#[trigger] rv[k]).title is None)) by {
                assert forall|k: int| 0 <= k < rv.len() implies !((#[trigger] rv[k]).title is None) by {
                    assert(rv[k] == raws@[k]@);
                }
            }
            let mut out: Vec<CodeActionItem> = Vec::new();
            assert(out@.map_values(|c: CodeActionItem| c@) =~= Seq::empty());
            collect(raws, true, &mut out);
            collect(raws, false, &mut out);
            assert(Seq::<(Seq<char>, Option<Seq<char>>, int)>::empty() + ordered(rv, true, rv.len() as int)
                =~= ordered(rv, true, rv.len() as int));
            Ok(out)
        },
    }
}

/// Most diagnostics sent with a code-action request.
pub const MAX_DIAGNOSTICS: usize = 256;

/// Whether LSP position `a` (line, character) comes no later than `b`.
pub open spec fn not_after(a: (u64, u64), b: (u64, u64)) -> bool {
    a.0 < b.0 || (a.0 == b.0 && a.1 <= b.1)
}

/// Whether a diagnostic's range touches the selection from `start` to
/// `end`; one without a valid range does not.
pub open spec fn touches(range: (Option<(u64, u64)>, Option<(u64, u64)>), start: (u64, u64), end: (u64, u64)) -> bool {
    match range {
        (Some(a), Some(b)) => not_after(a, end) && not_after(start, b),
        _ => false,
    }
}

/// Indices, among the first `n`, of the diagnostics that touch the
/// selection.
pub open spec fn touching(ranges: Seq<(Option<(u64, u64)>, Option<(u64, u64)>)>, start: (u64, u64), end: (u64, u64), n: int) -> Seq<usize>
    decreases n,
{
    if n <= 0 {
        Seq::empty()
    } else {
        touching(ranges, start, end, n - 1) + if touches(ranges[n - 1], start, end) {
            seq![(n - 1) as usize]
        } else {
            Seq::empty()
        }
    }
}

fn not_after_exec(a: (u64, u64), b: (u64, u64)) -> (r: bool)
    ensures
        r == not_after(a, b),
{
    a.0 < b.0 || (a.0 == b.0 && a.1 <= b.1)
}

/// The diagnostics sent with a code-action request: of the first 256,
/// those whose range touches the selection from `start` to `end`, by
/// index.
pub fn diagnostics_in_range(ranges: &[(Option<(u64, u64)>, Option<(u64, u64)>)], start: (u64, u64), end: (u64, u64)) -> (r: Vec<usize>)
    ensures
        r@ == touching(ranges@, start, end, if ranges@.len() < MAX_DIAGNOSTICS { ranges@.len() as int } else { MAX_DIAGNOSTICS as int }),
{
    let n = if ranges.len() < MAX_DIAGNOSTICS { ranges.len() } else { MAX_DIAGNOSTICS };
    let mut r: Vec<usize> = Vec::new();
    let mut i: usize = 0;
    while i < n
        invariant
            0 <= i <= n <= ranges.len(),
            r@ == touching(ranges@, start, end, i as int),
        decreases n - i,
    {
        let keep = match ranges[i] {
            (Some(a), Some(b)) => not_after_exec(a, end) && not_after_exec(start, b),
            _ => false,
        };
        if keep {
            r.push(i);
        }
        assert(r@ =~= touching(ranges@, start, end, i + 1));
        i = i + 1;
    }
    r
}

} // verus!
