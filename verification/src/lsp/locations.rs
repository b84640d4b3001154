//! Definition locations in a server's reply: local files only, with
//! positions in range.
use vstd::prelude::*;
use crate::text::string_from;

verus! {

#[verifier::external_type_specification]
#[verifier::external_body]
pub struct ExUrl(url::Url);

/// What the editor reads of a parsed URL: its scheme, query, fragment and
/// host.
pub struct UrlParts {
    pub scheme: String,
    pub query: Option<String>,
    pub fragment: Option<String>,
    pub host: Option<String>,
}

pub open spec fn opt_view(s: Option<String>) -> Option<Seq<char>> {
    match s {
        Some(v) => Some(v@),
        None => None,
    }
}

impl View for UrlParts {
    type V = (Seq<char>, Option<Seq<char>>, Option<Seq<char>>, Option<Seq<char>>);

    open spec fn view(&self) -> Self::V {
        (self.scheme@, opt_view(self.query), opt_view(self.fragment), opt_view(self.host))
    }
}

/// The parts of the URL that `Url::parse` reads from `uri`, or its error's
/// message.
pub uninterp spec fn parsed_url(uri: Seq<char>) -> Result<
    (Seq<char>, Option<Seq<char>>, Option<Seq<char>>, Option<Seq<char>>),
    Seq<char>,
>;

/// `url::Url::parse`: the URL, with its scheme, query, fragment and host
/// (`Url::scheme`, `query`, `fragment`, `host_str`), or the parse error's
/// message. The result depends on `uri` alone and is named `parsed_url`;
/// the URL's other properties are not stated.
#[verifier::external_body]
fn parse_url(uri: &str) -> (r: Result<(url::Url, UrlParts), String>)
    ensures
        match r {
            Ok((_, p)) => parsed_url(uri@) == Ok::<_, Seq<char>>(p@),
            Err(e) => parsed_url(uri@) == Err::<(Seq<char>, Option<Seq<char>>, Option<Seq<char>>, Option<Seq<char>>), _>(e@),
        },
{
    match url::Url::parse(uri) {
        Ok(url) => {
            let parts = UrlParts {
                scheme: url.scheme().to_string(),
                query: url.query().map(str::to_string),
                fragment: url.fragment().map(str::to_string),
                host: url.host_str().map(str::to_string),
            };
            Ok((url, parts))
        },
        Err(e) => Err(e.to_string()),
    }
}

/// `url::Url::to_file_path`, the path as text (`OsString::into_string`):
/// none where the URL names no path on this platform or the path is not
/// UTF-8, which a path of the library cannot hold. What it gives depends on
/// the platform, so nothing is stated of it.
#[verifier::external_body]
fn file_path(url: &url::Url) -> (r: Option<String>) {
    url.to_file_path().ok().and_then(|path| path.into_os_string().into_string().ok())
}

/// Why a parsed URL is not a local file, if it is not: another scheme, a
/// query or fragment, or a host other than `localhost`.
pub open spec fn local_file_problem(p: (Seq<char>, Option<Seq<char>>, Option<Seq<char>>, Option<Seq<char>>)) -> Option<Seq<char>> {
    if p.0 != "file"@ || p.1 is Some || p.2 is Some {
        Some("This definition is not a local file"@)
    } else if p.3 matches Some(h) && h.len() > 0 && h != "localhost"@ {
        Some("Remote definition locations are not supported"@)
    } else {
        None
    }
}

/// What holds of the path of a definition's URI, whatever the platform
/// makes of a file URL: the URI's parse error, the reason it is not a
/// local file, or a path (or, where the platform has none for it, the
/// error for an invalid file URI).
pub open spec fn path_outcome(uri: Seq<char>, r: Result<Seq<char>, Seq<char>>) -> bool {
    match parsed_url(uri) {
        Err(m) => r == Err::<Seq<char>, Seq<char>>(m),
        Ok(p) => match local_file_problem(p) {
            Some(m) => r == Err::<Seq<char>, Seq<char>>(m),
            None => r is Ok || r == Err::<Seq<char>, Seq<char>>("Invalid definition file URI"@),
        },
    }
}

pub open spec fn result_view(r: Result<String, String>) -> Result<Seq<char>, Seq<char>> {
    match r {
        Ok(v) => Ok(v@),
        Err(e) => Err(e@),
    }
}

/// The local path of a definition's URI (see `path_outcome`).
pub fn uri_path(uri: &str) -> (r: Result<String, String>)
    ensures
        path_outcome(uri@, result_view(r)),
{
    let (url, parts) = match parse_url(uri) {
        Ok(v) => v,
        Err(e) => return Err(e),
    };
    let scheme_ok = crate::text::eq_str(crate::text::chars_of(parts.scheme.as_str()).as_slice(), "file");
    if !scheme_ok || parts.query.is_some() || parts.fragment.is_some() {
        return Err(string_from("This definition is not a local file"));
    }
    match &parts.host {
        Some(h) => {
            let host = crate::text::chars_of(h.as_str());
            if host.len() > 0 && !crate::text::eq_str(host.as_slice(), "localhost") {
                return Err(string_from("Remote definition locations are not supported"));
            }
        },
        None => {},
    }
    match file_path(&url) {
        Some(p) => Ok(p),
        None => Err(string_from("Invalid definition file URI")),
    }
}

/// A location in a definition reply: whether it is a link (it has a
/// `targetUri`), and for a link its `targetUri` and the start of its
/// `targetSelectionRange`, otherwise its `uri` and the start of its
/// `range` (each where it is a string or an unsigned number).
pub struct RawLocation {
    pub link: bool,
    pub target_uri: Option<String>,
    pub target_start: (Option<u64>, Option<u64>),
    pub uri: Option<String>,
    pub start: (Option<u64>, Option<u64>),
}

/// A definition reply: `null`, a list of locations, or one location.
pub enum DefinitionReply {
    Null,
    List(Vec<RawLocation>),
    Single(RawLocation),
}

/// A definition's file and zero-based position (in UTF-16 code units).
pub struct Location {
    pub path: String,
    pub line: usize,
    pub character: usize,
}

/// Most locations read from a reply.
pub const MAX_LOCATIONS: usize = 32;

/// The URI and start position that a location names.
pub open spec fn named(l: RawLocation) -> (Option<String>, (Option<u64>, Option<u64>)) {
    if l.link {
        (l.target_uri, l.target_start)
    } else {
        (l.uri, l.start)
    }
}

/// A position number: present and at most `i32::MAX`.
pub open spec fn number_ok(n: Option<u64>) -> bool {
    n matches Some(v) && v <= i32::MAX
}

/// The locations of `items[k..]` after `acc`, given what their URIs
/// resolved to (`paths`), or the first problem: a missing URI, the URI's
/// path error, then an invalid line or character.
pub open spec fn located(items: Seq<RawLocation>, paths: Seq<Result<Seq<char>, Seq<char>>>, k: int,
    acc: Seq<(Seq<char>, nat, nat)>) -> Result<Seq<(Seq<char>, nat, nat)>, Seq<char>>
    decreases items.len() - k,
{
    if k < 0 || k >= items.len() {
        Ok(acc)
    } else {
        let (uri, (line, character)) = named(items[k]);
        if uri is None {
            Err("Missing definition URI"@)
        } else {
            match paths[k] {
                Err(m) => Err(m),
                Ok(p) => if !number_ok(line) || !number_ok(character) {
                    Err("Invalid definition position"@)
                } else {
                    located(items, paths, k + 1, acc.push((p, line->0 as nat, character->0 as nat)))
                },
            }
        }
    }
}

pub open spec fn reply_items(reply: DefinitionReply) -> Seq<RawLocation> {
    match reply {
        DefinitionReply::Null => seq![],
        DefinitionReply::List(v) => if v.len() <= MAX_LOCATIONS { v@ } else { v@.take(MAX_LOCATIONS as int) },
        DefinitionReply::Single(l) => seq![l],
    }
}

pub open spec fn locations_view(v: Seq<Location>) -> Seq<(Seq<char>, nat, nat)> {
    v.map_values(|l: Location| (l.path@, l.line as nat, l.character as nat))
}

/// The items of a reply that are read: at most 32.
fn reply_refs(reply: &DefinitionReply) -> (r: Vec<&RawLocation>)
    ensures
        r@.len() == reply_items(*reply).len(),
        forall|j: int| 0 <= j < r@.len() ==> *#[trigger] r@[j] == reply_items(*reply)[j],
{
    match reply {
        DefinitionReply::Null => Vec::new(),
        DefinitionReply::List(v) => {
            let mut refs: Vec<&RawLocation> = Vec::new();
            let mut i: usize = 0;
            while i < v.len() && i < MAX_LOCATIONS
                invariant
                    0 <= i <= v.len(),
                    i <= MAX_LOCATIONS,
                    refs@.len() == i,
                    forall|j: int| 0 <= j < i ==> *#[trigger] refs@[j] == v@[j],
                decreases v.len() - i,
            {
                refs.push(&v[i]);
                i = i + 1;
            }
            refs
        },
        DefinitionReply::Single(l) => {
            let mut refs: Vec<&RawLocation> = Vec::new();
            refs.push(l);
            refs
        },
    }
}

pub open spec fn paths_view(v: Seq<Result<String, String>>) -> Seq<Result<Seq<char>, Seq<char>>> {
    v.map_values(|r: Result<String, String>| result_view(r))
}

/// The local path of each location's URI (see `uri_path`); an error for a
/// location without one.
fn resolve(items: &Vec<&RawLocation>) -> (r: Vec<Result<String, String>>)
    ensures
        r.len() == items.len(),
        forall|k: int| 0 <= k < items.len() && (#[trigger] named(*items@[k])).0 is Some
            ==> path_outcome(named(*items@[k]).0->0@, paths_view(r@)[k]),
{
    let mut out: Vec<Result<String, String>> = Vec::new();
    let mut k: usize = 0;
    while k < items.len()
        invariant
            0 <= k <= items.len(),
            out.len() == k,
            forall|j: int| 0 <= j < k && (#[trigger] named(*items@[j])).0 is Some
                ==> path_outcome(named(*items@[j]).0->0@, paths_view(out@)[j]),
        decreases items.len() - k,
    {
        let l = items[k];
        let uri = if l.link { &l.target_uri } else { &l.uri };
        let ghost before = out@;
        match uri {
            Some(u) => out.push(uri_path(u.as_str())),
            None => out.push(Err(string_from("Missing definition URI"))),
        }
        assert forall|j: int| 0 <= j < k + 1 && (#[trigger] named(*items@[j])).0 is Some
            implies path_outcome(named(*items@[j]).0->0@, paths_view(out@)[j]) by {
            if j < k {
                assert(out@[j] == before[j]);
                assert(paths_view(before)[j] == paths_view(out@)[j]);
            }
        }
        k = k + 1;
    }
    out
}

/// The locations of `items` given what their URIs resolved to (see
/// `located`).
pub fn locations(items: &Vec<&RawLocation>, paths: &Vec<Result<String, String>>) -> (r: Result<Vec<Location>, String>)
    requires
        paths.len() == items.len(),
    ensures
        match located(items@.map_values(|l: &RawLocation| *l), paths_view(paths@), 0, seq![]) {
            Ok(v) => r matches Ok(l) && locations_view(l@) == v,
            Err(m) => r matches Err(e) && e@ == m,
        },
{
    let ghost its = items@.map_values(|l: &RawLocation| *l);
    let ghost ps = paths_view(paths@);
    let mut out: Vec<Location> = Vec::new();
    let mut k: usize = 0;
    assert(locations_view(out@) =~= Seq::<(Seq<char>, nat, nat)>::empty());
    while k < items.len()
        invariant
            0 <= k <= items.len(),
            paths.len() == items.len(),
            its == items@.map_values(|l: &RawLocation| *l),
            ps == paths_view(paths@),
            located(its, ps, 0, seq![]) == located(its, ps, k as int, locations_view(out@)),
        decreases items.len() - k,
    {
        let l = items[k];
        assert(its[k as int] == *l);
        let (uri, line, character) = if l.link {
            (&l.target_uri, l.target_start.0, l.target_start.1)
        } else {
            (&l.uri, l.start.0, l.start.1)
        };
        if uri.is_none() {
            return Err(string_from("Missing definition URI"));
        }
        assert(ps[k as int] == result_view(paths@[k as int]));
        let path = match &paths[k] {
            Err(e) => return Err(e.clone()),
            Ok(p) => p.clone(),
        };
        let line = match line {
            Some(n) => if n <= 2147483647 {
                n
            } else {
                return Err(string_from("Invalid definition position"));
            },
            None => return Err(string_from("Invalid definition position")),
        };
        let character = match character {
            Some(n) => if n <= 2147483647 {
                n
            } else {
                return Err(string_from("Invalid definition position"));
            },
            None => return Err(string_from("Invalid definition position")),
        };
        let ghost before = out@;
        out.push(Location { path, line: line as usize, character: character as usize });
        assert(locations_view(out@) =~= locations_view(before).push((ps[k as int]->Ok_0, line as nat, character as nat)));
        k = k + 1;
    }
    Ok(out)
}

/// The locations of a reply (at most 32), each URI taken to a local path
/// (see `locations` and `path_outcome`).
pub fn definitions(reply: &DefinitionReply) -> (r: Result<Vec<Location>, String>)
    ensures
        exists|paths: Seq<Result<Seq<char>, Seq<char>>>| #![trigger located(reply_items(*reply), paths, 0, seq![])]
            paths.len() == reply_items(*reply).len()
            && (forall|k: int| 0 <= k < paths.len() && (#[trigger] named(reply_items(*reply)[k])).0 is Some
                ==> path_outcome(named(reply_items(*reply)[k]).0->0@, paths[k]))
            && match located(reply_items(*reply), paths, 0, seq![]) {
                Ok(v) => r matches Ok(l) && locations_view(l@) == v,
                Err(m) => r matches Err(e) && e@ == m,
            },
{
    let items = reply_refs(reply);
    let paths = resolve(&items);
    let r = locations(&items, &paths);
    assert(items@.map_values(|l: &RawLocation| *l) =~= reply_items(*reply));
    let ghost ps = paths_view(paths@);
    assert(located(reply_items(*reply), ps, 0, seq![]) == located(items@.map_values(|l: &RawLocation| *l), ps, 0, seq![]));
    r
}

} // verus!
