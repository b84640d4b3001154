//! The configured language servers: their validation, and which one a
//! file gets.
use vstd::prelude::*;
use crate::formatting::providers::{same_ignoring_case, same_ignoring_case_exec, strings_view};
use crate::text::{chars_eq, chars_of, contains_nul, string_from, trim};

verus! {

/// Most servers a configuration may hold.
pub const MAX_SERVERS: usize = 32;
/// Most arguments a server may be started with.
pub const MAX_SERVER_ARGS: usize = 64;
/// Largest server configuration, in bytes.
pub const MAX_LSP_CONFIG_BYTES: usize = 65536;

/// A language server: its name, how to start it, the file extensions it
/// serves, its language, and the files that mark a project's root.
pub struct ServerEntry {
    pub name: String,
    pub command: String,
    pub args: Vec<String>,
    pub extensions: Vec<String>,
    pub language_id: String,
    pub root_markers: Vec<String>,
}

pub struct ServerV {
    pub name: Seq<char>,
    pub command: Seq<char>,
    pub args: Seq<Seq<char>>,
    pub extensions: Seq<Seq<char>>,
    pub language_id: Seq<char>,
    pub root_markers: Seq<Seq<char>>,
}

impl View for ServerEntry {
    type V = ServerV;

    open spec fn view(&self) -> ServerV {
        ServerV {
            name: self.name@,
            command: self.command@,
            args: strings_view(self.args@),
            extensions: strings_view(self.extensions@),
            language_id: self.language_id@,
            root_markers: strings_view(self.root_markers@),
        }
    }
}

pub open spec fn servers_view(v: Seq<ServerEntry>) -> Seq<ServerV> {
    v.map_values(|s: ServerEntry| s@)
}

/// A root marker is a plain file name: not empty, no path separator, not
/// `..`.
pub open spec fn marker_ok(m: Seq<char>) -> bool {
    m.len() > 0 && !m.contains('/') && !m.contains('\\') && m != ".."@
}

/// A server entry that the configuration accepts on its own.
pub open spec fn server_ok(s: ServerV) -> bool {
    &&& s.name.len() > 0
    &&& trim(s.command).len() > 0
    &&& !s.command.contains('\0')
    &&& s.language_id.len() > 0
    &&& s.extensions.len() > 0
    &&& s.args.len() <= MAX_SERVER_ARGS
    &&& forall|i: int| 0 <= i < s.args.len() ==> !(#[trigger] s.args[i]).contains('\0')
    &&& forall|i: int| 0 <= i < s.root_markers.len() ==> marker_ok(#[trigger] s.root_markers[i])
}

/// Whether every server from `i` on is valid and named unlike the ones
/// before it.
pub open spec fn servers_ok(ss: Seq<ServerV>, i: int) -> bool
    decreases ss.len() - i,
{
    if i < 0 || i >= ss.len() {
        true
    } else {
        server_ok(ss[i]) && !(exists|j: int| 0 <= j < i && ss[j].name == #[trigger] ss[i].name) && servers_ok(ss, i + 1)
    }
}

/// Why a server configuration is refused, if it is.
pub open spec fn servers_problem(ss: Seq<ServerV>) -> Option<Seq<char>> {
    if ss.len() > MAX_SERVERS {
        Some("At most 32 language servers can be configured"@)
    } else if !servers_ok(ss, 0) {
        Some("Invalid or duplicate language server configuration"@)
    } else {
        None
    }
}

/// The first server from `i` on that serves extension `e`.
pub open spec fn server_index(ss: Seq<ServerV>, e: Seq<char>, i: int) -> Option<int>
    decreases ss.len() - i,
{
    if i < 0 || i >= ss.len() {
        None
    } else if exists|k: int| 0 <= k < ss[i].extensions.len() && same_ignoring_case(#[trigger] ss[i].extensions[k], e) {
        Some(i)
    } else {
        server_index(ss, e, i + 1)
    }
}

/// The validated language servers, in preference order.
pub struct Servers {
    servers: Vec<ServerEntry>,
}

impl View for Servers {
    type V = Seq<ServerV>;

    closed spec fn view(&self) -> Seq<ServerV> {
        servers_view(self.servers@)
    }
}

/// Refuses a server configuration file of more than 64 KiB.
pub fn check_config_size(len: usize) -> (r: Result<(), String>)
    ensures
        len > MAX_LSP_CONFIG_BYTES <==> (r matches Err(e) && e@ == "lsp.toml exceeds 64 KiB"@),
        len <= MAX_LSP_CONFIG_BYTES <==> r is Ok,
{
    if len > MAX_LSP_CONFIG_BYTES {
        return Err(string_from("lsp.toml exceeds 64 KiB"));
    }
    Ok(())
}

fn strings_without_nul(v: &Vec<String>) -> (r: bool)
    ensures
        r == forall|i: int| 0 <= i < v.len() ==> !(#[trigger] strings_view(v@)[i]).contains('\0'),
{
    let mut i: usize = 0;
    while i < v.len()
        invariant
            0 <= i <= v.len(),
            forall|j: int| 0 <= j < i ==> !(#[trigger] strings_view(v@)[j]).contains('\0'),
        decreases v.len() - i,
    {
        assert(strings_view(v@)[i as int] == v@[i as int]@);
        if contains_nul(v[i].as_str()) {
            return false;
        }
        i = i + 1;
    }
    true
}

fn markers_ok(v: &Vec<String>) -> (r: bool)
    ensures
        r == forall|i: int| 0 <= i < v.len() ==> marker_ok(#[trigger] strings_view(v@)[i]),
{
    let mut i: usize = 0;
    while i < v.len()
        invariant
            0 <= i <= v.len(),
            forall|j: int| 0 <= j < i ==> marker_ok(#[trigger] strings_view(v@)[j]),
        decreases v.len() - i,
    {
        assert(strings_view(v@)[i as int] == v@[i as int]@);
        let m = chars_of(v[i].as_str());
        let mut k: usize = 0;
        let mut bad = m.len() == 0;
        while k < m.len() && !bad
            invariant
                0 <= k <= m.len(),
                m@ == v@[i as int]@,
                bad <==> (m.len() == 0 || exists|q: int| 0 <= q < k && (m@[q] == '/' || m@[q] == '\\')),
            decreases m.len() - k,
        {
            if m[k] == '/' || m[k] == '\\' {
                bad = true;
            }
            k = k + 1;
        }
        proof {
            if !bad {
                assert(!m@.contains('/') && !m@.contains('\\')) by {
                    if m@.contains('/') {
                        let q = choose|q: int| 0 <= q < m@.len() && m@[q] == '/';
                        assert(m@[q] == '/');
                    }
                    if m@.contains('\\') {
                        let q = choose|q: int| 0 <= q < m@.len() && m@[q] == '\\';
                        assert(m@[q] == '\\');
                    }
                }
            }
        }
        if bad || crate::text::eq_str(m.as_slice(), "..") {
            return false;
        }
        i = i + 1;
    }
    true
}

fn server_ok_exec(s: &ServerEntry) -> (r: bool)
    ensures
        r == server_ok(s@),
{
    let command = chars_of(s.command.as_str());
    let t = crate::command_bar::suggest::trimmed(command.as_slice(), 0);
    assert(command@.skip(0) =~= command@);
    let named = chars_of(s.name.as_str()).len() > 0;
    let runnable = t.len() > 0 && !contains_nul(s.command.as_str());
    let language = chars_of(s.language_id.as_str()).len() > 0;
    let sized = s.extensions.len() > 0 && s.args.len() <= MAX_SERVER_ARGS;
    let args = strings_without_nul(&s.args);
    let markers = markers_ok(&s.root_markers);
    assert(s@.extensions.len() == s.extensions.len());
    assert(s@.args.len() == s.args.len());
    assert(s@.root_markers.len() == s.root_markers.len());
    assert(named == (s@.name.len() > 0));
    assert(runnable == (trim(s@.command).len() > 0 && !s@.command.contains('\0')));
    assert(language == (s@.language_id.len() > 0));
    assert(args == forall|i: int| 0 <= i < s@.args.len() ==> !(#[trigger] s@.args[i]).contains('\0'));
    assert(markers == forall|i: int| 0 <= i < s@.root_markers.len() ==> marker_ok(#[trigger] s@.root_markers[i]));
    named && runnable && language && sized && args && markers
}

impl Servers {
    /// The configured servers, checked: at most 32, each valid (see
    /// `server_ok`), no name used twice.
    pub fn from_entries(servers: Vec<ServerEntry>) -> (r: Result<Self, String>)
        ensures
            match servers_problem(servers_view(servers@)) {
                Some(e) => r matches Err(m) && m@ == e,
                None => r matches Ok(s) && s@ == servers_view(servers@),
            },
    {
        let ghost ss = servers_view(servers@);
        if servers.len() > MAX_SERVERS {
            return Err(string_from("At most 32 language servers can be configured"));
        }
        let mut i: usize = 0;
        while i < servers.len()
            invariant
                0 <= i <= servers.len(),
                servers.len() <= MAX_SERVERS,
                ss == servers_view(servers@),
                ss.len() == servers@.len(),
                servers_ok(ss, 0) == servers_ok(ss, i as int),
            decreases servers.len() - i,
        {
            let s = &servers[i];
            assert(ss[i as int] == s@);
            let mut ok = server_ok_exec(s);
            let name = chars_of(s.name.as_str());
            let mut j: usize = 0;
            while j < i && ok
                invariant
                    0 <= j <= i < servers.len(),
                    ss == servers_view(servers@),
                    ss.len() == servers@.len(),
                    name@ == ss[i as int].name,
                    ok ==> server_ok(ss[i as int]),
                    ok ==> forall|q: int| 0 <= q < j ==> ss[q].name != ss[i as int].name,
                    !ok ==> !server_ok(ss[i as int]) || exists|q: int| 0 <= q < i && ss[q].name == #[trigger] ss[i as int].name,
                decreases i - j,
            {
                assert(ss[j as int] == servers@[j as int]@);
                let other = chars_of(servers[j].name.as_str());
                if chars_eq(other.as_slice(), name.as_slice()) {
                    assert(ss[j as int].name == ss[i as int].name);
                    ok = false;
                }
                j = j + 1;
            }
            if !ok {
                assert(!servers_ok(ss, i as int));
                return Err(string_from("Invalid or duplicate language server configuration"));
            }
            assert(!(exists|q: int| 0 <= q < i && ss[q].name == #[trigger] ss[i as int].name));
            assert(servers_ok(ss, i as int) == servers_ok(ss, i + 1));
            i = i + 1;
        }
        Ok(Servers { servers })
    }

    pub fn len(&self) -> (r: usize)
        ensures
            r == self@.len(),
    {
        self.servers.len()
    }

    pub fn server(&self, index: usize) -> (r: &ServerEntry)
        requires
            index < self@.len(),
        ensures
            r@ == self@[index as int],
    {
        &self.servers[index]
    }

    /// The first server for files with this extension (compared ignoring
    /// ASCII case); none for a file without an extension.
    pub fn server_for(&self, extension: Option<&str>) -> (r: Option<usize>)
        ensures
            match extension {
                None => r is None,
                Some(e) => r == match server_index(self@, e@, 0) {
                    Some(k) => Some(k as usize),
                    None => None::<usize>,
                },
            },
    {
        let e = match extension {
            None => return None,
            Some(e) => e,
        };
        let mut i: usize = 0;
        while i < self.servers.len()
            invariant
                0 <= i <= self.servers.len(),
                extension == Some(e),
                self@ == servers_view(self.servers@),
                server_index(self@, e@, 0) == server_index(self@, e@, i as int),
            decreases self.servers.len() - i,
        {
            let s = &self.servers[i];
            assert(self@[i as int] == s@);
            let mut k: usize = 0;
            while k < s.extensions.len()
                invariant
                    0 <= k <= s.extensions.len(),
                    i < self.servers.len(),
                    extension == Some(e),
                    self@ == servers_view(self.servers@),
                    s@ == self@[i as int],
                    server_index(self@, e@, 0) == server_index(self@, e@, i as int),
                    forall|q: int| 0 <= q < k ==> !same_ignoring_case(#[trigger] s@.extensions[q], e@),
                decreases s.extensions.len() - k,
            {
                assert(s@.extensions[k as int] == s.extensions@[k as int]@);
                if same_ignoring_case_exec(s.extensions[k].as_str(), e) {
                    assert(same_ignoring_case(s@.extensions[k as int], e@));
                    assert(self@[i as int].extensions[k as int] == s@.extensions[k as int]);
                    assert(server_index(self@, e@, i as int) == Some(i as int));
                    return Some(i);
                }
                k = k + 1;
            }
            assert(!(exists|q: int| 0 <= q < self@[i as int].extensions.len() && same_ignoring_case(
                #[trigger] self@[i as int].extensions[q], e@)));
            i = i + 1;
        }
        None
    }
}

} // verus!
