//! Configured formatter providers: their validation, which one a file gets,
//! and the list that `:formatters` shows.
use vstd::prelude::*;
use crate::command_bar::suggest::ascii_lower;
use crate::text::{chars_eq, chars_of, contains_nul, eq_str, extend_chars, push_str, string_from, string_of, trim};
use crate::formatting::builtin::{builtin_supported, supported};
use crate::formatting::positions::opt_chars;

verus! {

/// Most providers a configuration may hold.
pub const MAX_PROVIDERS: usize = 32;
/// Most arguments a provider may pass.
pub const MAX_ARGS: usize = 32;
/// Longest provider name.
pub const MAX_NAME: usize = 40;

/// A formatter: its name, the command and its arguments (`{filepath}` in
/// an argument stands for the file's path), and the files it formats.
pub struct Provider {
    pub name: String,
    pub command: String,
    pub args: Vec<String>,
    pub extensions: Vec<String>,
    pub filenames: Vec<String>,
}

pub struct ProviderV {
    pub name: Seq<char>,
    pub command: Seq<char>,
    pub args: Seq<Seq<char>>,
    pub extensions: Seq<Seq<char>>,
    pub filenames: Seq<Seq<char>>,
}

pub open spec fn strings_view(v: Seq<String>) -> Seq<Seq<char>> {
    v.map_values(|s: String| s@)
}

impl View for Provider {
    type V = ProviderV;

    open spec fn view(&self) -> ProviderV {
        ProviderV {
            name: self.name@,
            command: self.command@,
            args: strings_view(self.args@),
            extensions: strings_view(self.extensions@),
            filenames: strings_view(self.filenames@),
        }
    }
}

pub open spec fn providers_view(v: Seq<Provider>) -> Seq<ProviderV> {
    v.map_values(|p: Provider| p@)
}

/// What formatting needs to know of a file's path: its file name and its
/// extension, when it has them.
pub struct FileInfo {
    pub name: Option<String>,
    pub extension: Option<String>,
}

/// A row of the `:formatters` list.
pub struct FormatterChoice {
    pub name: String,
    pub description: String,
}

/// The validated formatter configuration, in preference order.
pub struct Formatters {
    providers: Vec<Provider>,
}

impl View for Formatters {
    type V = Seq<ProviderV>;

    closed spec fn view(&self) -> Seq<ProviderV> {
        providers_view(self.providers@)
    }
}

pub open spec fn name_char_ok(c: char) -> bool {
    ('a' <= c <= 'z') || ('A' <= c <= 'Z') || ('0' <= c <= '9') || c == '-' || c == '_'
}

/// A provider name, command and arguments that formatting accepts.
pub open spec fn provider_ok(p: ProviderV) -> bool {
    &&& 0 < p.name.len() <= MAX_NAME
    &&& forall|i: int| 0 <= i < p.name.len() ==> name_char_ok(#[trigger] p.name[i])
    &&& trim(p.command).len() > 0
    &&& !p.command.contains('\0')
    &&& p.args.len() <= MAX_ARGS
    &&& forall|i: int| 0 <= i < p.args.len() ==> !(#[trigger] p.args[i]).contains('\0')
}

/// The first problem of a configuration, checking providers in order.
pub open spec fn first_problem(ps: Seq<ProviderV>, i: int) -> Option<Seq<char>>
    decreases ps.len() - i,
{
    if i < 0 || i >= ps.len() {
        None
    } else if ps[i].name == "builtin"@ {
        Some("The formatter name 'builtin' is reserved for built-in indentation"@)
    } else if !provider_ok(ps[i]) {
        Some("Invalid formatter name, command, or arguments"@)
    } else if exists|j: int| 0 <= j < i && ps[j].name == #[trigger] ps[i].name {
        Some("Duplicate formatter: "@ + ps[i].name)
    } else {
        first_problem(ps, i + 1)
    }
}

/// Why a configuration is refused, if it is.
pub open spec fn config_problem(ps: Seq<ProviderV>) -> Option<Seq<char>> {
    if ps.len() > MAX_PROVIDERS {
        Some("At most 32 formatter providers are supported"@)
    } else {
        first_problem(ps, 0)
    }
}

/// Whether `ext` equals `candidate`, ignoring ASCII case.
pub open spec fn same_ignoring_case(candidate: Seq<char>, ext: Seq<char>) -> bool {
    candidate.len() == ext.len() && ascii_lower(candidate) == ascii_lower(ext)
}

/// Whether provider `p` formats the file.
pub open spec fn provider_matches(p: ProviderV, name: Option<Seq<char>>, extension: Option<Seq<char>>) -> bool {
    ||| (extension matches Some(e) && exists|i: int| 0 <= i < p.extensions.len() && same_ignoring_case(#[trigger] p.extensions[i], e))
    ||| (name matches Some(n) && exists|i: int| 0 <= i < p.filenames.len() && #[trigger] p.filenames[i] == n)
}

/// The message for a provider whose executable is missing.
pub open spec fn unavailable_message(p: ProviderV) -> Seq<char> {
    "Formatter '"@ + p.name + "' is unavailable; install "@ + p.command + " or set its executable path"@
}

/// Index of the first provider named `name`.
pub open spec fn find_provider(ps: Seq<ProviderV>, name: Seq<char>, i: int) -> Option<int>
    decreases ps.len() - i,
{
    if i < 0 || i >= ps.len() {
        None
    } else if ps[i].name == name {
        Some(i)
    } else {
        find_provider(ps, name, i + 1)
    }
}

/// Whether the executable of provider `k` was found.
pub open spec fn avail(available: Seq<bool>, k: int) -> bool {
    0 <= k < available.len() && available[k]
}

/// Index of the first provider that formats the file and is available.
pub open spec fn first_available(ps: Seq<ProviderV>, available: Seq<bool>, name: Option<Seq<char>>,
    extension: Option<Seq<char>>, i: int) -> Option<int>
    decreases ps.len() - i,
{
    if i < 0 || i >= ps.len() {
        None
    } else if provider_matches(ps[i], name, extension) && avail(available, i) {
        Some(i)
    } else {
        first_available(ps, available, name, extension, i + 1)
    }
}

/// Whether some provider formats the file.
pub open spec fn any_matches(ps: Seq<ProviderV>, name: Option<Seq<char>>, extension: Option<Seq<char>>) -> bool {
    exists|i: int| 0 <= i < ps.len() && provider_matches(#[trigger] ps[i], name, extension)
}

/// Which provider formats a file: the one named, or the first configured
/// one that matches the file and is installed.
pub open spec fn selection(ps: Seq<ProviderV>, available: Seq<bool>, file: Option<(Option<Seq<char>>, Option<Seq<char>>)>,
    name: Option<Seq<char>>) -> Result<int, Seq<char>> {
    match name {
        Some(n) => match find_provider(ps, n, 0) {
            None => Err("Unknown formatter '"@ + n + "'; use :formatters"@),
            Some(k) => if avail(available, k) { Ok(k) } else { Err(unavailable_message(ps[k])) },
        },
        None => match file {
            None => Err("Save the document to choose its language, or use :format <provider>"@),
            Some((fname, ext)) => if !any_matches(ps, fname, ext) {
                Err("No matching formatter; use :formatters or configure config/formatters.toml"@)
            } else {
                match first_available(ps, available, fname, ext, 0) {
                    Some(k) => Ok(k),
                    None => Err("No matching formatter is installed; use :formatters"@),
                }
            },
        },
    }
}

pub open spec fn file_view(file: Option<&FileInfo>) -> Option<(Option<Seq<char>>, Option<Seq<char>>)> {
    match file {
        Some(f) => Some((opt_chars(f.name), opt_chars(f.extension))),
        None => None,
    }
}

fn provider_ok_exec(p: &Provider) -> (r: bool)
    ensures
        r == provider_ok(p@),
{
    let name = chars_of(p.name.as_str());
    if name.len() == 0 || name.len() > MAX_NAME {
        return false;
    }
    let mut i: usize = 0;
    while i < name.len()
        invariant
            0 <= i <= name.len(),
            name@ == p.name@,
            forall|j: int| 0 <= j < i ==> name_char_ok(#[trigger] name@[j]),
        decreases name.len() - i,
    {
        let c = name[i];
        if !(('a' <= c && c <= 'z') || ('A' <= c && c <= 'Z') || ('0' <= c && c <= '9') || c == '-' || c == '_') {
            return false;
        }
        i = i + 1;
    }
    let command = chars_of(p.command.as_str());
    let lead = crate::text::count_leading_ws(command.as_slice(), 0);
    let rest = crate::text::slice_vec(command.as_slice(), lead, command.len());
    assert(command@.skip(0) =~= command@);
    assert(rest@ =~= crate::text::trim_start(command@));
    let trail = crate::text::count_trailing_ws(rest.as_slice(), rest.len());
    assert(rest@.take(rest.len() as int) =~= rest@);
    if rest.len() - trail == 0 {
        return false;
    }
    if contains_nul(p.command.as_str()) {
        return false;
    }
    if p.args.len() > MAX_ARGS {
        return false;
    }
    let mut k: usize = 0;
    while k < p.args.len()
        invariant
            0 <= k <= p.args.len(),
            forall|j: int| 0 <= j < k ==> !(#[trigger] strings_view(p.args@)[j]).contains('\0'),
        decreases p.args.len() - k,
    {
        assert(strings_view(p.args@)[k as int] == p.args@[k as int]@);
        if contains_nul(p.args[k].as_str()) {
            return false;
        }
        k = k + 1;
    }
    true
}

impl Formatters {
    /// An empty configuration.
    pub fn new() -> (r: Self)
        ensures
            r@ == Seq::<ProviderV>::empty(),
    {
        let r = Formatters { providers: Vec::new() };
        assert(r@ =~= Seq::<ProviderV>::empty());
        r
    }

    /// The configured providers, checked: at most 32, valid names, commands
    /// and arguments, no name used twice, none named `builtin`.
    pub fn from_providers(providers: Vec<Provider>) -> (r: Result<Self, String>)
        ensures
            match config_problem(providers_view(providers@)) {
                Some(e) => r matches Err(m) && m@ == e,
                None => r matches Ok(f) && f@ == providers_view(providers@),
            },
    {
        let ghost ps = providers_view(providers@);
        if providers.len() > MAX_PROVIDERS {
            return Err(string_from("At most 32 formatter providers are supported"));
        }
        let mut i: usize = 0;
        while i < providers.len()
            invariant
                0 <= i <= providers.len(),
                providers.len() <= MAX_PROVIDERS,
                ps == providers_view(providers@),
                ps.len() == providers@.len(),
                first_problem(ps, 0) == first_problem(ps, i as int),
            decreases providers.len() - i,
        {
            let p = &providers[i];
            assert(ps[i as int] == p@);
            if eq_str(chars_of(p.name.as_str()).as_slice(), "builtin") {
                assert(first_problem(ps, i as int) == Some("The formatter name 'builtin' is reserved for built-in indentation"@));
                return Err(string_from("The formatter name 'builtin' is reserved for built-in indentation"));
            }
            assert(ps[i as int].name != "builtin"@);
            if !provider_ok_exec(p) {
                assert(first_problem(ps, i as int) == Some("Invalid formatter name, command, or arguments"@));
                return Err(string_from("Invalid formatter name, command, or arguments"));
            }
            let mut j: usize = 0;
            let name = chars_of(p.name.as_str());
            while j < i
                invariant
                    0 <= j <= i < providers.len(),
                    providers.len() <= MAX_PROVIDERS,
                    ps == providers_view(providers@),
                    ps.len() == providers@.len(),
                    name@ == ps[i as int].name,
                    ps[i as int].name != "builtin"@,
                    provider_ok(ps[i as int]),
                    first_problem(ps, 0) == first_problem(ps, i as int),
                    forall|q: int| 0 <= q < j ==> ps[q].name != ps[i as int].name,
                decreases i - j,
            {
                assert(ps[j as int] == providers@[j as int]@);
                let other = chars_of(providers[j].name.as_str());
                if chars_eq(other.as_slice(), name.as_slice()) {
                    assert(ps[j as int].name == ps[i as int].name);
                    assert(first_problem(ps, i as int) == Some("Duplicate formatter: "@ + ps[i as int].name));
                    let mut message = chars_of("Duplicate formatter: ");
                    extend_chars(&mut message, name.as_slice());
                    return Err(string_of(message.as_slice()));
                }
                j = j + 1;
            }
            assert(!(exists|q: int| 0 <= q < i && ps[q].name == #[trigger] ps[i as int].name));
            assert(first_problem(ps, i as int) == first_problem(ps, i + 1));
            i = i + 1;
        }
        assert(config_problem(ps) == first_problem(ps, 0));
        let r = Formatters { providers };
        assert(r@ == ps);
        Ok(r)
    }

    pub fn len(&self) -> (r: usize)
        ensures
            r == self@.len(),
    {
        self.providers.len()
    }

    /// Provider `index`.
    pub fn provider(&self, index: usize) -> (r: &Provider)
        requires
            index < self@.len(),
        ensures
            r@ == self@[index as int],
    {
        &self.providers[index]
    }
}

pub(crate) fn same_ignoring_case_exec(candidate: &str, ext: &str) -> (r: bool)
    ensures
        r == same_ignoring_case(candidate@, ext@),
{
    let a = chars_of(candidate);
    let b = chars_of(ext);
    if a.len() != b.len() {
        return false;
    }
    let la = crate::command_bar::suggest::ascii_lower_exec(a.as_slice());
    let lb = crate::command_bar::suggest::ascii_lower_exec(b.as_slice());
    chars_eq(la.as_slice(), lb.as_slice())
}

impl Provider {
    /// Whether the provider formats a file with this name and extension.
    pub fn matches(&self, file: &FileInfo) -> (r: bool)
        ensures
            r == provider_matches(self@, opt_chars(file.name), opt_chars(file.extension)),
    {
        match &file.extension {
            Some(e) => {
                let mut i: usize = 0;
                while i < self.extensions.len()
                    invariant
                        0 <= i <= self.extensions.len(),
                        opt_chars(file.extension) == Some(e@),
                        forall|j: int| 0 <= j < i ==> !same_ignoring_case(#[trigger] strings_view(self.extensions@)[j], e@),
                    decreases self.extensions.len() - i,
                {
                    assert(strings_view(self.extensions@)[i as int] == self.extensions@[i as int]@);
                    if same_ignoring_case_exec(self.extensions[i].as_str(), e.as_str()) {
                        assert(same_ignoring_case(self@.extensions[i as int], e@));
                        assert(opt_chars(file.extension) == Some(e@));
                        assert(exists|j: int| 0 <= j < self@.extensions.len() && same_ignoring_case(#[trigger] self@.extensions[j], e@));
                        return true;
                    }
                    i = i + 1;
                }
            },
            None => {},
        }
        match &file.name {
            Some(n) => {
                let name = chars_of(n.as_str());
                let mut i: usize = 0;
                while i < self.filenames.len()
                    invariant
                        0 <= i <= self.filenames.len(),
                        name@ == n@,
                        opt_chars(file.name) == Some(n@),
                        forall|j: int| 0 <= j < i ==> #[trigger] strings_view(self.filenames@)[j] != n@,
                    decreases self.filenames.len() - i,
                {
                    assert(strings_view(self.filenames@)[i as int] == self.filenames@[i as int]@);
                    let candidate = chars_of(self.filenames[i].as_str());
                    if chars_eq(candidate.as_slice(), name.as_slice()) {
                        assert(self@.filenames[i as int] == n@);
                        assert(opt_chars(file.name) == Some(n@));
                        assert(exists|j: int| 0 <= j < self@.filenames.len() && #[trigger] self@.filenames[j] == n@);
                        return true;
                    }
                    i = i + 1;
                }
                false
            },
            None => false,
        }
    }
}

impl View for FormatterChoice {
    type V = (Seq<char>, Seq<char>);

    open spec fn view(&self) -> (Seq<char>, Seq<char>) {
        (self.name@, self.description@)
    }
}

/// `.ext` for each extension of the provider, then each of its file names.
pub open spec fn file_patterns(p: ProviderV) -> Seq<Seq<char>> {
    p.extensions.map_values(|e: Seq<char>| seq!['.'] + e) + p.filenames
}

/// The items separated by `, `.
pub open spec fn join_comma(items: Seq<Seq<char>>) -> Seq<char>
    decreases items.len(),
{
    if items.len() == 0 {
        Seq::empty()
    } else if items.len() == 1 {
        items[0]
    } else {
        join_comma(items.drop_last()) + ", "@ + items.last()
    }
}

pub open spec fn availability_text(available: bool) -> Seq<char> {
    if available {
        "Installed"@
    } else {
        "Not installed; install tool or set its path"@
    }
}

/// The `:formatters` row of a provider.
pub open spec fn provider_row(p: ProviderV, available: bool) -> (Seq<char>, Seq<char>) {
    (p.name, availability_text(available) + " — "@ + join_comma(file_patterns(p)))
}

/// Whether the list shows provider `p`: all are shown when there is no file,
/// else those that format it.
pub open spec fn shown(p: ProviderV, file: Option<(Option<Seq<char>>, Option<Seq<char>>)>) -> bool {
    match file {
        None => true,
        Some((n, e)) => provider_matches(p, n, e),
    }
}

/// The rows of the first `n` providers.
pub open spec fn provider_rows(ps: Seq<ProviderV>, available: Seq<bool>,
    file: Option<(Option<Seq<char>>, Option<Seq<char>>)>, n: int) -> Seq<(Seq<char>, Seq<char>)>
    decreases n,
{
    if n <= 0 {
        Seq::empty()
    } else {
        provider_rows(ps, available, file, n - 1) + if shown(ps[n - 1], file) {
            seq![provider_row(ps[n - 1], avail(available, n - 1))]
        } else {
            Seq::empty()
        }
    }
}

/// The row of the built-in indenter.
pub open spec fn builtin_row(supported: bool) -> (Seq<char>, Seq<char>) {
    ("builtin"@, if supported {
        "Basic C-style/JSON indentation — no installation needed"@
    } else {
        "Not supported for this file type; choose a language formatter"@
    })
}

/// The `:formatters` list: the built-in indenter, then the providers shown.
pub open spec fn choice_rows(ps: Seq<ProviderV>, available: Seq<bool>,
    file: Option<(Option<Seq<char>>, Option<Seq<char>>)>) -> Seq<(Seq<char>, Seq<char>)> {
    seq![builtin_row(builtin_supported(file))] + provider_rows(ps, available, file, ps.len() as int)
}

fn join_patterns(p: &Provider) -> (r: Vec<char>)
    ensures
        r@ == join_comma(file_patterns(p@)),
{
    let ghost items = file_patterns(p@);
    let ghost ne = p.extensions.len() as int;
    let mut r: Vec<char> = Vec::new();
    let mut first = true;
    assert(items.take(0) =~= Seq::<Seq<char>>::empty());
    let mut i: usize = 0;
    while i < p.extensions.len()
        invariant
            0 <= i <= p.extensions.len(),
            items == file_patterns(p@),
            ne == p.extensions.len(),
            first <==> i == 0,
            r@ == join_comma(items.take(i as int)),
        decreases p.extensions.len() - i,
    {
        let mut item: Vec<char> = Vec::new();
        item.push('.');
        let e = chars_of(p.extensions[i].as_str());
        extend_chars(&mut item, e.as_slice());
        assert(item@ =~= items[i as int]);
        assert(items.take(i + 1).drop_last() =~= items.take(i as int));
        if !first {
            push_str(&mut r, ", ");
        }
        first = false;
        extend_chars(&mut r, item.as_slice());
        i = i + 1;
    }
    let mut j: usize = 0;
    while j < p.filenames.len()
        invariant
            0 <= j <= p.filenames.len(),
            items == file_patterns(p@),
            ne == p.extensions.len(),
            items.len() == ne + p.filenames.len(),
            first <==> ne + j == 0,
            r@ == join_comma(items.take(ne + j)),
        decreases p.filenames.len() - j,
    {
        let f = chars_of(p.filenames[j].as_str());
        assert(f@ =~= items[ne + j]);
        assert(items.take(ne + j + 1).drop_last() =~= items.take(ne + j));
        if !first {
            push_str(&mut r, ", ");
        }
        first = false;
        extend_chars(&mut r, f.as_slice());
        j = j + 1;
    }
    assert(items.take(items.len() as int) =~= items);
    r
}

impl Formatters {
    /// Which provider formats a file: the one named by `name`, else the
    /// first configured provider that matches the file and whose executable
    /// was found (`available[k]` for provider `k`; a missing entry counts as
    /// not found).
    pub fn select(&self, file: Option<&FileInfo>, name: Option<&str>, available: &[bool]) -> (r: Result<usize, String>)
        ensures
            match selection(self@, available@, file_view(file), match name { Some(n) => Some(n@), None => None }) {
                Ok(k) => r matches Ok(i) && i == k,
                Err(e) => r matches Err(m) && m@ == e,
            },
    {
        let ghost ps = self@;
        match name {
            Some(n) => {
                let wanted = chars_of(n);
                let mut i: usize = 0;
                while i < self.providers.len()
                    invariant
                        0 <= i <= self.providers.len(),
                        ps == self@,
                        ps.len() == self.providers.len(),
                        wanted@ == n@,
                        name == Some(n),
                        find_provider(ps, n@, 0) == find_provider(ps, n@, i as int),
                    decreases self.providers.len() - i,
                {
                    assert(ps[i as int] == self.providers@[i as int]@);
                    let candidate = chars_of(self.providers[i].name.as_str());
                    if chars_eq(candidate.as_slice(), wanted.as_slice()) {
                        if i < available.len() && available[i] {
                            return Ok(i);
                        }
                        let p = &self.providers[i];
                        let mut m = chars_of("Formatter '");
                        extend_chars(&mut m, candidate.as_slice());
                        push_str(&mut m, "' is unavailable; install ");
                        let c = chars_of(p.command.as_str());
                        extend_chars(&mut m, c.as_slice());
                        push_str(&mut m, " or set its executable path");
                        assert(m@ =~= unavailable_message(ps[i as int]));
                        return Err(string_of(m.as_slice()));
                    }
                    i = i + 1;
                }
                let mut m = chars_of("Unknown formatter '");
                extend_chars(&mut m, wanted.as_slice());
                push_str(&mut m, "'; use :formatters");
                Err(string_of(m.as_slice()))
            },
            None => match file {
                None => Err(string_from("Save the document to choose its language, or use :format <provider>")),
                Some(f) => {
                    let ghost fname = opt_chars(f.name);
                    let ghost ext = opt_chars(f.extension);
                    let mut any = false;
                    let mut i: usize = 0;
                    while i < self.providers.len()
                        invariant
                            0 <= i <= self.providers.len(),
                            ps == self@,
                            ps.len() == self.providers.len(),
                            file == Some(f),
                            name.is_none(),
                            fname == opt_chars(f.name),
                            ext == opt_chars(f.extension),
                            first_available(ps, available@, fname, ext, 0) == first_available(ps, available@, fname, ext, i as int),
                            any <==> exists|j: int| 0 <= j < i && provider_matches(#[trigger] ps[j], fname, ext),
                        decreases self.providers.len() - i,
                    {
                        assert(ps[i as int] == self.providers@[i as int]@);
                        if self.providers[i].matches(f) {
                            any = true;
                            if i < available.len() && available[i] {
                                return Ok(i);
                            }
                        }
                        i = i + 1;
                    }
                    if !any {
                        Err(string_from("No matching formatter; use :formatters or configure config/formatters.toml"))
                    } else {
                        Err(string_from("No matching formatter is installed; use :formatters"))
                    }
                },
            },
        }
    }

    /// The `:formatters` list for a file (`None`: every provider).
    pub fn choices(&self, file: Option<&FileInfo>, available: &[bool]) -> (r: Vec<FormatterChoice>)
        ensures
            r@.map_values(|c: FormatterChoice| c@) == choice_rows(self@, available@, file_view(file)),
    {
        let ghost ps = self@;
        let ghost fv = file_view(file);
        let mut r: Vec<FormatterChoice> = Vec::new();
        let description = if supported(file) {
            string_from("Basic C-style/JSON indentation — no installation needed")
        } else {
            string_from("Not supported for this file type; choose a language formatter")
        };
        r.push(FormatterChoice { name: string_from("builtin"), description });
        assert(r@.map_values(|c: FormatterChoice| c@) =~= seq![builtin_row(builtin_supported(fv))] + provider_rows(ps, available@, fv, 0));
        let mut i: usize = 0;
        while i < self.providers.len()
            invariant
                0 <= i <= self.providers.len(),
                ps == self@,
                ps.len() == self.providers.len(),
                fv == file_view(file),
                r@.map_values(|c: FormatterChoice| c@) == seq![builtin_row(builtin_supported(fv))] + provider_rows(ps, available@, fv, i as int),
            decreases self.providers.len() - i,
        {
            let p = &self.providers[i];
            assert(ps[i as int] == p@);
            let show = match file {
                None => true,
                Some(f) => p.matches(f),
            };
            let ghost before = r@;
            if show {
                let mut d = if i < available.len() && available[i] {
                    chars_of("Installed")
                } else {
                    chars_of("Not installed; install tool or set its path")
                };
                push_str(&mut d, " — ");
                let files = join_patterns(p);
                extend_chars(&mut d, files.as_slice());
                let name = string_of(chars_of(p.name.as_str()).as_slice());
                let row = FormatterChoice { name, description: string_of(d.as_slice()) };
                assert(row@ == provider_row(ps[i as int], avail(available@, i as int)));
                r.push(row);
                assert(r@.map_values(|c: FormatterChoice| c@) =~= before.map_values(|c: FormatterChoice| c@).push(row@));
            }
            assert(seq![builtin_row(builtin_supported(fv))] + provider_rows(ps, available@, fv, i + 1) =~=
                seq![builtin_row(builtin_supported(fv))] + provider_rows(ps, available@, fv, i as int) + if shown(ps[i as int], fv) {
                    seq![provider_row(ps[i as int], avail(available@, i as int))]
                } else {
                    Seq::empty()
                });
            i = i + 1;
        }
        r
    }
}

} // verus!
