//! Completion lists and the edit that accepting a completion makes.
use vstd::prelude::*;
use crate::text::{chars_of, is_control, is_control_char, string_from, string_of};

verus! {

/// Most completions offered at once.
pub const MAX_ITEMS: usize = 256;
/// Most bytes of completion items read from one reply.
pub const MAX_LIST_BYTES: usize = 524288;
/// Longest label shown, in characters.
pub const MAX_LABEL_CHARS: usize = 120;

/// One item of a completion reply, as far as the list needs it: its label
/// and `sortText` where they are strings, whether it is a snippet, and the
/// length of its JSON text.
pub struct CompletionEntry {
    pub label: Option<String>,
    pub sort_text: Option<String>,
    pub snippet: bool,
    pub size: usize,
}

/// A completion reply: whether it is `null`, whether it has non-empty
/// `itemDefaults`, and its items when it is a list or has an `items` list.
pub struct CompletionReply {
    pub null: bool,
    pub has_defaults: bool,
    pub list: Option<Vec<CompletionEntry>>,
}

/// A completion offered: its label, and which item of the reply it is.
pub struct CompletionItem {
    pub label: String,
    pub index: usize,
}

/// The key items are sorted by: `sortText`, else the label, else nothing.
pub open spec fn sort_key(e: CompletionEntry) -> Seq<char> {
    match e.sort_text {
        Some(s) => s@,
        None => match e.label {
            Some(l) => l@,
            None => seq![],
        },
    }
}

/// Whether `a` comes before `b` in lexicographic order of characters.
pub open spec fn chars_lt(a: Seq<char>, b: Seq<char>) -> bool
    decreases a.len(),
{
    if a.len() == 0 {
        b.len() > 0
    } else if b.len() == 0 {
        false
    } else if a[0] != b[0] {
        a[0] < b[0]
    } else {
        chars_lt(a.drop_first(), b.drop_first())
    }
}

/// Where item `i` goes in `order`: before the first item from `j` on
/// whose key is greater than its own.
pub open spec fn insert_pos(order: Seq<nat>, keys: Seq<Seq<char>>, i: nat, j: int) -> int
    decreases order.len() - j,
{
    if j < 0 || j >= order.len() {
        order.len() as int
    } else if chars_lt(keys[i as int], keys[order[j] as int]) {
        j
    } else {
        insert_pos(order, keys, i, j + 1)
    }
}

/// The first `n` items ordered by key, items with equal keys in reply
/// order.
pub open spec fn stable_order(keys: Seq<Seq<char>>, n: nat) -> Seq<nat>
    decreases n,
{
    if n == 0 {
        seq![]
    } else {
        let o = stable_order(keys, (n - 1) as nat);
        o.insert(insert_pos(o, keys, (n - 1) as nat, 0), (n - 1) as nat)
    }
}

/// The first `room` characters of `l` that are not control characters.
pub open spec fn label_chars(l: Seq<char>, room: nat) -> Seq<char>
    decreases l.len(),
{
    if l.len() == 0 || room == 0 {
        seq![]
    } else if is_control_char(l[0]) {
        label_chars(l.drop_first(), room)
    } else {
        seq![l[0]] + label_chars(l.drop_first(), (room - 1) as nat)
    }
}

/// The items offered, taking `entries` in `order` from `k` on: snippets
/// and items without a label are skipped; the list stops before the item
/// that takes it past 512 KiB of JSON, or at 256 items.
pub open spec fn collect(entries: Seq<CompletionEntry>, order: Seq<nat>, k: int, bytes: nat,
    out: Seq<(Seq<char>, nat)>) -> Seq<(Seq<char>, nat)>
    decreases order.len() - k,
{
    if k < 0 || k >= order.len() {
        out
    } else {
        let e = entries[order[k] as int];
        if e.snippet || e.label is None {
            collect(entries, order, k + 1, bytes, out)
        } else if bytes + e.size > MAX_LIST_BYTES || out.len() == MAX_ITEMS {
            out
        } else {
            collect(entries, order, k + 1, (bytes + e.size) as nat,
                out.push((label_chars(e.label->0@, MAX_LABEL_CHARS as nat), order[k])))
        }
    }
}

pub open spec fn keys_of(entries: Seq<CompletionEntry>) -> Seq<Seq<char>> {
    entries.map_values(|e: CompletionEntry| sort_key(e))
}

pub open spec fn items_view(items: Seq<CompletionItem>) -> Seq<(Seq<char>, nat)> {
    items.map_values(|c: CompletionItem| (c.label@, c.index as nat))
}

/// The completions a reply offers (see `collect`), or why it is refused.
pub open spec fn completion_items(reply: CompletionReply) -> Result<Seq<(Seq<char>, nat)>, Seq<char>> {
    if reply.null {
        Ok(seq![])
    } else if reply.has_defaults {
        Err("Server returned unsupported completion defaults"@)
    } else {
        match reply.list {
            None => Err("Invalid completion list"@),
            Some(l) => Ok(collect(l@, stable_order(keys_of(l@), l@.len()), 0, 0, seq![])),
        }
    }
}

fn key_chars(e: &CompletionEntry) -> (r: Vec<char>)
    ensures
        r@ == sort_key(*e),
{
    match &e.sort_text {
        Some(s) => chars_of(s.as_str()),
        None => match &e.label {
            Some(l) => chars_of(l.as_str()),
            None => Vec::new(),
        },
    }
}

/// Whether `a` comes before `b` (see `chars_lt`).
fn less(a: &[char], b: &[char]) -> (r: bool)
    ensures
        r == chars_lt(a@, b@),
{
    let mut i: usize = 0;
    assert(a@.skip(0) =~= a@);
    assert(b@.skip(0) =~= b@);
    while i < a.len() && i < b.len() && a[i] == b[i]
        invariant
            0 <= i <= a.len(),
            i <= b.len(),
            chars_lt(a@, b@) == chars_lt(a@.skip(i as int), b@.skip(i as int)),
        decreases a.len() - i,
    {
        assert(a@.skip(i as int).drop_first() =~= a@.skip(i + 1));
        assert(b@.skip(i as int).drop_first() =~= b@.skip(i + 1));
        i = i + 1;
    }
    if i < a.len() && i < b.len() {
        assert(a@.skip(i as int)[0] == a@[i as int]);
        assert(b@.skip(i as int)[0] == b@[i as int]);
    }
    if i == a.len() {
        i < b.len()
    } else if i == b.len() {
        false
    } else {
        a[i] < b[i]
    }
}

/// The order of `keys` (see `stable_order`).
fn order_by_keys(keys: &Vec<Vec<char>>) -> (r: Vec<usize>)
    ensures
        r@.map_values(|i: usize| i as nat) == stable_order(keys@.map_values(|k: Vec<char>| k@), keys.len() as nat),
        forall|j: int| 0 <= j < r.len() ==> r@[j] < keys.len(),
        r.len() == keys.len(),
{
    let ghost ks = keys@.map_values(|k: Vec<char>| k@);
    let mut order: Vec<usize> = Vec::new();
    let mut i: usize = 0;
    assert(order@.map_values(|i: usize| i as nat) =~= stable_order(ks, 0));
    while i < keys.len()
        invariant
            0 <= i <= keys.len(),
            ks == keys@.map_values(|k: Vec<char>| k@),
            order@.map_values(|i: usize| i as nat) == stable_order(ks, i as nat),
            order.len() == i,
            forall|j: int| 0 <= j < order.len() ==> order@[j] < i,
        decreases keys.len() - i,
    {
        let ghost o = order@.map_values(|i: usize| i as nat);
        let mut p: usize = 0;
        while p < order.len() && !less(keys[i].as_slice(), keys[order[p]].as_slice())
            invariant
                0 <= p <= order.len(),
                order.len() == i,
                i < keys.len(),
                o == order@.map_values(|i: usize| i as nat),
                ks == keys@.map_values(|k: Vec<char>| k@),
                forall|j: int| 0 <= j < order.len() ==> order@[j] < i,
                insert_pos(o, ks, i as nat, 0) == insert_pos(o, ks, i as nat, p as int),
            decreases order.len() - p,
        {
            assert(ks[order@[p as int] as int] == keys@[order@[p as int] as int]@);
            p = p + 1;
        }
        if p < order.len() {
            assert(ks[order@[p as int] as int] == keys@[order@[p as int] as int]@);
        }
        assert(insert_pos(o, ks, i as nat, 0) == p as int);
        order.insert(p, i);
        assert(order@.map_values(|i: usize| i as nat) =~= o.insert(p as int, i as nat));
        i = i + 1;
    }
    order
}

/// The first `room` characters of `l` that are not control characters.
fn label_of(l: &str, room: usize) -> (r: String)
    ensures
        r@ == label_chars(l@, room as nat),
{
    let chars = chars_of(l);
    let mut out: Vec<char> = Vec::new();
    let mut i: usize = 0;
    assert(chars@.skip(0) =~= chars@);
    while i < chars.len() && out.len() < room
        invariant
            0 <= i <= chars.len(),
            chars@ == l@,
            out.len() <= room,
            out@ + label_chars(chars@.skip(i as int), (room - out.len()) as nat) == label_chars(l@, room as nat),
        decreases chars.len() - i,
    {
        let c = chars[i];
        assert(chars@.skip(i as int).drop_first() =~= chars@.skip(i + 1));
        if !is_control(c) {
            let ghost before = out@;
            out.push(c);
            assert(before + (seq![c] + label_chars(chars@.skip(i + 1), (room - out.len()) as nat)) =~= out@
                + label_chars(chars@.skip(i + 1), (room - out.len()) as nat));
        }
        i = i + 1;
    }
    assert(out@ + label_chars(chars@.skip(i as int), (room - out.len()) as nat) =~= out@);
    string_of(out.as_slice())
}

/// The completions a reply offers, or why it is refused (see
/// `completion_items`).
pub fn items(reply: &CompletionReply) -> (r: Result<Vec<CompletionItem>, String>)
    ensures
        match completion_items(*reply) {
            Ok(v) => r matches Ok(items) && items_view(items@) == v,
            Err(m) => r matches Err(e) && e@ == m,
        },
{
    if reply.null {
        let empty: Vec<CompletionItem> = Vec::new();
        assert(items_view(empty@) =~= Seq::<(Seq<char>, nat)>::empty());
        return Ok(empty);
    }
    if reply.has_defaults {
        return Err(string_from("Server returned unsupported completion defaults"));
    }
    let list = match &reply.list {
        None => {
            return Err(string_from("Invalid completion list"));
        },
        Some(l) => l,
    };
    let mut keys: Vec<Vec<char>> = Vec::new();
    let mut i: usize = 0;
    while i < list.len()
        invariant
            0 <= i <= list.len(),
            keys.len() == i,
            forall|j: int| 0 <= j < i ==> keys@[j]@ == sort_key(list@[j]),
        decreases list.len() - i,
    {
        keys.push(key_chars(&list[i]));
        i = i + 1;
    }
    assert(keys@.map_values(|k: Vec<char>| k@) =~= keys_of(list@));
    let order = order_by_keys(&keys);
    let ghost o = order@.map_values(|i: usize| i as nat);
    let ghost goal = collect(list@, o, 0, 0, seq![]);
    let mut out: Vec<CompletionItem> = Vec::new();
    let mut bytes: usize = 0;
    let mut k: usize = 0;
    let mut full = false;
    assert(items_view(out@) =~= Seq::<(Seq<char>, nat)>::empty());
    while k < order.len() && !full
        invariant
            full ==> collect(list@, o, k as int, bytes as nat, items_view(out@)) == items_view(out@),
            0 <= k <= order.len(),
            order.len() == list.len(),
            o == order@.map_values(|i: usize| i as nat),
            forall|j: int| 0 <= j < order.len() ==> order@[j] < list.len(),
            bytes <= MAX_LIST_BYTES,
            out.len() <= MAX_ITEMS,
            collect(list@, o, k as int, bytes as nat, items_view(out@)) == goal,
        decreases order.len() - k, if full { 0int } else { 1int },
    {
        let e = &list[order[k]];
        if e.snippet || e.label.is_none() {
            k = k + 1;
        } else if e.size > MAX_LIST_BYTES - bytes || out.len() == MAX_ITEMS {
            full = true;
        } else {
            let label = match &e.label {
                Some(l) => label_of(l.as_str(), MAX_LABEL_CHARS),
                None => String::new(),
            };
            let ghost before = out@;
            out.push(CompletionItem { label, index: order[k] });
            assert(items_view(out@) =~= items_view(before).push(
                (label_chars(e.label->0@, MAX_LABEL_CHARS as nat), o[k as int])));
            bytes = bytes + e.size;
            k = k + 1;
        }
    }
    assert(stable_order(keys_of(list@), list@.len()) == o);
    Ok(out)
}

/// Whether item `x` is offered before item `y`: by key, items with equal
/// keys in reply order.
pub open spec fn offered_before(keys: Seq<Seq<char>>, x: nat, y: nat) -> bool {
    chars_lt(keys[x as int], keys[y as int]) || (keys[x as int] == keys[y as int] && x < y)
}

proof fn lemma_lt_irreflexive(a: Seq<char>)
    ensures
        !chars_lt(a, a),
    decreases a.len(),
{
    if a.len() > 0 {
        lemma_lt_irreflexive(a.drop_first());
    }
}

proof fn lemma_lt_total(a: Seq<char>, b: Seq<char>)
    ensures
        a == b || chars_lt(a, b) || chars_lt(b, a),
    decreases a.len(),
{
    if a.len() > 0 && b.len() > 0 && a[0] == b[0] {
        lemma_lt_total(a.drop_first(), b.drop_first());
        if a.drop_first() == b.drop_first() {
            assert(a =~= seq![a[0]] + a.drop_first());
            assert(b =~= seq![b[0]] + b.drop_first());
        }
    } else if a.len() == 0 && b.len() == 0 {
        assert(a =~= b);
    }
}

proof fn lemma_lt_transitive(a: Seq<char>, b: Seq<char>, c: Seq<char>)
    requires
        chars_lt(a, b),
        chars_lt(b, c),
    ensures
        chars_lt(a, c),
    decreases a.len(),
{
    if a.len() > 0 && b.len() > 0 && c.len() > 0 && a[0] == b[0] && b[0] == c[0] {
        lemma_lt_transitive(a.drop_first(), b.drop_first(), c.drop_first());
    }
}

proof fn lemma_insert_pos(o: Seq<nat>, keys: Seq<Seq<char>>, i: nat, j: int)
    requires
        0 <= j <= o.len(),
    ensures
        j <= insert_pos(o, keys, i, j) <= o.len(),
        forall|m: int| j <= m < insert_pos(o, keys, i, j) ==> !chars_lt(keys[i as int], #[trigger] keys[o[m] as int]),
        insert_pos(o, keys, i, j) < o.len() ==> chars_lt(keys[i as int], keys[o[insert_pos(o, keys, i, j)] as int]),
    decreases o.len() - j,
{
    if j < o.len() && !chars_lt(keys[i as int], keys[o[j] as int]) {
        lemma_insert_pos(o, keys, i, j + 1);
    }
}

/// The completion order lists each of the first `n` items once: by key,
/// items with equal keys in the order of the reply.
pub proof fn lemma_stable_order_sorted(keys: Seq<Seq<char>>, n: nat)
    requires
        n <= keys.len(),
    ensures
        stable_order(keys, n).len() == n,
        forall|i: int| 0 <= i < n ==> stable_order(keys, n)[i] < n,
        forall|i: int, j: int| 0 <= i < j < n ==> #[trigger] offered_before(keys, stable_order(keys, n)[i],
            stable_order(keys, n)[j]),
    decreases n,
{
    if n > 0 {
        let m = (n - 1) as nat;
        lemma_stable_order_sorted(keys, m);
        let o = stable_order(keys, m);
        let p = insert_pos(o, keys, m, 0);
        lemma_insert_pos(o, keys, m, 0);
        let r = stable_order(keys, n);
        assert(r == o.insert(p, m));
        assert forall|i: int| 0 <= i < n implies r[i] < n by {
            if i < p {
                assert(r[i] == o[i]);
            } else if i > p {
                assert(r[i] == o[i - 1]);
            }
        }
        assert forall|i: int, j: int| 0 <= i < j < n implies #[trigger] offered_before(keys, r[i], r[j]) by {
            let kn = keys[m as int];
            if i != p && j != p {
                let oi = if i < p { i } else { i - 1 };
                let oj = if j < p { j } else { j - 1 };
                assert(r[i] == o[oi] && r[j] == o[oj]);
                assert(offered_before(keys, o[oi], o[oj]));
            } else if j == p {
                assert(r[i] == o[i]);
                assert(!chars_lt(kn, keys[o[i] as int]));
                lemma_lt_total(kn, keys[o[i] as int]);
            } else {
                assert(r[j] == o[j - 1]);
                assert(chars_lt(kn, keys[o[p] as int]));
                if j - 1 > p {
                    assert(offered_before(keys, o[p], o[j - 1]));
                    if chars_lt(keys[o[p] as int], keys[o[j - 1] as int]) {
                        lemma_lt_transitive(kn, keys[o[p] as int], keys[o[j - 1] as int]);
                    }
                }
            }
        }
    }
}

} // verus!
