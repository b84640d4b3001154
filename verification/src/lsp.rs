//! Language-server data the editor reads: UTF-16 positions and code
//! actions.
pub mod actions;
pub mod changes;
pub mod hover;
pub mod completion;
pub mod completion_edit;
pub mod framing;
pub mod servers;
pub mod locations;

use vstd::prelude::*;
use crate::text::{chars_of, string_from};

verus! {

/// UTF-16 code units that encode `c`.
pub open spec fn utf16_width(c: char) -> nat {
    if c >= '\u{10000}' {
        2
    } else {
        1
    }
}

/// UTF-16 code units that encode `s`.
pub open spec fn utf16_len(s: Seq<char>) -> nat
    decreases s.len(),
{
    if s.len() == 0 {
        0
    } else {
        utf16_len(s.drop_last()) + utf16_width(s.last())
    }
}

/// Whether some prefix of `s` is exactly `units` UTF-16 code units long.
pub open spec fn utf16_boundary(s: Seq<char>, units: int) -> bool {
    exists|k: int| 0 <= k <= s.len() && utf16_len(#[trigger] s.take(k)) == units
}

proof fn lemma_utf16_step(s: Seq<char>, k: int)
    requires
        0 <= k < s.len(),
    ensures
        utf16_len(s.take(k + 1)) == utf16_len(s.take(k)) + utf16_width(s[k]),
{
    assert(s.take(k + 1).drop_last() =~= s.take(k));
}

/// Longer prefixes take more code units.
proof fn lemma_utf16_monotonic(s: Seq<char>, j: int, k: int)
    requires
        0 <= j <= k <= s.len(),
    ensures
        utf16_len(s.take(j)) + (k - j) <= utf16_len(s.take(k)),
    decreases k - j,
{
    if j < k {
        lemma_utf16_monotonic(s, j, k - 1);
        lemma_utf16_step(s, k - 1);
    }
}

/// The column (in characters) of the position `units` UTF-16 code units
/// into the line; refused where it splits a character or lies past the
/// end.
pub fn utf16_column(text: &str, units: usize) -> (r: Result<usize, String>)
    ensures
        utf16_boundary(text@, units as int) ==> (r matches Ok(c) && c <= text@.len() && utf16_len(text@.take(c as int)) == units),
        !utf16_boundary(text@, units as int) && units > utf16_len(text@) ==> (r matches Err(m) && m@ == "Definition position is outside the line"@),
        !utf16_boundary(text@, units as int) && units <= utf16_len(text@) ==> (r matches Err(m) && m@ == "Definition position splits a Unicode character"@),
{
    let chars = chars_of(text);
    let ghost s = text@;
    let mut used: usize = 0;
    let mut k: usize = 0;
    assert(s.take(0) =~= Seq::<char>::empty());
    while k < chars.len()
        invariant
            0 <= k <= chars.len(),
            chars@ == s,
            s == text@,
            used == utf16_len(s.take(k as int)),
            used <= units,
            forall|j: int| 0 <= j < k ==> utf16_len(#[trigger] s.take(j)) < units,
        decreases chars.len() - k,
    {
        if used == units {
            assert(utf16_len(s.take(k as int)) == units);
            assert(utf16_boundary(text@, units as int));
            return Ok(k);
        }
        let c = chars[k];
        let w: usize = if c >= '\u{10000}' { 2 } else { 1 };
        proof {
            lemma_utf16_step(s, k as int);
        }
        if w > units - used {
            proof {
                assert forall|j: int| 0 <= j <= s.len() implies utf16_len(#[trigger] s.take(j)) != units by {
                    if j <= k {
                        if j < k {
                            assert(utf16_len(s.take(j)) < units);
                        }
                    } else {
                        lemma_utf16_monotonic(s, k + 1, j);
                    }
                }
                lemma_utf16_monotonic(s, k + 1, s.len() as int);
                assert(s.take(s.len() as int) =~= s);
            }
            return Err(string_from("Definition position splits a Unicode character"));
        }
        used = used + w;
        k = k + 1;
    }
    assert(s.take(s.len() as int) =~= s);
    if used == units {
        Ok(chars.len())
    } else {
        proof {
            assert forall|j: int| 0 <= j <= s.len() implies utf16_len(#[trigger] s.take(j)) != units by {
                if j < k {
                    assert(utf16_len(s.take(j)) < units);
                }
            }
        }
        Err(string_from("Definition position is outside the line"))
    }
}

} // verus!
