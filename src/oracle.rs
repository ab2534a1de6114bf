//! Reading a content hash out of a builder's diagnostics: the builder reports
//! a hash mismatch as `got: <hash>`.
use vstd::prelude::*;

use crate::text::{find_from, find_from_exec, is_space, is_space_char, chars_of, string_of, slice_chars, lemma_find_from_some};

verus! {

/// Index of the first character at or after `i` that is not a blank of the
/// same line.
pub open spec fn skip_blanks(s: Seq<char>, i: int) -> int
    decreases s.len() - i,
{
    if i < 0 || i >= s.len() || !is_space(s[i]) || s[i] == '\n' {
        i
    } else {
        skip_blanks(s, i + 1)
    }
}

/// Index of the first whitespace character at or after `i`.
pub open spec fn token_end(s: Seq<char>, i: int) -> int
    decreases s.len() - i,
{
    if i < 0 || i >= s.len() || is_space(s[i]) {
        i
    } else {
        token_end(s, i + 1)
    }
}

/// The hash that diagnostics `d` report: after the first `got:`, past the
/// blanks that follow it on its line, up to the next whitespace; nothing
/// when no text follows the marker on its line.
pub open spec fn oracle_hash(d: Seq<char>) -> Option<Seq<char>> {
    match find_from(d, "got:"@, 0) {
        None => None,
        Some(k) => {
            let a = skip_blanks(d, k + 4);
            let e = token_end(d, a);
            if a < e {
                Some(d.subrange(a, e))
            } else {
                None
            }
        },
    }
}

/// The hash reported in a builder's diagnostics, if they hold `got:`
/// followed by text on the same line.
pub fn extract_hash(diagnostics: &str) -> (r: Option<String>)
    ensures
        r matches Some(h) ==> oracle_hash(diagnostics@) == Some(h@),
        r is None ==> oracle_hash(diagnostics@) is None,
{
    let d = chars_of(diagnostics);
    let marker = chars_of("got:");
    proof {
        reveal_strlit("got:");
    }
    match find_from_exec(d.as_slice(), marker.as_slice(), 0) {
        None => None,
        Some(k) => {
            proof {
                lemma_find_from_some(d@, marker@, 0);
            }
            let mut a = k + 4;
            while a < d.len() && is_space_char(d[a]) && d[a] != '\n'
                invariant
                    k + 4 <= a <= d.len(),
                    skip_blanks(d@, k + 4) == skip_blanks(d@, a as int),
                decreases d.len() - a,
            {
                a = a + 1;
            }
            let mut b = a;
            while b < d.len() && !is_space_char(d[b])
                invariant
                    a <= b <= d.len(),
                    token_end(d@, a as int) == token_end(d@, b as int),
                decreases d.len() - b,
            {
                b = b + 1;
            }
            if a == b {
                return None;
            }
            let h = slice_chars(d.as_slice(), a, b);
            Some(string_of(h.as_slice()))
        },
    }
}

} // verus!
