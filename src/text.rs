//! Character-sequence operations on recipe text, each with its meaning as a
//! spec function.
use vstd::prelude::*;

verus! {

/// `needle` occurs in `hay` at position `k`.
pub open spec fn occurs_at(hay: Seq<char>, needle: Seq<char>, k: int) -> bool {
    0 <= k && k + needle.len() <= hay.len() && hay.subrange(k, k + needle.len()) == needle
}

/// `needle` occurs somewhere in `hay`.
pub open spec fn contains_seq(hay: Seq<char>, needle: Seq<char>) -> bool {
    exists|k: int| occurs_at(hay, needle, k)
}

/// The first position `>= from` at which `needle` occurs in `hay`.
pub open spec fn find_from(hay: Seq<char>, needle: Seq<char>, from: int) -> Option<int>
    decreases hay.len() + 1 - from,
{
    if from < 0 || from + needle.len() > hay.len() {
        None
    } else if occurs_at(hay, needle, from) {
        Some(from)
    } else {
        find_from(hay, needle, from + 1)
    }
}

/// `s` without any double-quote character.
pub open spec fn strip_quotes(s: Seq<char>) -> Seq<char>
    decreases s.len(),
{
    if s.len() == 0 {
        s
    } else if s.last() == '"' {
        strip_quotes(s.drop_last())
    } else {
        strip_quotes(s.drop_last()).push(s.last())
    }
}

/// `s` with leading and trailing double quotes removed.
pub open spec fn trim_quotes(s: Seq<char>) -> Seq<char> {
    let a = leading_quotes(s, 0);
    let b = trailing_quotes(s, s.len() as int);
    if a >= b {
        Seq::empty()
    } else {
        s.subrange(a, b)
    }
}

/// Index of the first character at or after `i` that is not a double quote.
pub open spec fn leading_quotes(s: Seq<char>, i: int) -> int
    decreases s.len() - i,
{
    if i < 0 || i >= s.len() || s[i] != '"' {
        i
    } else {
        leading_quotes(s, i + 1)
    }
}

/// End of `s.take(j)` once trailing double quotes are dropped.
pub open spec fn trailing_quotes(s: Seq<char>, j: int) -> int
    decreases j,
{
    if j <= 0 || j > s.len() || s[j - 1] != '"' {
        j
    } else {
        trailing_quotes(s, j - 1)
    }
}

/// `s` with every occurrence of a non-empty `pat` replaced by `rep`, scanning
/// left to right.
pub open spec fn replace_all(s: Seq<char>, pat: Seq<char>, rep: Seq<char>) -> Seq<char>
    decreases s.len(),
{
    if pat.len() == 0 || s.len() < pat.len() {
        s
    } else if s.take(pat.len() as int) == pat {
        rep + replace_all(s.skip(pat.len() as int), pat, rep)
    } else {
        seq![s[0]] + replace_all(s.skip(1), pat, rep)
    }
}

/// Whitespace in the ASCII sense.
pub open spec fn is_space(c: char) -> bool {
    c == ' ' || c == '\t' || c == '\n' || c == '\r' || c == '\x0B' || c == '\x0C'
}

pub fn is_space_char(c: char) -> (r: bool)
    ensures
        r == is_space(c),
{
    c == ' ' || c == '\t' || c == '\n' || c == '\r' || c == '\x0B' || c == '\x0C'
}

/// Relies on std's `FromIterator<char> for String`: the string of exactly
/// these characters, in order.
#[verifier::external_body]
pub(crate) fn string_of(v: &[char]) -> (r: String)
    ensures
        r@ == v@,
{
    v.iter().collect()
}

/// The characters of `s`, in order.
pub fn chars_of(s: &str) -> (r: Vec<char>)
    ensures
        r@ == s@,
{
    let n = s.unicode_len();
    let mut r: Vec<char> = Vec::new();
    let mut i: usize = 0;
    while i < n
        invariant
            n == s@.len(),
            i <= n,
            r@ == s@.take(i as int),
        decreases n - i,
    {
        r.push(s.get_char(i));
        proof {
            assert(s@.take(i + 1) =~= s@.take(i as int).push(s@[i as int]));
        }
        i = i + 1;
    }
    proof {
        assert(s@.take(n as int) =~= s@);
    }
    r
}

/// Whether `needle` occurs in `hay` at position `k`.
pub fn occurs_at_exec(hay: &[char], needle: &[char], k: usize) -> (r: bool)
    ensures
        r == occurs_at(hay@, needle@, k as int),
{
    if k > hay.len() || needle.len() > hay.len() - k {
        return false;
    }
    let mut i: usize = 0;
    while i < needle.len()
        invariant
            k + needle.len() <= hay.len(),
            i <= needle.len(),
            forall|m: int| 0 <= m < i ==> hay@[k + m] == needle@[m],
        decreases needle.len() - i,
    {
        if hay[k + i] != needle[i] {
            proof {
                assert(hay@.subrange(k as int, k + needle.len())[i as int] != needle@[i as int]);
            }
            return false;
        }
        i = i + 1;
    }
    proof {
        assert(hay@.subrange(k as int, k + needle@.len()) =~= needle@);
    }
    true
}

/// The first position `>= from` at which `needle` occurs in `hay`.
pub fn find_from_exec(hay: &[char], needle: &[char], from: usize) -> (r: Option<usize>)
    ensures
        r matches Some(k) ==> find_from(hay@, needle@, from as int) == Some(k as int),
        r is None ==> find_from(hay@, needle@, from as int) is None,
{
    let mut k = from;
    while k <= hay.len() && needle.len() <= hay.len() - k
        invariant
            from <= k,
            find_from(hay@, needle@, from as int) == find_from(hay@, needle@, k as int),
        decreases hay.len() + 1 - k,
    {
        if occurs_at_exec(hay, needle, k) {
            return Some(k);
        }
        if k == hay.len() {
            proof {
                assert(find_from(hay@, needle@, k + 1) is None);
            }
            return None;
        }
        k = k + 1;
    }
    None
}

pub proof fn lemma_find_from_some(hay: Seq<char>, needle: Seq<char>, from: int)
    ensures
        find_from(hay, needle, from) matches Some(k) ==> from <= k && occurs_at(hay, needle, k),
    decreases hay.len() + 1 - from,
{
    if !(from < 0 || from + needle.len() > hay.len()) && !occurs_at(hay, needle, from) {
        lemma_find_from_some(hay, needle, from + 1);
    }
}

pub proof fn lemma_find_from_none(hay: Seq<char>, needle: Seq<char>, from: int)
    requires
        0 <= from,
        find_from(hay, needle, from) is None,
    ensures
        forall|k: int| from <= k ==> !occurs_at(hay, needle, k),
    decreases hay.len() + 1 - from,
{
    if from + needle.len() <= hay.len() {
        lemma_find_from_none(hay, needle, from + 1);
        assert forall|k: int| from <= k implies !occurs_at(hay, needle, k) by {
            if k > from {
            }
        }
    }
}

/// Whether `needle` occurs in `hay`.
pub fn contains_exec(hay: &[char], needle: &[char]) -> (r: bool)
    ensures
        r == contains_seq(hay@, needle@),
{
    let f = find_from_exec(hay, needle, 0);
    proof {
        lemma_find_from_some(hay@, needle@, 0);
        if f is None {
            lemma_find_from_none(hay@, needle@, 0);
        }
    }
    f.is_some()
}

/// The characters `hay[start..end]`.
pub fn slice_chars(hay: &[char], start: usize, end: usize) -> (r: Vec<char>)
    requires
        start <= end <= hay.len(),
    ensures
        r@ == hay@.subrange(start as int, end as int),
{
    let mut r: Vec<char> = Vec::new();
    let mut i = start;
    while i < end
        invariant
            start <= i <= end <= hay.len(),
            r@ == hay@.subrange(start as int, i as int),
        decreases end - i,
    {
        r.push(hay[i]);
        proof {
            assert(hay@.subrange(start as int, i + 1) =~= hay@.subrange(start as int, i as int).push(hay@[i as int]));
        }
        i = i + 1;
    }
    r
}

/// Whether `hay[start..end]` equals `word`.
pub fn span_eq(hay: &[char], start: usize, end: usize, word: &[char]) -> (r: bool)
    requires
        start <= end <= hay.len(),
    ensures
        r == (hay@.subrange(start as int, end as int) == word@),
{
    if end - start != word.len() {
        return false;
    }
    let r = occurs_at_exec(hay, word, start);
    r
}

/// `hay[start..end]` without double quotes.
pub fn strip_quotes_span(hay: &[char], start: usize, end: usize) -> (r: Vec<char>)
    requires
        start <= end <= hay.len(),
    ensures
        r@ == strip_quotes(hay@.subrange(start as int, end as int)),
{
    let mut r: Vec<char> = Vec::new();
    let mut i = start;
    while i < end
        invariant
            start <= i <= end <= hay.len(),
            r@ == strip_quotes(hay@.subrange(start as int, i as int)),
        decreases end - i,
    {
        proof {
            let s = hay@.subrange(start as int, i + 1);
            assert(s.drop_last() =~= hay@.subrange(start as int, i as int));
        }
        if hay[i] != '"' {
            r.push(hay[i]);
        }
        i = i + 1;
    }
    r
}

/// `hay[start..end]` with leading and trailing double quotes removed.
pub fn trim_quotes_span(hay: &[char], start: usize, end: usize) -> (r: Vec<char>)
    requires
        start <= end <= hay.len(),
    ensures
        r@ == trim_quotes(hay@.subrange(start as int, end as int)),
{
    let ghost s = hay@.subrange(start as int, end as int);
    let mut a = start;
    while a < end && hay[a] == '"'
        invariant
            start <= a <= end <= hay.len(),
            s == hay@.subrange(start as int, end as int),
            leading_quotes(s, 0) == leading_quotes(s, a - start),
        decreases end - a,
    {
        a = a + 1;
    }
    let mut b = end;
    while b > start && hay[b - 1] == '"'
        invariant
            start <= b <= end <= hay.len(),
            s == hay@.subrange(start as int, end as int),
            trailing_quotes(s, s.len() as int) == trailing_quotes(s, b - start),
        decreases b,
    {
        b = b - 1;
    }
    if a >= b {
        Vec::new()
    } else {
        let r = slice_chars(hay, a, b);
        proof {
            assert(r@ =~= s.subrange(a - start, b - start));
        }
        r
    }
}

/// `s` with every occurrence of a non-empty `pat` replaced by `rep`.
pub fn replace_all_exec(s: &[char], pat: &[char], rep: &[char]) -> (r: Vec<char>)
    ensures
        r@ == replace_all(s@, pat@, rep@),
{
    let mut out: Vec<char> = Vec::new();
    let mut i: usize = 0;
    if pat.len() == 0 {
        return slice_chars(s, 0, s.len());
    }
    proof {
        assert(s@.skip(0) =~= s@);
        assert(out@ + replace_all(s@, pat@, rep@) =~= replace_all(s@, pat@, rep@));
    }
    while i < s.len()
        invariant
            i <= s.len(),
            pat@.len() > 0,
            out@ + replace_all(s@.skip(i as int), pat@, rep@) == replace_all(s@, pat@, rep@),
        decreases s.len() - i,
    {
        let ghost rest = s@.skip(i as int);
        if pat.len() <= s.len() - i && occurs_at_exec(s, pat, i) {
            proof {
                assert(rest.take(pat@.len() as int) =~= s@.subrange(i as int, i + pat@.len()));
                assert(rest.skip(pat@.len() as int) =~= s@.skip(i + pat@.len()));
            }
            let mut j: usize = 0;
            let ghost before = out@;
            while j < rep.len()
                invariant
                    j <= rep.len(),
                    out@ == before + rep@.take(j as int),
                decreases rep.len() - j,
            {
                out.push(rep[j]);
                proof {
                    assert(rep@.take(j + 1) =~= rep@.take(j as int).push(rep@[j as int]));
                }
                j = j + 1;
            }
            proof {
                assert(rep@.take(rep@.len() as int) =~= rep@);
                assert(before + (rep@ + replace_all(s@.skip(i + pat@.len()), pat@, rep@)) =~= out@ + replace_all(s@.skip(i + pat@.len()), pat@, rep@));
            }
            i = i + pat.len();
        } else {
            proof {
                if rest.len() >= pat@.len() {
                    assert(rest.take(pat@.len() as int) =~= s@.subrange(i as int, i + pat@.len()));
                }
                assert(rest.skip(1) =~= s@.skip(i + 1));
                if rest.len() < pat@.len() {
                    // the rest is kept as it is, one character at a time
                    lemma_replace_short(rest, pat@, rep@);
                }
                assert(out@ + (seq![s@[i as int]] + replace_all(s@.skip(i + 1), pat@, rep@)) =~= out@.push(s@[i as int]) + replace_all(s@.skip(i + 1), pat@, rep@));
            }
            out.push(s[i]);
            i = i + 1;
        }
    }
    proof {
        assert(s@.skip(i as int) =~= Seq::<char>::empty());
        assert(out@ + Seq::<char>::empty() =~= out@);
    }
    out
}

proof fn lemma_replace_short(s: Seq<char>, pat: Seq<char>, rep: Seq<char>)
    requires
        0 < s.len() < pat.len(),
    ensures
        replace_all(s, pat, rep) == seq![s[0]] + replace_all(s.skip(1), pat, rep),
{
    assert(s.skip(1).len() < pat.len());
    assert(seq![s[0]] + s.skip(1) =~= s);
}

} // verus!
