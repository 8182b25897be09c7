//! Text helpers for the query engine: ASCII-case-insensitive comparison
//! and substring search, and splitting a token at its first colon.
//!
//! Matching is case-insensitive for ASCII letters only, mirroring the
//! collation the persistence layer applies to `LIKE` patterns.

use vstd::prelude::*;

verus! {

/// Relies on `String::push`: appends one character at the end.
pub assume_specification[ String::push ](s: &mut String, c: char)
    ensures
        final(s)@ == old(s)@.push(c),
;

/// The code point of a character with ASCII upper-case letters lowered.
pub open spec fn lower_code(c: char) -> int {
    if 65 <= c as int <= 90 {
        c as int + 32
    } else {
        c as int
    }
}

/// Two characters are equal up to ASCII case.
pub open spec fn chars_eq_ci(a: char, b: char) -> bool {
    lower_code(a) == lower_code(b)
}

/// Two character sequences are equal up to ASCII case.
pub open spec fn seq_eq_ci(a: Seq<char>, b: Seq<char>) -> bool {
    a.len() == b.len() && (forall|i: int| 0 <= i < a.len() ==> chars_eq_ci(a[i], b[i]))
}

/// `n` occurs in `h` at offset `i`, up to ASCII case.
pub open spec fn contains_ci_at(h: Seq<char>, n: Seq<char>, i: int) -> bool {
    0 <= i && i + n.len() <= h.len() && seq_eq_ci(h.subrange(i, i + n.len() as int), n)
}

/// `n` occurs somewhere in `h`, up to ASCII case.
pub open spec fn contains_ci(h: Seq<char>, n: Seq<char>) -> bool {
    exists|i: int| contains_ci_at(h, n, i)
}

/// Case-insensitive equality is reflexive.
pub proof fn lemma_seq_eq_ci_reflexive(a: Seq<char>)
    ensures
        seq_eq_ci(a, a),
{
}

fn char_eq_ci(a: char, b: char) -> (r: bool)
    ensures
        r == chars_eq_ci(a, b),
{
    let ua = a as u32;
    let ub = b as u32;
    let la = if ua >= 65 && ua <= 90 {
        ua + 32
    } else {
        ua
    };
    let lb = if ub >= 65 && ub <= 90 {
        ub + 32
    } else {
        ub
    };
    la == lb
}

/// Whether two strings are equal up to ASCII case.
pub fn str_eq_ci(a: &str, b: &str) -> (r: bool)
    ensures
        r == seq_eq_ci(a@, b@),
{
    let al = a.unicode_len();
    let bl = b.unicode_len();
    if al != bl {
        return false;
    }
    let mut i: usize = 0;
    while i < al
        invariant
            al == a@.len() == b@.len(),
            0 <= i <= al,
            forall|j: int| 0 <= j < i ==> chars_eq_ci(a@[j], b@[j]),
        decreases al - i,
    {
        if !char_eq_ci(a.get_char(i), b.get_char(i)) {
            return false;
        }
        i = i + 1;
    }
    true
}

/// Whether `needle` occurs in `haystack`, up to ASCII case.
pub fn contains_ci_str(haystack: &str, needle: &str) -> (r: bool)
    ensures
        r == contains_ci(haystack@, needle@),
{
    let hl = haystack.unicode_len();
    let nl = needle.unicode_len();
    if nl > hl {
        assert(forall|i: int| !contains_ci_at(haystack@, needle@, i));
        return false;
    }
    let mut start: usize = 0;
    while start <= hl - nl
        invariant
            hl == haystack@.len(),
            nl == needle@.len(),
            nl <= hl,
            0 <= start <= hl - nl + 1,
            forall|k: int| 0 <= k < start ==> !contains_ci_at(haystack@, needle@, k),
        decreases hl - nl + 1 - start,
    {
        let mut j: usize = 0;
        let mut matched = true;
        while j < nl
            invariant
                hl == haystack@.len(),
                nl == needle@.len(),
                nl <= hl,
                0 <= start <= hl - nl,
                0 <= j <= nl,
                matched ==> forall|jj: int|
                    0 <= jj < j ==> chars_eq_ci(haystack@[start + jj], needle@[jj]),
                !matched ==> !contains_ci_at(haystack@, needle@, start as int),
            decreases nl - j,
        {
            if !char_eq_ci(haystack.get_char(start + j), needle.get_char(j)) {
                proof {
                    let sub = haystack@.subrange(start as int, start + nl);
                    assert(sub[j as int] == haystack@[start + j]);
                }
                matched = false;
                j = nl;
            } else {
                j = j + 1;
            }
        }
        if matched {
            proof {
                let sub = haystack@.subrange(start as int, start + nl);
                assert(forall|jj: int| 0 <= jj < nl ==> sub[jj] == haystack@[start + jj]);
                assert(contains_ci_at(haystack@, needle@, start as int));
            }
            return true;
        }
        start = start + 1;
    }
    proof {
        assert(forall|k: int| k > hl - nl ==> !contains_ci_at(haystack@, needle@, k));
    }
    false
}

/// Splits a token at its first colon into prefix and remainder, or
/// reports that it has no colon.
pub fn split_prefix(token: &str) -> (r: Option<(String, String)>)
    ensures
        match r {
            Option::None => forall|i: int| 0 <= i < token@.len() ==> token@[i] != ':',
            Option::Some(pair) => exists|i: int|
                {
                    &&& 0 <= i < token@.len()
                    &&& token@[i] == ':'
                    &&& forall|j: int| 0 <= j < i ==> token@[j] != ':'
                    &&& pair.0@ == token@.subrange(0, i)
                    &&& pair.1@ == token@.subrange(i + 1, token@.len() as int)
                },
        },
{
    let n = token.unicode_len();
    let mut i: usize = 0;
    while i < n
        invariant
            n == token@.len(),
            0 <= i <= n,
            forall|j: int| 0 <= j < i ==> token@[j] != ':',
        decreases n - i,
    {
        if token.get_char(i) == ':' {
            let prefix = token.substring_char(0, i).to_owned();
            let rest = token.substring_char(i + 1, n).to_owned();
            return Some((prefix, rest));
        }
        i = i + 1;
    }
    None
}

} // verus!
