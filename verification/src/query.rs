//! Query parsing: the tokenizer and the predicate builder.
//!
//! A query is split on spaces, except inside double-quoted spans;
//! a backslash escapes the next character verbatim.  Each token is then
//! either bare or `prefix:remainder`; the recognized prefixes are
//! `filename:`, `tag:`/`exif:`, `all:` and `similar:` (ASCII
//! case-insensitive); a token with an unrecognized prefix filters
//! nothing.

use vstd::prelude::*;

use crate::record::{tags_view, Record, RecordV};
use crate::text::{contains_ci, contains_ci_str, seq_eq_ci, split_prefix, str_eq_ci};

verus! {

/// Why a query cannot be parsed.
#[derive(Clone, Copy, Debug, PartialEq, Eq, Structural)]
pub enum QueryError {
    /// The text ends inside a double-quoted span.
    UnterminatedQuote,
    /// The text ends right after an escape character.
    TrailingEscape,
}

/// The tokenizer, as a state machine over the remaining input: `i` is
/// the position, `escaped` and `quoted` the two mode flags, `cur` the
/// token being accumulated and `acc` the tokens already produced.
pub open spec fn tokenize_from(
    s: Seq<char>,
    i: int,
    escaped: bool,
    quoted: bool,
    cur: Seq<char>,
    acc: Seq<Seq<char>>,
) -> Result<Seq<Seq<char>>, QueryError>
    decreases s.len() - i,
{
    if i < 0 || i >= s.len() {
        if quoted {
            Err(QueryError::UnterminatedQuote)
        } else if escaped {
            Err(QueryError::TrailingEscape)
        } else if cur.len() == 0 {
            Ok(acc)
        } else {
            Ok(acc.push(cur))
        }
    } else {
        let c = s[i];
        if escaped {
            tokenize_from(s, i + 1, false, quoted, cur.push(c), acc)
        } else if c == '"' {
            if !quoted {
                tokenize_from(s, i + 1, false, true, cur, acc)
            } else {
                tokenize_from(s, i + 1, false, false, Seq::empty(), acc.push(cur))
            }
        } else if c == '\\' {
            tokenize_from(s, i + 1, true, quoted, cur, acc)
        } else if c == ' ' {
            if quoted {
                tokenize_from(s, i + 1, false, true, cur.push(c), acc)
            } else if cur.len() == 0 {
                tokenize_from(s, i + 1, false, false, cur, acc)
            } else {
                tokenize_from(s, i + 1, false, false, Seq::empty(), acc.push(cur))
            }
        } else {
            tokenize_from(s, i + 1, false, quoted, cur.push(c), acc)
        }
    }
}

/// What tokenizing a whole query yields.
pub open spec fn tokenize_spec(s: Seq<char>) -> Result<Seq<Seq<char>>, QueryError> {
    tokenize_from(s, 0, false, false, Seq::empty(), Seq::empty())
}

/// Splits the query into tokens: spaces separate, double quotes group,
/// a backslash escapes the next character.  An unterminated quote or a
/// trailing escape is an error, not a silent truncation.
pub fn tokenize_query(query: &String) -> (r: Result<Vec<String>, QueryError>)
    ensures
        match r {
            Result::Ok(v) => tokenize_spec(query@) == Ok::<Seq<Seq<char>>, QueryError>(
                v.deep_view(),
            ),
            Result::Err(e) => tokenize_spec(query@) == Err::<Seq<Seq<char>>, QueryError>(e),
        },
{
    let s = query.as_str();
    let n = s.unicode_len();
    let mut escaped = false;
    let mut quoted = false;
    let mut cur = String::new();
    let mut acc: Vec<String> = Vec::new();
    let mut i: usize = 0;
    proof {
        assert(cur@ =~= Seq::<char>::empty());
        assert(acc.deep_view() =~= Seq::<Seq<char>>::empty());
    }
    while i < n
        invariant
            n == s@.len(),
            s@ == query@,
            0 <= i <= n,
            tokenize_from(query@, i as int, escaped, quoted, cur@, acc.deep_view())
                == tokenize_spec(query@),
        decreases n - i,
    {
        let c = s.get_char(i);
        let ghost pre_cur = cur@;
        let ghost pre_acc = acc.deep_view();
        if escaped {
            cur.push(c);
            escaped = false;
        } else if c == '"' {
            if !quoted {
                quoted = true;
            } else {
                quoted = false;
                acc.push(cur);
                cur = String::new();
                proof {
                    assert(acc.deep_view() =~= pre_acc.push(pre_cur));
                }
            }
        } else if c == '\\' {
            escaped = true;
        } else if c == ' ' {
            if quoted {
                cur.push(c);
            } else if cur.unicode_len() == 0 {
                proof {
                    assert(cur@ =~= pre_cur);
                }
            } else {
                acc.push(cur);
                cur = String::new();
                proof {
                    assert(acc.deep_view() =~= pre_acc.push(pre_cur));
                }
            }
        } else {
            cur.push(c);
        }
        i = i + 1;
    }
    if quoted {
        return Err(QueryError::UnterminatedQuote);
    }
    if escaped {
        return Err(QueryError::TrailingEscape);
    }
    if cur.unicode_len() > 0 {
        let ghost pre_acc = acc.deep_view();
        let ghost pre_cur = cur@;
        acc.push(cur);
        proof {
            assert(acc.deep_view() =~= pre_acc.push(pre_cur));
        }
    }
    Ok(acc)
}

/// The model of one parsed token.
pub ghost enum PredV {
    /// `filename:s` — substring match against the filename.
    Filename(Seq<char>),
    /// `tag:name:value` — one tag whose name and value both match.
    TagBoth(Seq<char>, Seq<char>),
    /// `tag:s` — one tag whose name or value matches.
    TagEither(Seq<char>),
    /// `all:s` — filename, path or any tag value matches.
    AllFields(Seq<char>),
    /// A bare token: filename, path or any tag value matches.
    Bare(Seq<char>),
    /// `similar:path` — a similarity reference, not a filter.
    Similar(Seq<char>),
    /// A token with an unrecognized prefix: filters nothing.
    Ignored,
}

/// One parsed token of a query.
pub enum Predicate {
    Filename(String),
    TagBoth(String, String),
    TagEither(String),
    AllFields(String),
    Bare(String),
    Similar(String),
    Ignored,
}

impl DeepView for Predicate {
    type V = PredV;

    open spec fn deep_view(&self) -> PredV {
        self.view()
    }
}

impl View for Predicate {
    type V = PredV;

    open spec fn view(&self) -> PredV {
        match self {
            Predicate::Filename(s) => PredV::Filename(s@),
            Predicate::TagBoth(a, b) => PredV::TagBoth(a@, b@),
            Predicate::TagEither(s) => PredV::TagEither(s@),
            Predicate::AllFields(s) => PredV::AllFields(s@),
            Predicate::Bare(s) => PredV::Bare(s@),
            Predicate::Similar(s) => PredV::Similar(s@),
            Predicate::Ignored => PredV::Ignored,
        }
    }
}

/// The index of the first colon in `s`, or -1 if it has none.
pub open spec fn find_colon(s: Seq<char>) -> int
    decreases s.len(),
{
    if s.len() == 0 {
        -1
    } else if s[0] == ':' {
        0
    } else {
        let r = find_colon(s.drop_first());
        if r < 0 {
            -1
        } else {
            r + 1
        }
    }
}

proof fn lemma_find_colon_props(s: Seq<char>)
    ensures
        find_colon(s) == -1 ==> forall|i: int| 0 <= i < s.len() ==> s[i] != ':',
        find_colon(s) >= 0 ==> {
            &&& find_colon(s) < s.len()
            &&& s[find_colon(s)] == ':'
            &&& forall|j: int| 0 <= j < find_colon(s) ==> s[j] != ':'
        },
    decreases s.len(),
{
    if s.len() > 0 && s[0] != ':' {
        lemma_find_colon_props(s.drop_first());
        let r = find_colon(s.drop_first());
        if r >= 0 {
            assert(s.drop_first()[r] == s[r + 1]);
            assert(forall|j: int| 1 <= j < r + 1 ==> s[j] == s.drop_first()[j - 1]);
        } else {
            assert(forall|j: int| 1 <= j < s.len() ==> s[j] == s.drop_first()[j - 1]);
        }
    }
}

/// What one token means: its colon prefix decides the predicate; the
/// prefixes compare ASCII-case-insensitively.
pub open spec fn parse_token_spec(t: Seq<char>) -> PredV {
    let i = find_colon(t);
    if i < 0 {
        PredV::Bare(t)
    } else {
        let prefix = t.subrange(0, i);
        let rest = t.subrange(i + 1, t.len() as int);
        if seq_eq_ci(prefix, "similar"@) {
            PredV::Similar(rest)
        } else if seq_eq_ci(prefix, "exif"@) || seq_eq_ci(prefix, "tag"@) {
            let j = find_colon(rest);
            if j < 0 {
                PredV::TagEither(rest)
            } else {
                PredV::TagBoth(rest.subrange(0, j), rest.subrange(j + 1, rest.len() as int))
            }
        } else if seq_eq_ci(prefix, "filename"@) {
            PredV::Filename(rest)
        } else if seq_eq_ci(prefix, "all"@) {
            PredV::AllFields(rest)
        } else {
            PredV::Ignored
        }
    }
}

/// Parses one token into its predicate.
pub fn parse_token(t: &String) -> (r: Predicate)
    ensures
        r@ == parse_token_spec(t@),
{
    proof {
        lemma_find_colon_props(t@);
    }
    match split_prefix(t.as_str()) {
        Option::None => Predicate::Bare(t.clone()),
        Option::Some((prefix, rest)) => {
            proof {
                let i = choose|i: int|
                    {
                        &&& 0 <= i < t@.len()
                        &&& t@[i] == ':'
                        &&& forall|j: int| 0 <= j < i ==> t@[j] != ':'
                        &&& prefix@ == t@.subrange(0, i)
                        &&& rest@ == t@.subrange(i + 1, t@.len() as int)
                    };
                assert(find_colon(t@) == i);
            }
            if str_eq_ci(prefix.as_str(), "similar") {
                Predicate::Similar(rest)
            } else if str_eq_ci(prefix.as_str(), "exif") || str_eq_ci(prefix.as_str(), "tag") {
                proof {
                    lemma_find_colon_props(rest@);
                }
                match split_prefix(rest.as_str()) {
                    Option::None => Predicate::TagEither(rest),
                    Option::Some((name, value)) => {
                        proof {
                            let j = choose|j: int|
                                {
                                    &&& 0 <= j < rest@.len()
                                    &&& rest@[j] == ':'
                                    &&& forall|k: int| 0 <= k < j ==> rest@[k] != ':'
                                    &&& name@ == rest@.subrange(0, j)
                                    &&& value@ == rest@.subrange(j + 1, rest@.len() as int)
                                };
                            assert(find_colon(rest@) == j);
                        }
                        Predicate::TagBoth(name, value)
                    },
                }
            } else if str_eq_ci(prefix.as_str(), "filename") {
                Predicate::Filename(rest)
            } else if str_eq_ci(prefix.as_str(), "all") {
                Predicate::AllFields(rest)
            } else {
                Predicate::Ignored
            }
        },
    }
}

/// What a whole token list means.
pub open spec fn parse_tokens_spec(toks: Seq<Seq<char>>) -> Seq<PredV> {
    toks.map_values(|t: Seq<char>| parse_token_spec(t))
}

/// Parses every token of a query, one predicate per token.
pub fn parse_tokens(tokens: &Vec<String>) -> (r: Vec<Predicate>)
    ensures
        r.deep_view() == parse_tokens_spec(tokens.deep_view()),
{
    let n = tokens.len();
    let mut out: Vec<Predicate> = Vec::new();
    let mut i: usize = 0;
    while i < n
        invariant
            n == tokens@.len(),
            0 <= i <= n,
            out.deep_view() =~= parse_tokens_spec(tokens.deep_view().subrange(0, i as int)),
        decreases n - i,
    {
        let ghost pre = out.deep_view();
        let p = parse_token(&tokens[i]);
        let ghost pv = p@;
        out.push(p);
        proof {
            let dv = tokens.deep_view();
            assert(out.deep_view() =~= pre.push(pv));
            assert(dv[i as int] == tokens@[i as int]@);
            assert(pv == parse_token_spec(dv[i as int]));
            let target = parse_tokens_spec(dv.subrange(0, i + 1));
            assert forall|j: int| 0 <= j < i + 1 implies out.deep_view()[j] == target[j] by {
                if j < i {
                    assert(pre[j] == parse_tokens_spec(dv.subrange(0, i as int))[j]);
                    assert(dv.subrange(0, i as int)[j] == dv[j]);
                    assert(dv.subrange(0, i + 1)[j] == dv[j]);
                } else {
                    assert(dv.subrange(0, i + 1)[j] == dv[i as int]);
                }
            }
            assert(out.deep_view() =~= target);
        }
        i = i + 1;
    }
    proof {
        assert(tokens.deep_view().subrange(0, n as int) =~= tokens.deep_view());
    }
    out
}

/// Some tag of the record has `n` in its name and `v` in its value.
pub open spec fn some_tag_matches_both(tags: Seq<(Seq<char>, Seq<char>)>, n: Seq<char>, v: Seq<char>) -> bool {
    exists|i: int| 0 <= i < tags.len() && contains_ci(tags[i].0, n) && contains_ci(tags[i].1, v)
}

/// Some tag of the record has `s` in its name or in its value.
pub open spec fn some_tag_matches_either(tags: Seq<(Seq<char>, Seq<char>)>, s: Seq<char>) -> bool {
    exists|i: int| 0 <= i < tags.len() && (contains_ci(tags[i].0, s) || contains_ci(tags[i].1, s))
}

/// Some tag of the record has `s` in its value.
pub open spec fn some_tag_value_matches(tags: Seq<(Seq<char>, Seq<char>)>, s: Seq<char>) -> bool {
    exists|i: int| 0 <= i < tags.len() && contains_ci(tags[i].1, s)
}

/// Whether a record satisfies one predicate.  `similar:` terms and
/// unrecognized prefixes filter nothing.
pub open spec fn pred_matches(r: RecordV, p: PredV) -> bool {
    match p {
        PredV::Filename(s) => contains_ci(r.filename, s),
        PredV::TagBoth(n, v) => some_tag_matches_both(r.tags, n, v),
        PredV::TagEither(s) => some_tag_matches_either(r.tags, s),
        PredV::AllFields(s) => contains_ci(r.filename, s) || contains_ci(r.path, s)
            || some_tag_value_matches(r.tags, s),
        PredV::Bare(s) => contains_ci(r.filename, s) || contains_ci(r.path, s)
            || some_tag_value_matches(r.tags, s),
        PredV::Similar(_) => true,
        PredV::Ignored => true,
    }
}

/// Whether a record satisfies every predicate of a query.
pub open spec fn matches_all(r: RecordV, preds: Seq<PredV>) -> bool {
    forall|i: int| 0 <= i < preds.len() ==> pred_matches(r, preds[i])
}

fn some_tag_both(tags: &Vec<(String, String)>, n: &String, v: &String) -> (r: bool)
    ensures
        r == some_tag_matches_both(tags_view(tags@), n@, v@),
{
    let len = tags.len();
    let mut i: usize = 0;
    while i < len
        invariant
            len == tags@.len(),
            0 <= i <= len,
            forall|j: int|
                0 <= j < i ==> !(contains_ci(tags_view(tags@)[j].0, n@) && contains_ci(
                    tags_view(tags@)[j].1,
                    v@,
                )),
        decreases len - i,
    {
        if contains_ci_str(tags[i].0.as_str(), n.as_str()) && contains_ci_str(
            tags[i].1.as_str(),
            v.as_str(),
        ) {
            proof {
                assert(tags_view(tags@)[i as int] == (tags@[i as int].0@, tags@[i as int].1@));
                assert(some_tag_matches_both(tags_view(tags@), n@, v@));
            }
            return true;
        }
        i = i + 1;
    }
    false
}

fn some_tag_either(tags: &Vec<(String, String)>, s: &String) -> (r: bool)
    ensures
        r == some_tag_matches_either(tags_view(tags@), s@),
{
    let len = tags.len();
    let mut i: usize = 0;
    while i < len
        invariant
            len == tags@.len(),
            0 <= i <= len,
            forall|j: int|
                0 <= j < i ==> !(contains_ci(tags_view(tags@)[j].0, s@) || contains_ci(
                    tags_view(tags@)[j].1,
                    s@,
                )),
        decreases len - i,
    {
        if contains_ci_str(tags[i].0.as_str(), s.as_str()) || contains_ci_str(
            tags[i].1.as_str(),
            s.as_str(),
        ) {
            proof {
                assert(tags_view(tags@)[i as int] == (tags@[i as int].0@, tags@[i as int].1@));
                assert(some_tag_matches_either(tags_view(tags@), s@));
            }
            return true;
        }
        i = i + 1;
    }
    false
}

fn some_tag_value(tags: &Vec<(String, String)>, s: &String) -> (r: bool)
    ensures
        r == some_tag_value_matches(tags_view(tags@), s@),
{
    let len = tags.len();
    let mut i: usize = 0;
    while i < len
        invariant
            len == tags@.len(),
            0 <= i <= len,
            forall|j: int| 0 <= j < i ==> !contains_ci(tags_view(tags@)[j].1, s@),
        decreases len - i,
    {
        if contains_ci_str(tags[i].1.as_str(), s.as_str()) {
            proof {
                assert(tags_view(tags@)[i as int] == (tags@[i as int].0@, tags@[i as int].1@));
                assert(some_tag_value_matches(tags_view(tags@), s@));
            }
            return true;
        }
        i = i + 1;
    }
    false
}

/// Whether a record satisfies one predicate.
pub fn record_matches_pred(r: &Record, p: &Predicate) -> (b: bool)
    ensures
        b == pred_matches(r@, p@),
{
    match p {
        Predicate::Filename(s) => contains_ci_str(r.filename.as_str(), s.as_str()),
        Predicate::TagBoth(n, v) => some_tag_both(&r.tags, n, v),
        Predicate::TagEither(s) => some_tag_either(&r.tags, s),
        Predicate::AllFields(s) => {
            contains_ci_str(r.filename.as_str(), s.as_str()) || contains_ci_str(
                r.path.as_str(),
                s.as_str(),
            ) || some_tag_value(&r.tags, s)
        },
        Predicate::Bare(s) => {
            contains_ci_str(r.filename.as_str(), s.as_str()) || contains_ci_str(
                r.path.as_str(),
                s.as_str(),
            ) || some_tag_value(&r.tags, s)
        },
        Predicate::Similar(_) => true,
        Predicate::Ignored => true,
    }
}

/// Whether a record satisfies every predicate of a query.
pub fn record_matches_all(r: &Record, preds: &Vec<Predicate>) -> (b: bool)
    ensures
        b == matches_all(r@, preds.deep_view()),
{
    let n = preds.len();
    let mut i: usize = 0;
    while i < n
        invariant
            n == preds@.len(),
            0 <= i <= n,
            forall|j: int| 0 <= j < i ==> pred_matches(r@, preds.deep_view()[j]),
        decreases n - i,
    {
        if !record_matches_pred(r, &preds[i]) {
            assert(!pred_matches(r@, preds.deep_view()[i as int]));
            return false;
        }
        i = i + 1;
    }
    true
}

/// The path of the last `similar:` term of the query, if any: later
/// `similar:` terms override earlier ones.
pub open spec fn similar_request_spec(preds: Seq<PredV>) -> Option<Seq<char>>
    decreases preds.len(),
{
    if preds.len() == 0 {
        Option::None
    } else {
        match preds.last() {
            PredV::Similar(p) => Option::Some(p),
            _ => similar_request_spec(preds.drop_last()),
        }
    }
}

/// Extracts the path of the last `similar:` term, if the query has one.
pub fn similar_request(preds: &Vec<Predicate>) -> (r: Option<String>)
    ensures
        match r {
            Option::Some(s) => similar_request_spec(preds.deep_view()) == Option::Some(s@),
            Option::None => similar_request_spec(preds.deep_view()) is None,
        },
{
    let n = preds.len();
    let mut cur: Option<String> = None;
    let mut i: usize = 0;
    proof {
        assert(preds.deep_view().subrange(0, 0) =~= Seq::<PredV>::empty());
    }
    while i < n
        invariant
            n == preds@.len(),
            0 <= i <= n,
            match cur {
                Option::Some(s) => similar_request_spec(preds.deep_view().subrange(0, i as int))
                    == Option::Some(s@),
                Option::None => similar_request_spec(preds.deep_view().subrange(0, i as int)) is None,
            },
        decreases n - i,
    {
        proof {
            let dv = preds.deep_view();
            assert(dv.subrange(0, i + 1).drop_last() =~= dv.subrange(0, i as int));
            assert(dv.subrange(0, i + 1).last() == dv[i as int]);
        }
        match &preds[i] {
            Predicate::Similar(s) => {
                cur = Some(s.clone());
            },
            _ => {},
        }
        i = i + 1;
    }
    proof {
        assert(preds.deep_view().subrange(0, n as int) =~= preds.deep_view());
    }
    cur
}

} // verus!
