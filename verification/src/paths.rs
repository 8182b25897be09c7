//! Path handling: the canonical string form of a path, and extension
//! extraction.
//!
//! `stringify_filepath` is the one place a path becomes the string the
//! store keys on.  It normalizes lexically over `/`-separated
//! components — empty and `.` components vanish, `..` pops — and
//! always yields an absolute form; resolving symlinks is the caller's
//! filesystem step, taken before this one.

use vstd::prelude::*;

verus! {

/// The path split at every separator; separators at the ends or
/// doubled yield empty components.
pub open spec fn split_components_from(
    s: Seq<char>,
    i: int,
    cur: Seq<char>,
    acc: Seq<Seq<char>>,
) -> Seq<Seq<char>>
    decreases s.len() - i,
{
    if i < 0 || i >= s.len() {
        acc.push(cur)
    } else if s[i] == '/' {
        split_components_from(s, i + 1, Seq::empty(), acc.push(cur))
    } else {
        split_components_from(s, i + 1, cur.push(s[i]), acc)
    }
}

/// The components of a path string.
pub open spec fn split_components_spec(s: Seq<char>) -> Seq<Seq<char>> {
    split_components_from(s, 0, Seq::empty(), Seq::empty())
}

/// Component resolution: empty and `.` components vanish, `..` pops
/// the last kept component (or nothing at the root), anything else is
/// kept.
pub open spec fn resolve_components(comps: Seq<Seq<char>>) -> Seq<Seq<char>>
    decreases comps.len(),
{
    if comps.len() == 0 {
        Seq::empty()
    } else {
        let prev = resolve_components(comps.drop_last());
        let c = comps.last();
        if c.len() == 0 || c == "."@ {
            prev
        } else if c == ".."@ {
            if prev.len() == 0 {
                prev
            } else {
                prev.drop_last()
            }
        } else {
            prev.push(c)
        }
    }
}

/// The absolute string form of resolved components: `/` alone for
/// none, else each component preceded by `/`.
pub open spec fn render_components(comps: Seq<Seq<char>>) -> Seq<char>
    decreases comps.len(),
{
    if comps.len() == 0 {
        seq!['/']
    } else if comps.len() == 1 {
        seq!['/'] + comps.last()
    } else {
        render_components(comps.drop_last()) + seq!['/'] + comps.last()
    }
}

/// The canonical string form of a path: split, resolved, rendered.
pub open spec fn canonical_path_spec(s: Seq<char>) -> Seq<char> {
    render_components(resolve_components(split_components_spec(s)))
}

fn split_components(s: &str) -> (r: Vec<String>)
    ensures
        r.deep_view() == split_components_spec(s@),
{
    let n = s.unicode_len();
    let mut cur = String::new();
    let mut acc: Vec<String> = Vec::new();
    let mut i: usize = 0;
    proof {
        assert(cur@ =~= Seq::<char>::empty());
        assert(acc.deep_view() =~= Seq::<Seq<char>>::empty());
    }
    while i < n
        invariant
            n == s@.len(),
            0 <= i <= n,
            split_components_from(s@, i as int, cur@, acc.deep_view()) == split_components_spec(
                s@,
            ),
        decreases n - i,
    {
        let c = s.get_char(i);
        let ghost pre_cur = cur@;
        let ghost pre_acc = acc.deep_view();
        if c == '/' {
            acc.push(cur);
            cur = String::new();
            proof {
                assert(acc.deep_view() =~= pre_acc.push(pre_cur));
                assert(cur@ =~= Seq::<char>::empty());
            }
        } else {
            cur.push(c);
        }
        i = i + 1;
    }
    let ghost pre_acc = acc.deep_view();
    let ghost pre_cur = cur@;
    acc.push(cur);
    proof {
        assert(acc.deep_view() =~= pre_acc.push(pre_cur));
    }
    acc
}

fn resolve(comps: Vec<String>) -> (r: Vec<String>)
    ensures
        r.deep_view() == resolve_components(comps.deep_view()),
{
    let n = comps.len();
    let mut out: Vec<String> = Vec::new();
    let mut i: usize = 0;
    proof {
        assert(comps.deep_view().subrange(0, 0) =~= Seq::<Seq<char>>::empty());
        assert(out.deep_view() =~= Seq::<Seq<char>>::empty());
    }
    while i < n
        invariant
            n == comps@.len(),
            0 <= i <= n,
            out.deep_view() == resolve_components(comps.deep_view().subrange(0, i as int)),
        decreases n - i,
    {
        let c = &comps[i];
        proof {
            let dv = comps.deep_view();
            assert(dv.subrange(0, i + 1).drop_last() =~= dv.subrange(0, i as int));
            assert(dv.subrange(0, i + 1).last() == dv[i as int]);
            assert(dv[i as int] == comps@[i as int]@);
        }
        let ghost pre = out.deep_view();
        if c.unicode_len() == 0 || str_is(c.as_str(), ".") {
        } else if str_is(c.as_str(), "..") {
            if out.len() > 0 {
                let _ = out.pop();
                proof {
                    assert(out.deep_view() =~= pre.drop_last());
                }
            }
        } else {
            out.push(c.clone());
            proof {
                assert(out.deep_view() =~= pre.push(comps@[i as int]@));
            }
        }
        i = i + 1;
    }
    proof {
        assert(comps.deep_view().subrange(0, n as int) =~= comps.deep_view());
    }
    out
}

fn str_is(s: &str, t: &str) -> (r: bool)
    ensures
        r == (s@ == t@),
{
    let n = s.unicode_len();
    let m = t.unicode_len();
    if n != m {
        proof {
            assert(s@ != t@);
        }
        return false;
    }
    let mut i: usize = 0;
    while i < n
        invariant
            n == s@.len() == t@.len(),
            0 <= i <= n,
            forall|j: int| 0 <= j < i ==> s@[j] == t@[j],
        decreases n - i,
    {
        if s.get_char(i) != t.get_char(i) {
            return false;
        }
        i = i + 1;
    }
    proof {
        assert(s@ =~= t@);
    }
    true
}

fn render(comps: &Vec<String>) -> (r: String)
    ensures
        r@ == render_components(comps.deep_view()),
{
    let n = comps.len();
    if n == 0 {
        let mut out = String::new();
        out.push('/');
        proof {
            assert(out@ =~= seq!['/']);
        }
        return out;
    }
    let mut out = String::new();
    let mut i: usize = 0;
    while i < n
        invariant
            n == comps@.len(),
            n >= 1,
            0 <= i <= n,
            i > 0 ==> out@ == render_components(comps.deep_view().subrange(0, i as int)),
            i == 0 ==> out@ =~= Seq::<char>::empty(),
        decreases n - i,
    {
        proof {
            let dv = comps.deep_view();
            assert(dv.subrange(0, i + 1).drop_last() =~= dv.subrange(0, i as int));
            assert(dv.subrange(0, i + 1).last() == dv[i as int]);
            assert(dv[i as int] == comps@[i as int]@);
        }
        let ghost pre = out@;
        out.push('/');
        out.append(comps[i].as_str());
        proof {
            let dv = comps.deep_view();
            if i == 0 {
                assert(out@ =~= seq!['/'] + dv.subrange(0, 1).last());
                assert(dv.subrange(0, 1).len() == 1);
            } else {
                assert(out@ =~= render_components(dv.subrange(0, i as int)) + seq!['/']
                    + dv.subrange(0, i + 1).last());
            }
        }
        i = i + 1;
    }
    proof {
        assert(comps.deep_view().subrange(0, n as int) =~= comps.deep_view());
    }
    out
}

/// Converts a path into its canonical string: `/`-separated, absolute,
/// with empty and `.` components dropped and `..` resolved away.  Every
/// place a path is used as a store key goes through here, so all of
/// them agree on one form.
pub fn stringify_filepath(path: &str) -> (r: String)
    ensures
        r@ == canonical_path_spec(path@),
{
    let comps = split_components(path);
    let resolved = resolve(comps);
    render(&resolved)
}

/// The index of the last occurrence of `c`, or -1 if there is none.
pub open spec fn last_index_of(s: Seq<char>, c: char) -> int
    decreases s.len(),
{
    if s.len() == 0 {
        -1
    } else if s.last() == c {
        s.len() - 1
    } else {
        last_index_of(s.drop_last(), c)
    }
}

/// The extension of a path's final component: what follows the last
/// dot, provided that dot is not the component's first character.
pub open spec fn path_extension_spec(name: Seq<char>) -> Option<Seq<char>> {
    let base = name.subrange(last_index_of(name, '/') + 1, name.len() as int);
    let dot = last_index_of(base, '.');
    if dot <= 0 {
        Option::None
    } else {
        Option::Some(base.subrange(dot + 1, base.len() as int))
    }
}

proof fn lemma_last_index_of(s: Seq<char>, c: char)
    ensures
        -1 <= last_index_of(s, c) < s.len(),
        last_index_of(s, c) >= 0 ==> s[last_index_of(s, c)] == c,
        forall|j: int| last_index_of(s, c) < j < s.len() ==> s[j] != c,
    decreases s.len(),
{
    if s.len() > 0 && s.last() != c {
        lemma_last_index_of(s.drop_last(), c);
        assert forall|j: int| last_index_of(s, c) < j < s.len() implies s[j] != c by {
            if j < s.len() - 1 {
                assert(s.drop_last()[j] == s[j]);
            }
        }
    }
}

fn find_last(s: &str, c: char) -> (r: Option<usize>)
    ensures
        match r {
            Option::Some(i) => i == last_index_of(s@, c),
            Option::None => last_index_of(s@, c) == -1,
        },
{
    let n = s.unicode_len();
    let mut found: Option<usize> = None;
    let mut i: usize = 0;
    proof {
        assert(s@.subrange(0, 0) =~= Seq::<char>::empty());
    }
    while i < n
        invariant
            n == s@.len(),
            0 <= i <= n,
            match found {
                Option::Some(k) => k == last_index_of(s@.subrange(0, i as int), c),
                Option::None => last_index_of(s@.subrange(0, i as int), c) == -1,
            },
        decreases n - i,
    {
        proof {
            let p = s@.subrange(0, i + 1);
            assert(p.drop_last() =~= s@.subrange(0, i as int));
            assert(p.last() == s@[i as int]);
        }
        if s.get_char(i) == c {
            found = Some(i);
        }
        i = i + 1;
    }
    proof {
        assert(s@.subrange(0, n as int) =~= s@);
    }
    found
}

/// Extracts the extension of a path's final component: what follows
/// its last dot, unless that dot begins the component.
pub fn path_extension(name: &str) -> (r: Option<String>)
    ensures
        match r {
            Option::Some(e) => path_extension_spec(name@) == Option::Some(e@),
            Option::None => path_extension_spec(name@) is None,
        },
{
    let n = name.unicode_len();
    proof {
        lemma_last_index_of(name@, '/');
    }
    let base_start: usize = match find_last(name, '/') {
        Option::Some(i) => i + 1,
        Option::None => 0,
    };
    let base = name.substring_char(base_start, n);
    proof {
        lemma_last_index_of(name@, '/');
        assert(base@ =~= name@.subrange(last_index_of(name@, '/') + 1, name@.len() as int));
    }
    let m = base.unicode_len();
    proof {
        lemma_last_index_of(base@, '.');
    }
    match find_last(base, '.') {
        Option::None => None,
        Option::Some(dot) => {
            if dot == 0 {
                None
            } else {
                let ext = base.substring_char(dot + 1, m).to_owned();
                proof {
                    assert(ext@ =~= base@.subrange(last_index_of(base@, '.') + 1,
                        base@.len() as int));
                }
                Some(ext)
            }
        },
    }
}

} // verus!
