//! Character-level text helpers: conversion between strings and character
//! vectors, equality, search, trimming, and the `owner/repo` key builders.

use vstd::prelude::*;
use vstd::string::StrSliceExecFns;
use vstd::string::StringExecFns;
use crate::models::names_view;

verus! {

/// The whitespace characters that field trimming removes.
pub open spec fn is_space(c: char) -> bool {
    c == ' ' || c == '\t' || c == '\r' || c == '\n'
}

/// Executable test for [`is_space`].
pub fn char_is_space(c: char) -> (r: bool)
    ensures
        r == is_space(c),
{
    c == ' ' || c == '\t' || c == '\r' || c == '\n'
}

/// The characters of a string slice, in order.
pub fn chars_of(s: &str) -> (r: Vec<char>)
    ensures
        r@ == s@,
{
    let n: usize = s.unicode_len();
    let mut v: Vec<char> = Vec::new();
    let mut i: usize = 0;
    while i < n
        invariant
            i <= n,
            n == s@.len(),
            v@ == s@.take(i as int),
        decreases n - i,
    {
        let c = s.get_char(i);
        v.push(c);
        proof {
            assert(s@.take(i + 1 as int) =~= s@.take(i as int).push(s@[i as int]));
        }
        i = i + 1;
    }
    proof {
        assert(v@ =~= s@);
    }
    v
}

/// Relies on `String: FromIterator<char>` (`collect`): the collected string
/// holds exactly the given characters, in order.
#[verifier::external_body]
pub fn string_from_chars(v: &Vec<char>) -> (r: String)
    ensures
        r@ == v@,
{
    v.iter().collect()
}

/// Character-for-character string slice equality.
pub fn str_eq(a: &str, b: &str) -> (r: bool)
    ensures
        r == (a@ == b@),
{
    let na: usize = a.unicode_len();
    let nb: usize = b.unicode_len();
    if na != nb {
        return false;
    }
    let mut i: usize = 0;
    while i < na
        invariant
            i <= na,
            na == a@.len(),
            na == b@.len(),
            forall|j: int| 0 <= j < i ==> a@[j] == b@[j],
        decreases na - i,
    {
        if a.get_char(i) != b.get_char(i) {
            return false;
        }
        i = i + 1;
    }
    proof {
        assert(a@ =~= b@);
    }
    true
}

/// Whether `x` occurs in a list of names.
pub fn contains_name(names: &Vec<String>, x: &String) -> (r: bool)
    ensures
        r == names_view(names@).contains(x@),
{
    let mut i: usize = 0;
    while i < names.len()
        invariant
            i <= names@.len(),
            forall|j: int| 0 <= j < i ==> names@[j]@ != x@,
        decreases names@.len() - i,
    {
        if names[i].eq(x) {
            proof {
                assert(names_view(names@)[i as int] == x@);
            }
            return true;
        }
        i = i + 1;
    }
    proof {
        assert forall|k: int| 0 <= k < names_view(names@).len() implies names_view(
            names@,
        )[k] != x@ by {
            assert(names_view(names@)[k] == names@[k]@);
        }
    }
    false
}

/// `a`, then `sep`, then `b`, as one string.
pub fn join2(a: &str, sep: &str, b: &str) -> (r: String)
    ensures
        r@ == a@ + sep@ + b@,
{
    let mut r = String::from_str(a);
    r.append(sep);
    r.append(b);
    r
}

/// The `owner/repo` key of a repository source.
pub fn repo_key_of(owner: &str, repo: &str) -> (r: String)
    ensures
        r@ == owner@ + "/"@ + repo@,
{
    join2(owner, "/", repo)
}

/// The `owner/repo/folder` id of a skill.
pub fn skill_id_of(owner: &str, repo: &str, folder: &str) -> (r: String)
    ensures
        r@ == owner@ + "/"@ + repo@ + "/"@ + folder@,
{
    let mut r = join2(owner, "/", repo);
    r.append("/");
    r.append(folder);
    r
}

/// Splits a catalog `owner/repo` url at its first slash; `None` where no
/// slash occurs.
pub fn split_repo_url(url: &str) -> (r: Option<(String, String)>)
    ensures
        match r {
            Some(pair) => url@.index_of_first('/') matches Some(i) && pair.0@ == url@.take(i)
                && pair.1@ == url@.skip(i + 1),
            None => url@.index_of_first('/') is None,
        },
{
    proof {
        url@.index_of_first_ensures('/');
    }
    let n: usize = url.unicode_len();
    let mut i: usize = 0;
    while i < n
        invariant
            i <= n,
            n == url@.len(),
            forall|j: int| 0 <= j < i ==> url@[j] != '/',
        decreases n - i,
    {
        if url.get_char(i) == '/' {
            let owner = String::from_str(url.substring_char(0, i));
            let rest = String::from_str(url.substring_char(i + 1, n));
            proof {
                url@.index_of_first_ensures('/');
                assert(url@[i as int] == '/');
                assert(url@.contains('/'));
                match url@.index_of_first('/') {
                    Some(k) => {
                        if k < i {
                            assert(url@[k] != '/');
                        }
                        if k > i {
                            assert(url@[i as int] != '/');
                        }
                        assert(k == i);
                    },
                    None => {
                        assert(false);
                    },
                }
            }
            return Some((owner, rest));
        }
        i = i + 1;
    }
    proof {
        url@.index_of_first_ensures('/');
        if url@.contains('/') {
            let k = choose|k: int| 0 <= k < url@.len() && url@[k] == '/';
            assert(url@[k] != '/');
        }
    }
    None
}

/// Whether the fixed-position piece `s[i..i+pat.len()]` equals `pat`.
pub open spec fn match_at(s: Seq<char>, pat: Seq<char>, i: int) -> bool {
    &&& 0 <= i
    &&& i + pat.len() <= s.len()
    &&& s.subrange(i, i + pat.len()) == pat
}

/// The first position at or after `from` where `pat` occurs in `s`.
pub open spec fn find_from(s: Seq<char>, pat: Seq<char>, from: int) -> Option<int>
    decreases s.len() - from,
{
    if from < 0 || from + pat.len() > s.len() {
        None
    } else if pat.len() == 0 {
        Some(from)
    } else if match_at(s, pat, from) {
        Some(from)
    } else {
        find_from(s, pat, from + 1)
    }
}

/// [`find_from`] returns exactly the first match position, and `None` exactly
/// when no position at or after `from` matches.
pub proof fn lemma_find_from(s: Seq<char>, pat: Seq<char>, from: int)
    requires
        from >= 0,
    ensures
        match find_from(s, pat, from) {
            Some(i) => from <= i && match_at(s, pat, i) && forall|j: int|
                from <= j < i ==> !match_at(s, pat, j),
            None => forall|j: int| j >= from ==> !match_at(s, pat, j),
        },
    decreases s.len() - from,
{
    if from + pat.len() > s.len() {
        assert forall|j: int| j >= from implies !match_at(s, pat, j) by {}
    } else if pat.len() == 0 {
        assert(s.subrange(from, from + pat.len()) =~= pat);
    } else if match_at(s, pat, from) {
    } else {
        lemma_find_from(s, pat, from + 1);
    }
}

/// Whether `pat` occurs at position `i` of `v`, by direct comparison.
pub fn match_here(v: &Vec<char>, pat: &Vec<char>, i: usize) -> (r: bool)
    requires
        i <= v@.len(),
    ensures
        r == match_at(v@, pat@, i as int),
{
    if pat.len() > v.len() - i {
        return false;
    }
    let mut k: usize = 0;
    while k < pat.len()
        invariant
            k <= pat@.len(),
            i + pat@.len() <= v@.len(),
            v@.len() <= usize::MAX,
            forall|j: int| 0 <= j < k ==> v@[i + j] == pat@[j],
        decreases pat@.len() - k,
    {
        if v[i + k] != pat[k] {
            proof {
                assert(v@.subrange(i as int, i + pat@.len())[k as int] == v@[i + k]);
            }
            return false;
        }
        k = k + 1;
    }
    proof {
        assert(v@.subrange(i as int, i + pat@.len()) =~= pat@);
    }
    true
}

/// Finds the first occurrence of `pat` in `v` at or after `from`.
pub fn find_pattern(v: &Vec<char>, pat: &Vec<char>, from: usize) -> (r: Option<usize>)
    ensures
        match r {
            Some(i) => find_from(v@, pat@, from as int) == Some(i as int),
            None => find_from(v@, pat@, from as int) is None,
        },
{
    proof {
        lemma_find_from(v@, pat@, from as int);
    }
    let n: usize = v.len();
    let m: usize = pat.len();
    if m == 0 {
        if from <= n {
            proof {
                assert(v@.subrange(from as int, from + pat@.len()) =~= pat@);
                match find_from(v@, pat@, from as int) {
                    Some(w) => {
                        if w > from {
                            assert(!match_at(v@, pat@, from as int));
                        }
                    },
                    None => {
                        assert(!match_at(v@, pat@, from as int));
                    },
                }
            }
            return Some(from);
        } else {
            proof {
                match find_from(v@, pat@, from as int) {
                    Some(w) => {
                        assert(match_at(v@, pat@, w));
                    },
                    None => {},
                }
            }
            return None;
        }
    }
    if m > n || from > n - m {
        proof {
            match find_from(v@, pat@, from as int) {
                Some(w) => {
                    assert(match_at(v@, pat@, w));
                },
                None => {},
            }
        }
        return None;
    }
    let mut i: usize = from;
    while i <= n - m
        invariant
            from <= i,
            i <= n - m + 1,
            1 <= m <= n,
            n == v@.len(),
            m == pat@.len(),
            forall|j: int| from <= j < i ==> !match_at(v@, pat@, j),
        decreases n - i,
    {
        if match_here(v, pat, i) {
            proof {
                lemma_find_from(v@, pat@, from as int);
                match find_from(v@, pat@, from as int) {
                    Some(w) => {
                        if w < i {
                            assert(!match_at(v@, pat@, w));
                        }
                        if w > i {
                            assert(!match_at(v@, pat@, i as int));
                        }
                        assert(w == i);
                    },
                    None => {
                        assert(!match_at(v@, pat@, i as int));
                    },
                }
            }
            return Some(i);
        }
        i = i + 1;
    }
    proof {
        lemma_find_from(v@, pat@, from as int);
        assert forall|j: int| j >= from implies !match_at(v@, pat@, j) by {}
        match find_from(v@, pat@, from as int) {
            Some(w) => {
                assert(match_at(v@, pat@, w));
            },
            None => {},
        }
    }
    None
}

/// Leading whitespace removed.
pub open spec fn trim_front_spec(s: Seq<char>) -> Seq<char>
    decreases s.len(),
{
    if s.len() > 0 && is_space(s[0]) {
        trim_front_spec(s.drop_first())
    } else {
        s
    }
}

/// Trailing whitespace removed.
pub open spec fn trim_back_spec(s: Seq<char>) -> Seq<char>
    decreases s.len(),
{
    if s.len() > 0 && is_space(s.last()) {
        trim_back_spec(s.drop_last())
    } else {
        s
    }
}

/// Surrounding whitespace removed.
pub open spec fn trim_spec(s: Seq<char>) -> Seq<char> {
    trim_back_spec(trim_front_spec(s))
}

/// Narrows `[lo, hi)` to the bounds of `v`'s content with surrounding
/// whitespace removed.
pub fn trim_range(v: &Vec<char>, lo: usize, hi: usize) -> (r: (usize, usize))
    requires
        lo <= hi,
        hi <= v@.len(),
    ensures
        lo <= r.0 <= r.1 <= hi,
        v@.subrange(r.0 as int, r.1 as int) == trim_spec(v@.subrange(lo as int, hi as int)),
{
    let mut a: usize = lo;
    while a < hi && char_is_space(v[a])
        invariant
            lo <= a <= hi,
            hi <= v@.len(),
            trim_front_spec(v@.subrange(lo as int, hi as int)) == trim_front_spec(
                v@.subrange(a as int, hi as int),
            ),
        decreases hi - a,
    {
        proof {
            assert(v@.subrange(a as int, hi as int).drop_first() =~= v@.subrange(
                a + 1 as int,
                hi as int,
            ));
        }
        a = a + 1;
    }
    proof {
        assert(trim_front_spec(v@.subrange(a as int, hi as int)) == v@.subrange(
            a as int,
            hi as int,
        ));
    }
    let mut b: usize = hi;
    while b > a && char_is_space(v[b - 1])
        invariant
            a <= b <= hi,
            hi <= v@.len(),
            trim_back_spec(v@.subrange(a as int, hi as int)) == trim_back_spec(
                v@.subrange(a as int, b as int),
            ),
        decreases b,
    {
        proof {
            assert(v@.subrange(a as int, b as int).drop_last() =~= v@.subrange(
                a as int,
                b - 1 as int,
            ));
        }
        b = b - 1;
    }
    proof {
        assert(trim_back_spec(v@.subrange(a as int, b as int)) == v@.subrange(a as int, b as int));
    }
    (a, b)
}

/// The characters of `v` between `lo` and `hi`.
pub fn copy_range(v: &Vec<char>, lo: usize, hi: usize) -> (r: Vec<char>)
    requires
        lo <= hi,
        hi <= v@.len(),
    ensures
        r@ == v@.subrange(lo as int, hi as int),
{
    let mut r: Vec<char> = Vec::new();
    let mut i: usize = lo;
    while i < hi
        invariant
            lo <= i <= hi,
            hi <= v@.len(),
            r@ == v@.subrange(lo as int, i as int),
        decreases hi - i,
    {
        r.push(v[i]);
        proof {
            assert(v@.subrange(lo as int, i + 1 as int) =~= v@.subrange(lo as int, i as int).push(
                v@[i as int],
            ));
        }
        i = i + 1;
    }
    r
}

} // verus!
