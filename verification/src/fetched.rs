//! The fetched-repos record: a mapping from `owner/repo` keys to
//! last-fetched timestamps. A key is present exactly while the repository
//! has a local working copy; entries are only ever added or overwritten.

use vstd::prelude::*;
use crate::models::{FetchedEntry, FetchedRepos};

verus! {

/// Whether some entry of the list carries key `k`.
pub open spec fn has_key(s: Seq<FetchedEntry>, k: Seq<char>) -> bool {
    exists|i: int| 0 <= i < s.len() && s[i].key@ == k
}

/// The timestamp of the entry carrying key `k` (under unique keys).
pub open spec fn stamp_of(s: Seq<FetchedEntry>, k: Seq<char>) -> Seq<char> {
    let i = choose|i: int| 0 <= i < s.len() && s[i].key@ == k;
    s[i].last_fetched@
}

/// The index of the entry carrying `key`, if any.
fn find_key(v: &Vec<FetchedEntry>, key: &String) -> (r: Option<usize>)
    ensures
        match r {
            Some(i) => i < v@.len() && v@[i as int].key@ == key@,
            None => forall|j: int| 0 <= j < v@.len() ==> v@[j].key@ != key@,
        },
{
    let mut i: usize = 0;
    while i < v.len()
        invariant
            i <= v@.len(),
            forall|j: int| 0 <= j < i ==> v@[j].key@ != key@,
        decreases v@.len() - i,
    {
        if v[i].key.eq(key) {
            return Some(i);
        }
        i = i + 1;
    }
    None
}

impl FetchedRepos {
    /// Well-formed: no two entries share a key.
    pub open spec fn wf(self) -> bool {
        forall|i: int, j: int|
            0 <= i < j < self.repos@.len() ==> self.repos@[i].key@ != self.repos@[j].key@
    }

    /// Whether a repository key is recorded as fetched.
    pub open spec fn spec_has(self, k: Seq<char>) -> bool {
        has_key(self.repos@, k)
    }

    /// The recorded last-fetched timestamp of a key.
    pub open spec fn spec_stamp(self, k: Seq<char>) -> Seq<char> {
        stamp_of(self.repos@, k)
    }

    /// An empty record: nothing fetched yet.
    pub fn new() -> (r: FetchedRepos)
        ensures
            r.wf(),
            r.repos@.len() == 0,
            forall|k: Seq<char>| !r.spec_has(k),
    {
        FetchedRepos { repos: Vec::new() }
    }

    /// Whether `k` has an entry.
    pub fn contains_key(&self, k: &String) -> (r: bool)
        ensures
            r == self.spec_has(k@),
    {
        let mut i: usize = 0;
        while i < self.repos.len()
            invariant
                i <= self.repos@.len(),
                forall|j: int| 0 <= j < i ==> self.repos@[j].key@ != k@,
            decreases self.repos@.len() - i,
        {
            if self.repos[i].key.eq(k) {
                return true;
            }
            i = i + 1;
        }
        false
    }

    /// Adds or overwrites the entry for `key`, as a completed fetch records
    /// its timestamp. Every other key's presence and timestamp is untouched.
    pub fn insert(&mut self, key: String, stamp: String)
        requires
            old(self).wf(),
        ensures
            final(self).wf(),
            final(self).spec_has(key@),
            final(self).spec_stamp(key@) == stamp@,
            forall|k: Seq<char>| k != key@ ==> final(self).spec_has(k) == old(self).spec_has(k),
            forall|k: Seq<char>|
                k != key@ && old(self).spec_has(k) ==> final(self).spec_stamp(k) == old(
                    self,
                ).spec_stamp(k),
    {
        let ghost s0 = self.repos@;
        let found = find_key(&self.repos, &key);
        match found {
            Some(at) => {
                proof {
                    assert(s0[at as int].key@ == key@);
                }
                self.repos.remove(at);
                let ghost s1 = self.repos@;
                self.repos.push(FetchedEntry { key, last_fetched: stamp });
                let ghost s2 = self.repos@;
                proof {
                    s0.remove_ensures(at as int);
                    let n2 = s2.len() as int;
                    // every entry except the last comes from s0, skipping `at`
                    assert forall|a: int| 0 <= a < n2 - 1 implies s2[a] == s0[
                        if a < at { a } else { a + 1 }
                    ] && s2[a].key@ != key@ by {
                        assert(s2[a] == s1[a]);
                        let src: int = if a < at { a } else { a + 1 };
                        assert(s1[a] == s0[src]);
                        if src != at {
                            if src < at {
                                assert(s0[src].key@ != s0[at as int].key@);
                            } else {
                                assert(s0[at as int].key@ != s0[src].key@);
                            }
                        }
                    }
                    assert(s2[n2 - 1].key@ == key@);
                    assert(final(self).wf()) by {
                        assert forall|a: int, b: int|
                            0 <= a < b < n2 implies s2[a].key@ != s2[b].key@ by {
                            if b < n2 - 1 {
                                let sa: int = if a < at { a } else { a + 1 };
                                let sb: int = if b < at { b } else { b + 1 };
                                assert(s0[sa].key@ != s0[sb].key@);
                            }
                        }
                    }
                    assert(final(self).spec_has(key@));
                    assert(final(self).spec_stamp(key@) == stamp@) by {
                        let c = choose|c: int| 0 <= c < s2.len() && s2[c].key@ == key@;
                        assert(!(c < n2 - 1));
                    }
                    assert forall|k: Seq<char>| k != key@ implies final(self).spec_has(k) == old(
                        self,
                    ).spec_has(k) by {
                        if has_key(s0, k) {
                            let w = choose|w: int| 0 <= w < s0.len() && s0[w].key@ == k;
                            assert(w != at);
                            let d: int = if w < at { w } else { w - 1 };
                            assert(s2[d] == s0[w]);
                            assert(has_key(s2, k));
                        }
                        if has_key(s2, k) {
                            let w = choose|w: int| 0 <= w < s2.len() && s2[w].key@ == k;
                            assert(w < n2 - 1);
                            assert(has_key(s0, k));
                        }
                    }
                    assert forall|k: Seq<char>|
                        k != key@ && old(self).spec_has(k) implies final(self).spec_stamp(k)
                        == old(self).spec_stamp(k) by {
                        let w = choose|w: int| 0 <= w < s0.len() && s0[w].key@ == k;
                        let c = choose|c: int| 0 <= c < s2.len() && s2[c].key@ == k;
                        assert(w != at);
                        let d: int = if w < at { w } else { w - 1 };
                        assert(s2[d] == s0[w]);
                        assert(c < n2 - 1);
                        let src: int = if c < at { c } else { c + 1 };
                        assert(s2[c] == s0[src]);
                        // unique keys force both choices onto the same entry
                        if src < w {
                            assert(s0[src].key@ != s0[w].key@);
                        }
                        if w < src {
                            assert(s0[w].key@ != s0[src].key@);
                        }
                        assert(src == w);
                    }
                }
            },
            None => {
                self.repos.push(FetchedEntry { key, last_fetched: stamp });
                let ghost s2 = self.repos@;
                proof {
                    let n2 = s2.len() as int;
                    assert(forall|j: int| 0 <= j < n2 - 1 ==> s2[j] == s0[j]);
                    assert(forall|j: int| 0 <= j < n2 - 1 ==> s2[j].key@ != key@);
                    assert(s2[n2 - 1].key@ == key@);
                    assert(final(self).spec_stamp(key@) == stamp@) by {
                        let c = choose|c: int| 0 <= c < s2.len() && s2[c].key@ == key@;
                        assert(!(c < n2 - 1));
                    }
                    assert forall|k: Seq<char>| k != key@ implies final(self).spec_has(k) == old(
                        self,
                    ).spec_has(k) by {
                        if has_key(s0, k) {
                            let w = choose|w: int| 0 <= w < s0.len() && s0[w].key@ == k;
                            assert(s2[w] == s0[w]);
                        }
                        if has_key(s2, k) {
                            let w = choose|w: int| 0 <= w < s2.len() && s2[w].key@ == k;
                            assert(w < n2 - 1);
                        }
                    }
                    assert forall|k: Seq<char>|
                        k != key@ && old(self).spec_has(k) implies final(self).spec_stamp(k)
                        == old(self).spec_stamp(k) by {
                        let w = choose|w: int| 0 <= w < s0.len() && s0[w].key@ == k;
                        let c = choose|c: int| 0 <= c < s2.len() && s2[c].key@ == k;
                        assert(c < n2 - 1);
                        assert(s2[c] == s0[c]);
                        if c < w {
                            assert(s0[c].key@ != s0[w].key@);
                        }
                        if w < c {
                            assert(s0[w].key@ != s0[c].key@);
                        }
                        assert(c == w);
                    }
                }
            },
        }
    }
}

/// Overwriting a key on re-fetch replaces its timestamp: after recording a
/// fetch, the key is present with exactly the new stamp, and no other
/// repository's record moves. Together with the scanner's determinism this
/// makes re-fetching idempotent up to the timestamp.
pub proof fn lemma_refetch_overwrites(before: FetchedRepos, after: FetchedRepos, key: Seq<char>,
    t1: Seq<char>, t2: Seq<char>)
    requires
        before.wf(),
        before.spec_has(key),
        before.spec_stamp(key) == t1,
        after.wf(),
        after.spec_has(key),
        after.spec_stamp(key) == t2,
        forall|k: Seq<char>| k != key ==> after.spec_has(k) == before.spec_has(k),
    ensures
        t1 != t2 ==> after.spec_stamp(key) != before.spec_stamp(key),
        forall|k: Seq<char>| after.spec_has(k) <==> (k == key || before.spec_has(k)),
{
}

} // verus!
