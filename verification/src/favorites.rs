//! Favorites: two independent sets — favorited skill ids and favorited
//! repository keys — kept in insertion order. Membership toggles.

use vstd::prelude::*;
use crate::models::{names_view, Favorites};
use crate::strutil::contains_name;

verus! {

/// `s` with every occurrence of `id` removed, order kept.
pub open spec fn without(s: Seq<Seq<char>>, id: Seq<char>) -> Seq<Seq<char>>
    decreases s.len(),
{
    if s.len() == 0 {
        Seq::empty()
    } else {
        let prefix = without(s.drop_last(), id);
        if s.last() == id {
            prefix
        } else {
            prefix.push(s.last())
        }
    }
}

/// One membership toggle: a present id is removed, an absent one appended.
pub open spec fn toggle_spec(s: Seq<Seq<char>>, id: Seq<char>) -> Seq<Seq<char>> {
    if s.contains(id) {
        without(s, id)
    } else {
        s.push(id)
    }
}

/// Removing an id that does not occur changes nothing.
pub proof fn lemma_without_absent(s: Seq<Seq<char>>, id: Seq<char>)
    requires
        !s.contains(id),
    ensures
        without(s, id) == s,
    decreases s.len(),
{
    if s.len() > 0 {
        assert(s.last() != id);
        assert(!s.drop_last().contains(id)) by {
            if s.drop_last().contains(id) {
                let w = choose|w: int| 0 <= w < s.drop_last().len() && s.drop_last()[w] == id;
                assert(s[w] == id);
            }
        }
        lemma_without_absent(s.drop_last(), id);
        assert(without(s, id) =~= s);
    } else {
        assert(without(s, id) =~= s);
    }
}

/// Toggling an id that is not a favorite, twice, restores the original set.
pub proof fn lemma_toggle_twice(s: Seq<Seq<char>>, id: Seq<char>)
    requires
        !s.contains(id),
    ensures
        toggle_spec(toggle_spec(s, id), id) == s,
{
    let s1 = s.push(id);
    assert(s1[s.len() as int] == id);
    assert(s1.contains(id));
    assert(s1.drop_last() =~= s);
    assert(s1.last() == id);
    lemma_without_absent(s, id);
}

/// A fresh list with every occurrence of `id` removed.
fn remove_all(v: &Vec<String>, id: &String) -> (r: Vec<String>)
    ensures
        names_view(r@) == without(names_view(v@), id@),
{
    let mut r: Vec<String> = Vec::new();
    let mut i: usize = 0;
    while i < v.len()
        invariant
            i <= v@.len(),
            names_view(r@) == without(names_view(v@.take(i as int)), id@),
        decreases v@.len() - i,
    {
        proof {
            assert(names_view(v@.take(i + 1 as int)).drop_last() =~= names_view(
                v@.take(i as int),
            ));
            assert(names_view(v@.take(i + 1 as int)).last() == v@[i as int]@);
        }
        if !v[i].eq(id) {
            let ghost r0 = r@;
            r.push(v[i].clone());
            proof {
                assert(names_view(r@) =~= names_view(r0).push(v@[i as int]@));
            }
        }
        i = i + 1;
    }
    proof {
        assert(v@.take(v@.len() as int) =~= v@);
    }
    r
}

impl Favorites {
    /// Empty favorites: nothing starred yet.
    pub fn new() -> (r: Favorites)
        ensures
            r.skills@.len() == 0,
            r.repos@.len() == 0,
    {
        Favorites { skills: Vec::new(), repos: Vec::new() }
    }

    /// Toggles a skill id: removes it where present, appends it where
    /// absent. The favorited repositories are untouched.
    pub fn toggle_skill(&mut self, id: &String)
        ensures
            names_view(final(self).skills@) == toggle_spec(names_view(old(self).skills@), id@),
            final(self).repos@ == old(self).repos@,
    {
        if contains_name(&self.skills, id) {
            let nv = remove_all(&self.skills, id);
            self.skills = nv;
        } else {
            self.skills.push(id.clone());
            proof {
                assert(names_view(self.skills@) =~= names_view(old(self).skills@).push(id@));
            }
        }
    }

    /// Toggles an `owner/repo` key: removes it where present, appends it
    /// where absent. The favorited skills are untouched.
    pub fn toggle_repo(&mut self, key: &String)
        ensures
            names_view(final(self).repos@) == toggle_spec(names_view(old(self).repos@), key@),
            final(self).skills@ == old(self).skills@,
    {
        if contains_name(&self.repos, key) {
            let nv = remove_all(&self.repos, key);
            self.repos = nv;
        } else {
            self.repos.push(key.clone());
            proof {
                assert(names_view(self.repos@) =~= names_view(old(self).repos@).push(key@));
            }
        }
    }
}

} // verus!
