//! Skill-Path Detector: given the plain-value picture of a repository's
//! local working copy, selects the one candidate subdirectory most likely to
//! hold skill folders.
//!
//! Candidates are checked in a fixed order — `skills`, `src/skills`,
//! `lib/skills`, `.` — and a later candidate wins only by a strictly higher
//! count of qualifying subdirectories; with no qualifying subdirectory
//! anywhere the root `.` is the default.

use vstd::prelude::*;
use vstd::string::StringExecFns;
use crate::models::{DirEntryInfo, DirListing, RepoTree};

verus! {

/// Whether one scan-root entry is a skill folder: a directory holding a
/// definition document under either filename case.
pub open spec fn entry_qualifies(e: DirEntryInfo) -> bool {
    e.is_dir && (e.has_upper_doc || e.has_lower_doc)
}

/// How many of the entries are skill folders.
pub open spec fn qualifying_count(entries: Seq<DirEntryInfo>) -> nat
    decreases entries.len(),
{
    if entries.len() == 0 {
        0
    } else {
        qualifying_count(entries.drop_last()) + if entry_qualifies(entries.last()) {
            1nat
        } else {
            0nat
        }
    }
}

/// The qualifying count of a candidate listing; a candidate that does not
/// exist as a directory counts zero.
pub open spec fn listing_count(l: DirListing) -> nat {
    if l.exists {
        qualifying_count(l.entries@)
    } else {
        0
    }
}

/// The candidate listings of a tree, in detection order.
pub open spec fn listing_at(t: RepoTree, i: int) -> DirListing {
    if i == 0 {
        t.skills
    } else if i == 1 {
        t.src_skills
    } else if i == 2 {
        t.lib_skills
    } else {
        t.root
    }
}

/// The qualifying count of candidate `i` of a tree.
pub open spec fn candidate_count(t: RepoTree, i: int) -> int {
    listing_count(listing_at(t, i)) as int
}

/// The relative path segment of each candidate, in detection order.
pub open spec fn candidate_path(i: int) -> Seq<char> {
    if i == 0 {
        "skills"@
    } else if i == 1 {
        "src/skills"@
    } else if i == 2 {
        "lib/skills"@
    } else {
        "."@
    }
}

/// The index of the selected candidate: the first candidate whose count is
/// strictly above every earlier one's and at least every later one's, or the
/// root when no candidate holds any qualifying subdirectory.
pub open spec fn detect_index(t: RepoTree) -> int {
    let c0 = candidate_count(t, 0);
    let c1 = candidate_count(t, 1);
    let c2 = candidate_count(t, 2);
    let c3 = candidate_count(t, 3);
    if c0 > 0 && c0 >= c1 && c0 >= c2 && c0 >= c3 {
        0
    } else if c1 > 0 && c1 > c0 && c1 >= c2 && c1 >= c3 {
        1
    } else if c2 > 0 && c2 > c0 && c2 > c1 && c2 >= c3 {
        2
    } else {
        3
    }
}

/// Counts the skill folders among a listing's entries.
pub fn count_listing(l: &DirListing) -> (r: usize)
    ensures
        r == listing_count(*l),
{
    if !l.exists {
        return 0;
    }
    let mut count: usize = 0;
    let mut i: usize = 0;
    while i < l.entries.len()
        invariant
            i <= l.entries@.len(),
            count == qualifying_count(l.entries@.take(i as int)),
            count <= i,
        decreases l.entries@.len() - i,
    {
        let e = &l.entries[i];
        proof {
            assert(l.entries@.take(i + 1 as int).drop_last() =~= l.entries@.take(i as int));
            assert(l.entries@.take(i + 1 as int).last() == l.entries@[i as int]);
        }
        if e.is_dir && (e.has_upper_doc || e.has_lower_doc) {
            count = count + 1;
        }
        i = i + 1;
    }
    proof {
        assert(l.entries@.take(l.entries@.len() as int) =~= l.entries@);
    }
    count
}

/// The index of the candidate the detector selects.
pub fn detect_index_exec(t: &RepoTree) -> (r: usize)
    ensures
        r as int == detect_index(*t),
        r <= 3,
{
    let c0 = count_listing(&t.skills);
    let c1 = count_listing(&t.src_skills);
    let c2 = count_listing(&t.lib_skills);
    let c3 = count_listing(&t.root);
    if c0 > 0 && c0 >= c1 && c0 >= c2 && c0 >= c3 {
        0
    } else if c1 > 0 && c1 > c0 && c1 >= c2 && c1 >= c3 {
        1
    } else if c2 > 0 && c2 > c0 && c2 > c1 && c2 >= c3 {
        2
    } else {
        3
    }
}

/// The relative path segment (one of the fixed candidates, or `.` for the
/// root) under which skill folders most likely live.
pub fn detect_skills_path(t: &RepoTree) -> (r: String)
    ensures
        r@ == candidate_path(detect_index(*t)),
{
    let i = detect_index_exec(t);
    if i == 0 {
        String::from_str("skills")
    } else if i == 1 {
        String::from_str("src/skills")
    } else if i == 2 {
        String::from_str("lib/skills")
    } else {
        String::from_str(".")
    }
}

/// First-wins selection: when any candidate holds a qualifying
/// subdirectory, the selected candidate's count strictly exceeds every
/// earlier candidate's and is at least every later candidate's — so a
/// competing candidate changes the winner only by strictly exceeding its
/// count, never by tying. With no qualifying subdirectory anywhere, the
/// root is selected.
pub proof fn lemma_detect_first_wins(t: RepoTree)
    ensures
        0 <= detect_index(t) <= 3,
        (forall|j: int| 0 <= j < 4 ==> candidate_count(t, j) == 0) ==> detect_index(t) == 3,
        (exists|j: int| 0 <= j < 4 && candidate_count(t, j) > 0) ==> {
            let i = detect_index(t);
            &&& candidate_count(t, i) > 0
            &&& (forall|j: int| 0 <= j < i ==> candidate_count(t, j) < candidate_count(t, i))
            &&& (forall|j: int| 0 <= j < 4 ==> candidate_count(t, j) <= candidate_count(t, i))
        },
{
    assert(candidate_count(t, 0) >= 0);
    assert(candidate_count(t, 1) >= 0);
    assert(candidate_count(t, 2) >= 0);
    assert(candidate_count(t, 3) >= 0);
    if exists|j: int| 0 <= j < 4 && candidate_count(t, j) > 0 {
        let j = choose|j: int| 0 <= j < 4 && candidate_count(t, j) > 0;
        assert(j == 0 || j == 1 || j == 2 || j == 3);
        assert forall|k: int| 0 <= k < detect_index(t) implies #[trigger] candidate_count(t, k)
            < candidate_count(t, detect_index(t)) by {
            assert(k == 0 || k == 1 || k == 2);
        }
        assert forall|k: int| 0 <= k < 4 implies #[trigger] candidate_count(t, k)
            <= candidate_count(t, detect_index(t)) by {
            assert(k == 0 || k == 1 || k == 2 || k == 3);
        }
    }
}

/// Detection depends only on the per-candidate qualifying counts: two trees
/// with equal counts select the same candidate. In particular, repeated
/// detection over an unchanged tree always returns the same path.
pub proof fn lemma_detect_deterministic(a: RepoTree, b: RepoTree)
    requires
        forall|j: int| 0 <= j < 4 ==> candidate_count(a, j) == candidate_count(b, j),
    ensures
        detect_index(a) == detect_index(b),
{
    assert(candidate_count(a, 0) == candidate_count(b, 0));
    assert(candidate_count(a, 1) == candidate_count(b, 1));
    assert(candidate_count(a, 2) == candidate_count(b, 2));
    assert(candidate_count(a, 3) == candidate_count(b, 3));
}

} // verus!
