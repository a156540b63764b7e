//! Skill Scanner: walks the resolved scan root of a fetched repository and
//! builds one skill record per subdirectory holding a definition document.

use vstd::prelude::*;
use crate::models::{
    names_view, opt_text_view, DirEntryInfo, RepoSource, RepoTree, Skill, SkillView, skills_view,
};
use crate::detect::{
    candidate_path, detect_index, detect_index_exec, detect_skills_path, entry_qualifies,
    listing_at,
};
use crate::frontmatter::{parse_frontmatter, parsed_description, parsed_name};
use crate::strutil::{contains_name, skill_id_of};

verus! {

/// The skill record built from one qualifying scan-root entry.
pub open spec fn skill_of_entry(
    owner: Seq<char>,
    repo: Seq<char>,
    spath: Seq<char>,
    installed: Seq<Seq<char>>,
    e: DirEntryInfo,
) -> SkillView {
    let nm = match e.doc_content {
        Option::Some(c) => parsed_name(c@),
        Option::None => e.name@,
    };
    let ds = match e.doc_content {
        Option::Some(c) => parsed_description(c@),
        Option::None => Seq::empty(),
    };
    SkillView {
        id: owner + "/"@ + repo + "/"@ + e.name@,
        name: nm,
        description: ds,
        owner: owner,
        repo: repo,
        skills_path: spath,
        path: e.name@,
        content: opt_text_view(e.doc_content),
        is_installed: installed.contains(nm) || installed.contains(e.name@),
        is_fetched: true,
    }
}

/// The skill records of a scan root's entries, in listing order: one per
/// qualifying entry, the rest silently skipped.
pub open spec fn scan_entries(
    owner: Seq<char>,
    repo: Seq<char>,
    spath: Seq<char>,
    installed: Seq<Seq<char>>,
    entries: Seq<DirEntryInfo>,
) -> Seq<SkillView>
    decreases entries.len(),
{
    if entries.len() == 0 {
        Seq::empty()
    } else {
        let prefix = scan_entries(owner, repo, spath, installed, entries.drop_last());
        if entry_qualifies(entries.last()) {
            prefix.push(skill_of_entry(owner, repo, spath, installed, entries.last()))
        } else {
            prefix
        }
    }
}

/// The full scan result for a repository tree: empty where the repository
/// has no local working copy or the detected scan root does not exist,
/// otherwise the records of the detected candidate's entries.
pub open spec fn scan_result(
    owner: Seq<char>,
    repo: Seq<char>,
    installed: Seq<Seq<char>>,
    t: RepoTree,
) -> Seq<SkillView> {
    if !t.exists {
        Seq::empty()
    } else {
        let i = detect_index(t);
        let l = listing_at(t, i);
        if !l.exists {
            Seq::empty()
        } else {
            scan_entries(owner, repo, candidate_path(i), installed, l.entries@)
        }
    }
}

/// Builds one skill record per qualifying subdirectory of the detected scan
/// root: id `owner/repo/folder`, name and description from the document's
/// header block (or the folder name and an empty description where the
/// document could not be read), and `is_installed` looked up among the
/// installed names by parsed name or folder name. A repository without a
/// local working copy yields an empty list.
pub fn scan_repo_for_skills(source: &RepoSource, installed: &Vec<String>, tree: &RepoTree) -> (r:
    Vec<Skill>)
    ensures
        skills_view(r@) == scan_result(source.owner@, source.repo@, names_view(installed@), *tree),
{
    let mut out: Vec<Skill> = Vec::new();
    if !tree.exists {
        proof {
            assert(skills_view(out@) =~= scan_result(
                source.owner@,
                source.repo@,
                names_view(installed@),
                *tree,
            ));
        }
        return out;
    }
    let idx = detect_index_exec(tree);
    let spath = detect_skills_path(tree);
    let listing = if idx == 0 {
        &tree.skills
    } else if idx == 1 {
        &tree.src_skills
    } else if idx == 2 {
        &tree.lib_skills
    } else {
        &tree.root
    };
    if !listing.exists {
        proof {
            assert(skills_view(out@) =~= scan_result(
                source.owner@,
                source.repo@,
                names_view(installed@),
                *tree,
            ));
        }
        return out;
    }
    let ghost gowner = source.owner@;
    let ghost grepo = source.repo@;
    let ghost gspath = candidate_path(detect_index(*tree));
    let ghost ginst = names_view(installed@);
    let ghost gentries = listing.entries@;
    let mut i: usize = 0;
    while i < listing.entries.len()
        invariant
            i <= gentries.len(),
            gentries == listing.entries@,
            gowner == source.owner@,
            grepo == source.repo@,
            gspath == spath@,
            ginst == names_view(installed@),
            skills_view(out@) == scan_entries(gowner, grepo, gspath, ginst, gentries.take(i as int)),
        decreases gentries.len() - i,
    {
        let e = &listing.entries[i];
        proof {
            assert(gentries.take(i + 1 as int).drop_last() =~= gentries.take(i as int));
            assert(gentries.take(i + 1 as int).last() == gentries[i as int]);
        }
        if e.is_dir && (e.has_upper_doc || e.has_lower_doc) {
            let folder = e.name.clone();
            let mut content: Option<String> = None;
            let mut name: String = String::new();
            let mut description: String = String::new();
            match &e.doc_content {
                Some(c) => {
                    let parsed = parse_frontmatter(c.as_str());
                    name = parsed.0;
                    description = parsed.1;
                    content = Some(c.clone());
                },
                None => {
                    name = e.name.clone();
                    description = String::new();
                },
            }
            let id = skill_id_of(source.owner.as_str(), source.repo.as_str(), folder.as_str());
            let is_installed = contains_name(installed, &name) || contains_name(
                installed,
                &folder,
            );
            let record = Skill {
                id,
                name,
                description,
                owner: source.owner.clone(),
                repo: source.repo.clone(),
                skills_path: spath.clone(),
                path: folder,
                content,
                is_installed,
                is_fetched: true,
            };
            proof {
                assert(record@ =~= skill_of_entry(gowner, grepo, gspath, ginst, gentries[i as int]));
                assert(skills_view(out@.push(record)) =~= skills_view(out@).push(record@));
            }
            out.push(record);
        }
        i = i + 1;
    }
    proof {
        assert(gentries.take(gentries.len() as int) =~= gentries);
    }
    out
}

/// A qualifying folder whose document could not be read yields a skill named
/// after the folder itself, with an empty description: the parser's
/// `"Unknown"` default is never exposed in this case.
pub proof fn lemma_unreadable_doc_names_folder(
    owner: Seq<char>,
    repo: Seq<char>,
    spath: Seq<char>,
    installed: Seq<Seq<char>>,
    e: DirEntryInfo,
)
    requires
        entry_qualifies(e),
        e.doc_content is None,
    ensures
        skill_of_entry(owner, repo, spath, installed, e).name == e.name@,
        skill_of_entry(owner, repo, spath, installed, e).description == Seq::<char>::empty(),
{
}

/// Skill ids are the folder name behind a fixed `owner/repo/` prefix, so
/// two ids collide only when their folders do.
proof fn lemma_id_injective(owner: Seq<char>, repo: Seq<char>, a: Seq<char>, b: Seq<char>)
    requires
        owner + "/"@ + repo + "/"@ + a == owner + "/"@ + repo + "/"@ + b,
    ensures
        a == b,
{
    let p = owner + "/"@ + repo + "/"@;
    assert(p + a == p + b);
    assert((p + a).len() == (p + b).len());
    assert(a.len() == b.len());
    assert forall|i: int| 0 <= i < a.len() implies a[i] == b[i] by {
        assert((p + a)[p.len() + i] == a[i]);
        assert((p + b)[p.len() + i] == b[i]);
    }
    assert(a =~= b);
}

/// Every scanned record's id is built from some entry's folder name.
proof fn lemma_scan_ids_from_names(
    owner: Seq<char>,
    repo: Seq<char>,
    spath: Seq<char>,
    installed: Seq<Seq<char>>,
    entries: Seq<DirEntryInfo>,
)
    ensures
        ({
            let res = scan_entries(owner, repo, spath, installed, entries);
            forall|k: int|
                0 <= k < res.len() ==> exists|i: int|
                    0 <= i < entries.len() && #[trigger] res[k].id == owner + "/"@ + repo + "/"@
                        + entries[i].name@
        }),
    decreases entries.len(),
{
    if entries.len() > 0 {
        lemma_scan_ids_from_names(owner, repo, spath, installed, entries.drop_last());
        let prev = scan_entries(owner, repo, spath, installed, entries.drop_last());
        let res = scan_entries(owner, repo, spath, installed, entries);
        assert forall|k: int| 0 <= k < res.len() implies exists|i: int|
            0 <= i < entries.len() && #[trigger] res[k].id == owner + "/"@ + repo + "/"@
                + entries[i].name@ by {
            if k < prev.len() {
                let i = choose|i: int|
                    0 <= i < entries.drop_last().len() && prev[k].id == owner + "/"@ + repo + "/"@
                        + entries.drop_last()[i].name@;
                assert(entries.drop_last()[i] == entries[i]);
                assert(res[k] == prev[k]);
            } else {
                assert(entry_qualifies(entries.last()));
                assert(res[k] == skill_of_entry(owner, repo, spath, installed, entries.last()));
                assert(entries[entries.len() - 1] == entries.last());
                assert(res[k].id == owner + "/"@ + repo + "/"@ + entries[entries.len()
                    - 1].name@);
            }
        }
    }
}

/// No two skills share an id within one repository scan: with the scan
/// root's folder names pairwise distinct — as directory entries are — the
/// scanned records' ids are pairwise distinct too.
pub proof fn lemma_scan_ids_unique(
    owner: Seq<char>,
    repo: Seq<char>,
    spath: Seq<char>,
    installed: Seq<Seq<char>>,
    entries: Seq<DirEntryInfo>,
)
    requires
        forall|i: int, j: int|
            0 <= i < j < entries.len() ==> entries[i].name@ != entries[j].name@,
    ensures
        ({
            let res = scan_entries(owner, repo, spath, installed, entries);
            forall|i: int, j: int| 0 <= i < j < res.len() ==> res[i].id != res[j].id
        }),
    decreases entries.len(),
{
    if entries.len() > 0 {
        lemma_scan_ids_unique(owner, repo, spath, installed, entries.drop_last());
        lemma_scan_ids_from_names(owner, repo, spath, installed, entries.drop_last());
        let prev = scan_entries(owner, repo, spath, installed, entries.drop_last());
        let res = scan_entries(owner, repo, spath, installed, entries);
        assert forall|i: int, j: int| 0 <= i < j < res.len() implies res[i].id != res[j].id by {
            if j < prev.len() {
                assert(res[i] == prev[i] && res[j] == prev[j]);
            } else {
                assert(entry_qualifies(entries.last()));
                assert(res[j] == skill_of_entry(owner, repo, spath, installed, entries.last()));
                assert(res[i] == prev[i]);
                let m = choose|m: int|
                    0 <= m < entries.drop_last().len() && prev[i].id == owner + "/"@ + repo + "/"@
                        + entries.drop_last()[m].name@;
                assert(entries.drop_last()[m] == entries[m]);
                assert(entries[m].name@ != entries[entries.len() - 1].name@);
                if res[i].id == res[j].id {
                    lemma_id_injective(owner, repo, entries[m].name@, entries.last().name@);
                }
            }
        }
    }
}

/// Scanning is deterministic: it is a function of the repository
/// coordinates, the installed listing, and the tree alone, so two scans of
/// an unchanged tree yield the same records.
pub proof fn lemma_scan_deterministic(
    owner: Seq<char>,
    repo: Seq<char>,
    installed: Seq<Seq<char>>,
    t1: RepoTree,
    t2: RepoTree,
)
    requires
        t1 == t2,
    ensures
        scan_result(owner, repo, installed, t1) == scan_result(owner, repo, installed, t2),
{
}

} // verus!
