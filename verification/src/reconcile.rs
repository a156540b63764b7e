//! Catalog Reconciler: merges the built-in catalog, the user's custom
//! repositories, and the fetched/installed state into the unified views the
//! front-end consumes.

use vstd::prelude::*;
use crate::models::{
    names_view, repo_infos_view, CatalogRepo, CustomRepo, CustomRepos, RepoInfo, RepoInfoView,
    RepoSource, Skill, SkillView, SourceData, skills_view,
};
use crate::fetched::has_key;
use crate::models::{FetchedEntry, FetchedRepos};
use crate::scan::{scan_repo_for_skills, scan_result};
use crate::strutil::{contains_name, repo_key_of, split_repo_url};

verus! {

/// The merged-view row a catalog entry contributes, if its url splits into
/// `owner/repo`.
pub open spec fn catalog_row(c: CatalogRepo, f: Seq<FetchedEntry>) -> Option<RepoInfoView> {
    match c.url@.index_of_first('/') {
        Some(i) => {
            let owner = c.url@.take(i);
            let repo = c.url@.skip(i + 1);
            Some(
                RepoInfoView {
                    owner: owner,
                    repo: repo,
                    is_fetched: has_key(f, owner + "/"@ + repo),
                    is_custom: false,
                    highlight: c.highlight,
                },
            )
        },
        None => None,
    }
}

/// The rows of the catalog entries, in catalog order; entries whose url
/// holds no slash contribute nothing.
pub open spec fn catalog_rows(catalog: Seq<CatalogRepo>, f: Seq<FetchedEntry>) -> Seq<RepoInfoView>
    decreases catalog.len(),
{
    if catalog.len() == 0 {
        Seq::empty()
    } else {
        let prefix = catalog_rows(catalog.drop_last(), f);
        match catalog_row(catalog.last(), f) {
            Some(row) => prefix.push(row),
            None => prefix,
        }
    }
}

/// Whether some row of the view already carries these coordinates.
pub open spec fn row_present(rows: Seq<RepoInfoView>, owner: Seq<char>, repo: Seq<char>) -> bool {
    exists|i: int| 0 <= i < rows.len() && rows[i].owner == owner && rows[i].repo == repo
}

/// The merged-view row of a custom repository.
pub open spec fn custom_row(c: CustomRepo, f: Seq<FetchedEntry>) -> RepoInfoView {
    RepoInfoView {
        owner: c.owner@,
        repo: c.repo@,
        is_fetched: has_key(f, c.owner@ + "/"@ + c.repo@),
        is_custom: true,
        highlight: false,
    }
}

/// Appends each custom repository's row, in list order, skipping any whose
/// coordinates the view already carries.
pub open spec fn add_custom_rows(
    acc: Seq<RepoInfoView>,
    customs: Seq<CustomRepo>,
    f: Seq<FetchedEntry>,
) -> Seq<RepoInfoView>
    decreases customs.len(),
{
    if customs.len() == 0 {
        acc
    } else {
        let c = customs[0];
        let acc2 = if row_present(acc, c.owner@, c.repo@) {
            acc
        } else {
            acc.push(custom_row(c, f))
        };
        add_custom_rows(acc2, customs.drop_first(), f)
    }
}

/// The full merged repository view.
pub open spec fn merged_repos(
    catalog: Seq<CatalogRepo>,
    customs: Seq<CustomRepo>,
    f: Seq<FetchedEntry>,
) -> Seq<RepoInfoView> {
    add_custom_rows(catalog_rows(catalog, f), customs, f)
}

/// Whether a row with these coordinates is already in the list, executably.
fn row_present_exec(rows: &Vec<RepoInfo>, owner: &String, repo: &String) -> (r: bool)
    ensures
        r == row_present(repo_infos_view(rows@), owner@, repo@),
{
    let mut i: usize = 0;
    while i < rows.len()
        invariant
            i <= rows@.len(),
            forall|j: int|
                0 <= j < i ==> !(rows@[j]@.owner == owner@ && rows@[j]@.repo == repo@),
        decreases rows@.len() - i,
    {
        if rows[i].owner.eq(owner) && rows[i].repo.eq(repo) {
            proof {
                assert(repo_infos_view(rows@)[i as int] == rows@[i as int]@);
            }
            return true;
        }
        i = i + 1;
    }
    proof {
        assert forall|j: int| 0 <= j < repo_infos_view(rows@).len() implies !(repo_infos_view(
            rows@,
        )[j].owner == owner@ && repo_infos_view(rows@)[j].repo == repo@) by {
            assert(repo_infos_view(rows@)[j] == rows@[j]@);
        }
    }
    false
}

/// The merged repository view: every catalog row first (url split at its
/// first slash, `highlight` kept, `is_custom` false), then each custom
/// repository not already present, each row annotated with whether its key
/// stands in the fetched-repos record.
pub fn get_all_repos(
    catalog: &Vec<CatalogRepo>,
    customs: &Vec<CustomRepo>,
    fetched: &FetchedRepos,
) -> (r: Vec<RepoInfo>)
    ensures
        repo_infos_view(r@) == merged_repos(catalog@, customs@, fetched.repos@),
{
    let mut out: Vec<RepoInfo> = Vec::new();
    let ghost f = fetched.repos@;
    let mut i: usize = 0;
    while i < catalog.len()
        invariant
            i <= catalog@.len(),
            f == fetched.repos@,
            repo_infos_view(out@) == catalog_rows(catalog@.take(i as int), f),
        decreases catalog@.len() - i,
    {
        let c = &catalog[i];
        proof {
            assert(catalog@.take(i + 1 as int).drop_last() =~= catalog@.take(i as int));
            assert(catalog@.take(i + 1 as int).last() == catalog@[i as int]);
        }
        match split_repo_url(c.url.as_str()) {
            Some(pair) => {
                let key = repo_key_of(pair.0.as_str(), pair.1.as_str());
                let is_fetched = fetched.contains_key(&key);
                let row = RepoInfo {
                    owner: pair.0,
                    repo: pair.1,
                    is_fetched,
                    is_custom: false,
                    highlight: c.highlight,
                };
                let ghost out0 = out@;
                proof {
                    assert(row@ =~= catalog_row(catalog@[i as int], f)->Some_0);
                }
                out.push(row);
                proof {
                    assert(repo_infos_view(out@) =~= repo_infos_view(out0).push(row@));
                }
            },
            None => {},
        }
        i = i + 1;
    }
    proof {
        assert(catalog@.take(catalog@.len() as int) =~= catalog@);
    }
    let ghost rows0 = repo_infos_view(out@);
    proof {
        assert(customs@.skip(0) =~= customs@);
    }
    let mut j: usize = 0;
    while j < customs.len()
        invariant
            j <= customs@.len(),
            f == fetched.repos@,
            add_custom_rows(repo_infos_view(out@), customs@.skip(j as int), f) == add_custom_rows(
                rows0,
                customs@,
                f,
            ),
        decreases customs@.len() - j,
    {
        let c = &customs[j];
        proof {
            assert(customs@.skip(j as int).drop_first() =~= customs@.skip(j + 1 as int));
            assert(customs@.skip(j as int)[0] == customs@[j as int]);
        }
        let present = row_present_exec(&out, &c.owner, &c.repo);
        if !present {
            let key = repo_key_of(c.owner.as_str(), c.repo.as_str());
            let is_fetched = fetched.contains_key(&key);
            let row = RepoInfo {
                owner: c.owner.clone(),
                repo: c.repo.clone(),
                is_fetched,
                is_custom: true,
                highlight: false,
            };
            let ghost out0 = out@;
            proof {
                assert(row@ =~= custom_row(customs@[j as int], f));
            }
            out.push(row);
            proof {
                assert(repo_infos_view(out@) =~= repo_infos_view(out0).push(row@));
            }
        }
        j = j + 1;
    }
    proof {
        assert(customs@.skip(customs@.len() as int) =~= Seq::<CustomRepo>::empty());
    }
    out
}

/// The coordinate views of a source list.
pub open spec fn sources_view(l: Seq<RepoSource>) -> Seq<(Seq<char>, Seq<char>)> {
    l.map_values(|s: RepoSource| (s.owner@, s.repo@))
}

/// Whether a coordinate pair already stands in the list.
pub open spec fn pair_present(
    pairs: Seq<(Seq<char>, Seq<char>)>,
    owner: Seq<char>,
    repo: Seq<char>,
) -> bool {
    exists|i: int| 0 <= i < pairs.len() && pairs[i].0 == owner && pairs[i].1 == repo
}

/// The coordinate pairs the catalog contributes, in order; urls without a
/// slash contribute nothing.
pub open spec fn catalog_source_pairs(catalog: Seq<CatalogRepo>) -> Seq<(Seq<char>, Seq<char>)>
    decreases catalog.len(),
{
    if catalog.len() == 0 {
        Seq::empty()
    } else {
        let prefix = catalog_source_pairs(catalog.drop_last());
        match catalog.last().url@.index_of_first('/') {
            Some(i) => prefix.push(
                (catalog.last().url@.take(i), catalog.last().url@.skip(i + 1)),
            ),
            None => prefix,
        }
    }
}

/// Appends each custom repository's coordinates, skipping duplicates.
pub open spec fn add_custom_pairs(
    acc: Seq<(Seq<char>, Seq<char>)>,
    customs: Seq<CustomRepo>,
) -> Seq<(Seq<char>, Seq<char>)>
    decreases customs.len(),
{
    if customs.len() == 0 {
        acc
    } else {
        let c = customs[0];
        let acc2 = if pair_present(acc, c.owner@, c.repo@) {
            acc
        } else {
            acc.push((c.owner@, c.repo@))
        };
        add_custom_pairs(acc2, customs.drop_first())
    }
}

/// Whether a source with these coordinates is already collected.
fn source_present_exec(sources: &Vec<RepoSource>, owner: &String, repo: &String) -> (r: bool)
    ensures
        r == pair_present(sources_view(sources@), owner@, repo@),
{
    let mut i: usize = 0;
    while i < sources.len()
        invariant
            i <= sources@.len(),
            forall|j: int|
                0 <= j < i ==> !(sources@[j].owner@ == owner@ && sources@[j].repo@ == repo@),
        decreases sources@.len() - i,
    {
        if sources[i].owner.eq(owner) && sources[i].repo.eq(repo) {
            proof {
                assert(sources_view(sources@)[i as int] == (
                    sources@[i as int].owner@,
                    sources@[i as int].repo@,
                ));
            }
            return true;
        }
        i = i + 1;
    }
    proof {
        assert forall|j: int| 0 <= j < sources_view(sources@).len() implies !(sources_view(
            sources@,
        )[j].0 == owner@ && sources_view(sources@)[j].1 == repo@) by {
            assert(sources_view(sources@)[j] == (sources@[j].owner@, sources@[j].repo@));
        }
    }
    false
}

/// Collects every repository source the all-skills view walks: each catalog
/// url split at its first slash, then each custom repository not already
/// collected.
pub fn collect_sources(catalog: &Vec<CatalogRepo>, customs: &Vec<CustomRepo>) -> (r: Vec<
    RepoSource,
>)
    ensures
        sources_view(r@) == add_custom_pairs(catalog_source_pairs(catalog@), customs@),
{
    let mut out: Vec<RepoSource> = Vec::new();
    let mut i: usize = 0;
    while i < catalog.len()
        invariant
            i <= catalog@.len(),
            sources_view(out@) == catalog_source_pairs(catalog@.take(i as int)),
        decreases catalog@.len() - i,
    {
        let c = &catalog[i];
        proof {
            assert(catalog@.take(i + 1 as int).drop_last() =~= catalog@.take(i as int));
            assert(catalog@.take(i + 1 as int).last() == catalog@[i as int]);
        }
        match split_repo_url(c.url.as_str()) {
            Some(pair) => {
                let ghost out0 = out@;
                let source = RepoSource { owner: pair.0, repo: pair.1 };
                out.push(source);
                proof {
                    assert(sources_view(out@) =~= sources_view(out0).push(
                        (source.owner@, source.repo@),
                    ));
                }
            },
            None => {},
        }
        i = i + 1;
    }
    proof {
        assert(catalog@.take(catalog@.len() as int) =~= catalog@);
        assert(customs@.skip(0) =~= customs@);
    }
    let ghost pairs0 = sources_view(out@);
    let mut j: usize = 0;
    while j < customs.len()
        invariant
            j <= customs@.len(),
            add_custom_pairs(sources_view(out@), customs@.skip(j as int)) == add_custom_pairs(
                pairs0,
                customs@,
            ),
        decreases customs@.len() - j,
    {
        let c = &customs[j];
        proof {
            assert(customs@.skip(j as int).drop_first() =~= customs@.skip(j + 1 as int));
            assert(customs@.skip(j as int)[0] == customs@[j as int]);
        }
        let present = source_present_exec(&out, &c.owner, &c.repo);
        if !present {
            let ghost out0 = out@;
            let source = RepoSource { owner: c.owner.clone(), repo: c.repo.clone() };
            out.push(source);
            proof {
                assert(sources_view(out@) =~= sources_view(out0).push(
                    (source.owner@, source.repo@),
                ));
            }
        }
        j = j + 1;
    }
    proof {
        assert(customs@.skip(customs@.len() as int) =~= Seq::<CustomRepo>::empty());
    }
    out
}

/// Whether the custom list already holds these coordinates.
pub open spec fn custom_present(customs: Seq<CustomRepo>, owner: Seq<char>, repo: Seq<char>)
    -> bool {
    exists|i: int| 0 <= i < customs.len() && customs[i].owner@ == owner && customs[i].repo@ == repo
}

/// Adds a custom repository unless its coordinates are already present;
/// the detected skills path is captured once, at add-time.
pub fn add_custom_entry(customs: &mut CustomRepos, owner: String, repo: String,
    skills_path: String)
    ensures
        custom_present(old(customs).repos@, owner@, repo@) ==> final(customs).repos@ == old(
            customs,
        ).repos@,
        !custom_present(old(customs).repos@, owner@, repo@) ==> {
            &&& final(customs).repos@.len() == old(customs).repos@.len() + 1
            &&& final(customs).repos@.take(old(customs).repos@.len() as int) == old(
                customs,
            ).repos@
            &&& final(customs).repos@.last().owner@ == owner@
            &&& final(customs).repos@.last().repo@ == repo@
            &&& final(customs).repos@.last().skills_path@ == skills_path@
        },
{
    let found = custom_present_exec(&customs.repos, &owner, &repo);
    if !found {
        let ghost before = customs.repos@;
        customs.repos.push(CustomRepo { owner, repo, skills_path });
        proof {
            assert(customs.repos@.take(before.len() as int) =~= before);
        }
    }
}

/// Whether the custom list already holds these coordinates, executably.
fn custom_present_exec(customs: &Vec<CustomRepo>, owner: &String, repo: &String) -> (r: bool)
    ensures
        r == custom_present(customs@, owner@, repo@),
{
    let mut i: usize = 0;
    while i < customs.len()
        invariant
            i <= customs@.len(),
            forall|j: int|
                0 <= j < i ==> !(customs@[j].owner@ == owner@ && customs@[j].repo@ == repo@),
        decreases customs@.len() - i,
    {
        if customs[i].owner.eq(owner) && customs[i].repo.eq(repo) {
            return true;
        }
        i = i + 1;
    }
    false
}

/// Refreshing recomputes exactly the installed flag: the refreshed list has
/// the same length, and each record equals the original with only
/// `is_installed` replaced by the membership test.
pub proof fn lemma_refreshed_index(l: Seq<SkillView>, inst: Seq<Seq<char>>)
    ensures
        refreshed(l, inst).len() == l.len(),
        forall|i: int| 0 <= i < l.len() ==> refreshed(l, inst)[i] == refresh_one(l[i], inst),
    decreases l.len(),
{
    if l.len() > 0 {
        lemma_refreshed_index(l.drop_last(), inst);
    }
}

/// One skill with its installed flag recomputed against the current
/// installed listing; every other field kept verbatim.
pub open spec fn refresh_one(sv: SkillView, inst: Seq<Seq<char>>) -> SkillView {
    SkillView { is_installed: inst.contains(sv.name) || inst.contains(sv.path), ..sv }
}

/// A whole list of records with installed flags recomputed.
pub open spec fn refreshed(l: Seq<SkillView>, inst: Seq<Seq<char>>) -> Seq<SkillView>
    decreases l.len(),
{
    if l.len() == 0 {
        Seq::empty()
    } else {
        refreshed(l.drop_last(), inst).push(refresh_one(l.last(), inst))
    }
}

/// Recomputes each record's `is_installed` flag against the current
/// installed listing — the cached flag is a scratch default, never
/// authoritative — keeping every other field verbatim.
pub fn refresh_installed(skills: Vec<Skill>, installed: &Vec<String>) -> (r: Vec<Skill>)
    ensures
        skills_view(r@) == refreshed(skills_view(skills@), names_view(installed@)),
{
    let ghost orig = skills@;
    let ghost inst = names_view(installed@);
    let mut rem = skills;
    let mut out: Vec<Skill> = Vec::new();
    while rem.len() > 0
        invariant
            inst == names_view(installed@),
            out@.len() + rem@.len() == orig.len(),
            rem@ == orig.skip(out@.len() as int),
            skills_view(out@) == refreshed(skills_view(orig.take(out@.len() as int)), inst),
        decreases rem@.len(),
    {
        let ghost k = out@.len() as int;
        let s = rem.remove(0);
        proof {
            assert(s == orig[k]);
            assert(rem@ =~= orig.skip(k + 1));
        }
        let inst_flag = contains_name(installed, &s.name) || contains_name(installed, &s.path);
        let ghost out0 = out@;
        let record = Skill {
            id: s.id,
            name: s.name,
            description: s.description,
            owner: s.owner,
            repo: s.repo,
            skills_path: s.skills_path,
            path: s.path,
            content: s.content,
            is_installed: inst_flag,
            is_fetched: s.is_fetched,
        };
        proof {
            assert(record@ =~= refresh_one(orig[k]@, inst));
            assert(skills_view(orig.take(k + 1)).drop_last() =~= skills_view(orig.take(k)));
            assert(skills_view(orig.take(k + 1)).last() == orig[k]@);
        }
        out.push(record);
        proof {
            assert(skills_view(out@) =~= skills_view(out0).push(record@));
        }
    }
    proof {
        assert(orig.take(orig.len() as int) =~= orig);
    }
    out
}

/// The skills one source contributes to the all-skills view: nothing unless
/// its key is recorded fetched; the refreshed cache on a hit; a live scan on
/// a miss.
pub open spec fn source_skills_spec(
    sd: SourceData,
    f: Seq<FetchedEntry>,
    inst: Seq<Seq<char>>,
) -> Seq<SkillView> {
    if !has_key(f, sd.owner@ + "/"@ + sd.repo@) {
        Seq::empty()
    } else {
        match sd.cached {
            Option::Some(c) => refreshed(skills_view(c@), inst),
            Option::None => scan_result(sd.owner@, sd.repo@, inst, sd.tree),
        }
    }
}

/// One source's contribution to the all-skills view; the flag reports a
/// cache miss on a fetched repository, on which the caller should persist a
/// fresh cache.
pub fn source_skills(sd: SourceData, fetched: &FetchedRepos, installed: &Vec<String>) -> (r: (
    Vec<Skill>,
    bool,
))
    ensures
        skills_view(r.0@) == source_skills_spec(sd, fetched.repos@, names_view(installed@)),
        r.1 == (fetched.spec_has(sd.owner@ + "/"@ + sd.repo@) && sd.cached is None),
{
    let key = repo_key_of(sd.owner.as_str(), sd.repo.as_str());
    if !fetched.contains_key(&key) {
        let none: Vec<Skill> = Vec::new();
        proof {
            assert(skills_view(none@) =~= Seq::<SkillView>::empty());
        }
        return (none, false);
    }
    match sd.cached {
        Some(c) => (refresh_installed(c, installed), false),
        None => {
            let source = RepoSource { owner: sd.owner, repo: sd.repo };
            (scan_repo_for_skills(&source, installed, &sd.tree), true)
        },
    }
}

/// The whole view: each source's contribution, in source order.
pub open spec fn all_skills_spec(
    sources: Seq<SourceData>,
    f: Seq<FetchedEntry>,
    inst: Seq<Seq<char>>,
) -> Seq<SkillView>
    decreases sources.len(),
{
    if sources.len() == 0 {
        Seq::empty()
    } else {
        all_skills_spec(sources.drop_last(), f, inst) + source_skills_spec(
            sources.last(),
            f,
            inst,
        )
    }
}

/// The all-skills view: every repository source in order contributes its
/// cached records with installed flags recomputed, or a live scan where no
/// cache exists — and nothing at all unless it is recorded fetched, even if
/// stale local files happen to exist.
pub fn get_all_skills(sources: Vec<SourceData>, fetched: &FetchedRepos, installed: &Vec<String>)
    -> (r: Vec<Skill>)
    ensures
        skills_view(r@) == all_skills_spec(sources@, fetched.repos@, names_view(installed@)),
{
    let ghost orig = sources@;
    let ghost f = fetched.repos@;
    let ghost inst = names_view(installed@);
    let mut rem = sources;
    let mut out: Vec<Skill> = Vec::new();
    while rem.len() > 0
        invariant
            f == fetched.repos@,
            inst == names_view(installed@),
            rem@.len() <= orig.len(),
            rem@ == orig.skip(orig.len() - rem@.len()),
            skills_view(out@) == all_skills_spec(orig.take(orig.len() - rem@.len()), f, inst),
        decreases rem@.len(),
    {
        let ghost k = orig.len() - rem@.len();
        let sd = rem.remove(0);
        proof {
            assert(sd == orig[k]);
            assert(rem@ =~= orig.skip(k + 1));
        }
        let pair = source_skills(sd, fetched, installed);
        let mut part = pair.0;
        let ghost out0 = out@;
        let ghost part0 = part@;
        out.append(&mut part);
        proof {
            assert(skills_view(out@) =~= skills_view(out0) + skills_view(part0));
            assert(orig.take(k + 1).drop_last() =~= orig.take(k));
            assert(orig.take(k + 1).last() == orig[k]);
        }
    }
    proof {
        assert(orig.take(orig.len() as int) =~= orig);
    }
    out
}

/// Custom rows only ever extend the view: the catalog's rows stand
/// unchanged, highlight flags included, as a prefix of the merged view.
pub proof fn lemma_merge_keeps_catalog_rows(
    acc: Seq<RepoInfoView>,
    customs: Seq<CustomRepo>,
    f: Seq<FetchedEntry>,
)
    ensures
        add_custom_rows(acc, customs, f).len() >= acc.len(),
        add_custom_rows(acc, customs, f).take(acc.len() as int) == acc,
    decreases customs.len(),
{
    if customs.len() == 0 {
        assert(add_custom_rows(acc, customs, f).take(acc.len() as int) =~= acc);
    } else {
        let c = customs[0];
        if row_present(acc, c.owner@, c.repo@) {
            lemma_merge_keeps_catalog_rows(acc, customs.drop_first(), f);
        } else {
            let acc2 = acc.push(custom_row(c, f));
            lemma_merge_keeps_catalog_rows(acc2, customs.drop_first(), f);
            let total = add_custom_rows(acc2, customs.drop_first(), f);
            assert(total.take(acc2.len() as int) == acc2);
            assert(total.take(acc.len() as int) =~= acc) by {
                assert forall|k: int| 0 <= k < acc.len() implies total[k] == acc[k] by {
                    assert(total.take(acc2.len() as int)[k] == acc2[k]);
                }
            }
        }
    }
}

/// Deduplication: once coordinates stand in the view — as a catalog row,
/// say — no custom repository adds a second row for them; every row beyond
/// the original prefix carries other coordinates.
pub proof fn lemma_merge_dedup(
    acc: Seq<RepoInfoView>,
    customs: Seq<CustomRepo>,
    f: Seq<FetchedEntry>,
    owner: Seq<char>,
    repo: Seq<char>,
)
    requires
        row_present(acc, owner, repo),
    ensures
        forall|i: int|
            acc.len() <= i < add_custom_rows(acc, customs, f).len() ==> !(#[trigger] add_custom_rows(
                acc,
                customs,
                f,
            )[i].owner == owner && add_custom_rows(acc, customs, f)[i].repo == repo),
    decreases customs.len(),
{
    if customs.len() == 0 {
    } else {
        let c = customs[0];
        let total = add_custom_rows(acc, customs, f);
        if row_present(acc, c.owner@, c.repo@) {
            lemma_merge_dedup(acc, customs.drop_first(), f, owner, repo);
            let t2 = add_custom_rows(acc, customs.drop_first(), f);
            assert forall|i: int| acc.len() <= i < total.len() implies !(#[trigger] total[i].owner
                == owner && total[i].repo == repo) by {
                assert(total == t2);
                assert(!(t2[i].owner == owner && t2[i].repo == repo));
            }
        } else {
            let row = custom_row(c, f);
            let acc2 = acc.push(row);
            assert(row_present(acc2, owner, repo)) by {
                let w = choose|w: int| 0 <= w < acc.len() && acc[w].owner == owner && acc[w].repo
                    == repo;
                assert(acc2[w] == acc[w]);
            }
            lemma_merge_dedup(acc2, customs.drop_first(), f, owner, repo);
            lemma_merge_keeps_catalog_rows(acc2, customs.drop_first(), f);
            assert(!(row.owner == owner && row.repo == repo)) by {
                if row.owner == owner && row.repo == repo {
                    let w = choose|w: int| 0 <= w < acc.len() && acc[w].owner == owner
                        && acc[w].repo == repo;
                    assert(row_present(acc, c.owner@, c.repo@));
                }
            }
            let t2 = add_custom_rows(acc2, customs.drop_first(), f);
            assert forall|i: int| acc.len() <= i < total.len() implies !(#[trigger] total[i].owner
                == owner && total[i].repo == repo) by {
                assert(total == t2);
                if i == acc.len() {
                    assert(total.take(acc2.len() as int) == acc2);
                    assert(total.take(acc2.len() as int)[i] == acc2[i]);
                    assert(total[i] == row);
                } else {
                    assert(acc2.len() <= i < t2.len());
                    assert(!(t2[i].owner == owner && t2[i].repo == repo));
                }
            }
        }
    }
}

} // verus!
