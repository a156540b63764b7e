//! Data model: skills, repository sources, persisted user state, and the
//! plain-value picture of a fetched repository's directory tree that the
//! scanning logic works on.

use vstd::prelude::*;

verus! {

/// One discovered skill definition.
pub struct Skill {
    /// Stable identifier, `owner/repo/folder`.
    pub id: String,
    /// Display name from the definition document's header, or a fallback.
    pub name: String,
    /// Description from the header, or empty.
    pub description: String,
    /// Originating repository owner.
    pub owner: String,
    /// Originating repository name.
    pub repo: String,
    /// Scan-root-relative path under which this skill was found.
    pub skills_path: String,
    /// Folder name within the scan root.
    pub path: String,
    /// Full raw text of the definition document, or `None` if unreadable.
    pub content: Option<String>,
    /// Whether the skill appears in the installed-skills listing; recomputed
    /// at read time, never authoritative when persisted.
    pub is_installed: bool,
    /// Whether the owning repository has a local working copy.
    pub is_fetched: bool,
}

/// Mathematical picture of a [`Skill`]: every text field as a character
/// sequence.
#[verifier::ext_equal]
pub ghost struct SkillView {
    pub id: Seq<char>,
    pub name: Seq<char>,
    pub description: Seq<char>,
    pub owner: Seq<char>,
    pub repo: Seq<char>,
    pub skills_path: Seq<char>,
    pub path: Seq<char>,
    pub content: Option<Seq<char>>,
    pub is_installed: bool,
    pub is_fetched: bool,
}

/// The view of an optional text field.
pub open spec fn opt_text_view(o: Option<String>) -> Option<Seq<char>> {
    match o {
        Option::Some(c) => Option::Some(c@),
        Option::None => Option::None,
    }
}

impl View for Skill {
    type V = SkillView;

    open spec fn view(&self) -> SkillView {
        SkillView {
            id: self.id@,
            name: self.name@,
            description: self.description@,
            owner: self.owner@,
            repo: self.repo@,
            skills_path: self.skills_path@,
            path: self.path@,
            content: opt_text_view(self.content),
            is_installed: self.is_installed,
            is_fetched: self.is_fetched,
        }
    }
}

/// The views of a whole skill list.
pub open spec fn skills_view(v: Seq<Skill>) -> Seq<SkillView> {
    v.map_values(|s: Skill| s@)
}

/// The views of a list of plain names.
pub open spec fn names_view(v: Seq<String>) -> Seq<Seq<char>> {
    v.map_values(|s: String| s@)
}

/// The shipped, read-only list of recommended repositories.
pub struct Catalog {
    pub version: String,
    pub last_updated: String,
    pub repos: Vec<CatalogRepo>,
}

/// One catalog entry: `url` holds `owner/repo`, `highlight` marks featured
/// entries.
pub struct CatalogRepo {
    pub url: String,
    pub highlight: bool,
}

/// One row of the merged repository view handed to the front-end.
pub struct RepoInfo {
    pub owner: String,
    pub repo: String,
    pub is_fetched: bool,
    pub is_custom: bool,
    pub highlight: bool,
}

/// Mathematical picture of a [`RepoInfo`] row.
#[verifier::ext_equal]
pub ghost struct RepoInfoView {
    pub owner: Seq<char>,
    pub repo: Seq<char>,
    pub is_fetched: bool,
    pub is_custom: bool,
    pub highlight: bool,
}

impl View for RepoInfo {
    type V = RepoInfoView;

    open spec fn view(&self) -> RepoInfoView {
        RepoInfoView {
            owner: self.owner@,
            repo: self.repo@,
            is_fetched: self.is_fetched,
            is_custom: self.is_custom,
            highlight: self.highlight,
        }
    }
}

/// The views of a merged repository list.
pub open spec fn repo_infos_view(v: Seq<RepoInfo>) -> Seq<RepoInfoView> {
    v.map_values(|r: RepoInfo| r@)
}

/// A user-added repository source; `skills_path` is captured once, at
/// add-time, from the detector.
pub struct CustomRepo {
    pub owner: String,
    pub repo: String,
    pub skills_path: String,
}

/// The persisted list of user-added repositories.
pub struct CustomRepos {
    pub repos: Vec<CustomRepo>,
}

/// One record of the fetched-repos mapping: `owner/repo` key to the
/// last-fetched timestamp (decimal seconds since the epoch, as text).
pub struct FetchedEntry {
    pub key: String,
    pub last_fetched: String,
}

/// Mapping from `owner/repo` keys to last-fetched timestamps, kept as an
/// association list whose keys are unique.
pub struct FetchedRepos {
    pub repos: Vec<FetchedEntry>,
}

/// Favorited skill ids and favorited repository keys, two independent sets
/// kept in insertion order.
pub struct Favorites {
    pub skills: Vec<String>,
    pub repos: Vec<String>,
}

/// User settings: how skills are installed (`copy` or delegation to an
/// external package manager).
pub struct Settings {
    pub install_method: String,
}

impl Default for Settings {
    /// The default install method is a direct recursive copy.
    fn default() -> (r: Settings)
        ensures
            r.install_method@ == "copy"@,
    {
        Settings { install_method: String::from_str("copy") }
    }
}

/// An `(owner, repo)` pair naming a remote repository, however it became
/// known (catalog or custom).
pub struct RepoSource {
    pub owner: String,
    pub repo: String,
}

/// Everything the all-skills view needs of one repository source: its
/// coordinates, the parsed cache side-file if one exists, and the
/// plain-value picture of its local working copy for the cache-miss scan.
pub struct SourceData {
    pub owner: String,
    pub repo: String,
    pub cached: Option<Vec<Skill>>,
    pub tree: RepoTree,
}

/// What the scanner reads of one immediate subdirectory of a scan root.
pub struct DirEntryInfo {
    /// Folder name of the entry.
    pub name: String,
    /// Whether the entry is itself a directory.
    pub is_dir: bool,
    /// Whether the directory holds the upper-case definition document name.
    pub has_upper_doc: bool,
    /// Whether the directory holds the lower-case definition document name.
    pub has_lower_doc: bool,
    /// Text of the definition document (upper-case variant preferred), or
    /// `None` where no document could be read.
    pub doc_content: Option<String>,
}

/// The listing of one candidate directory: whether it exists as a directory,
/// and its immediate entries.
pub struct DirListing {
    pub exists: bool,
    pub entries: Vec<DirEntryInfo>,
}

/// The plain-value picture of a repository's local working copy that path
/// detection and scanning read: the listing of each fixed candidate
/// directory.
pub struct RepoTree {
    /// Whether the repository root exists at all.
    pub exists: bool,
    /// Listing of the `skills` candidate.
    pub skills: DirListing,
    /// Listing of the `src/skills` candidate.
    pub src_skills: DirListing,
    /// Listing of the `lib/skills` candidate.
    pub lib_skills: DirListing,
    /// Listing of the repository root, the `.` candidate.
    pub root: DirListing,
}

} // verus!
