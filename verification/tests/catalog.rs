use skill_studio::detect::detect_skills_path;
use skill_studio::models::{
    CatalogRepo, CustomRepo, CustomRepos, DirEntryInfo, DirListing, Favorites, FetchedRepos,
    RepoSource, RepoTree, Skill, SourceData,
};
use skill_studio::reconcile::{
    add_custom_entry, collect_sources, get_all_repos, get_all_skills, refresh_installed,
};
use skill_studio::scan::scan_repo_for_skills;

fn entry(name: &str, doc: Option<&str>) -> DirEntryInfo {
    DirEntryInfo {
        name: name.to_string(),
        is_dir: true,
        has_upper_doc: true,
        has_lower_doc: false,
        doc_content: doc.map(|d| d.to_string()),
    }
}

fn listing(entries: Vec<DirEntryInfo>) -> DirListing {
    DirListing { exists: true, entries }
}

fn absent() -> DirListing {
    DirListing { exists: false, entries: Vec::new() }
}

fn tree_with_skills_dir(entries: Vec<DirEntryInfo>) -> RepoTree {
    RepoTree {
        exists: true,
        skills: listing(entries),
        src_skills: absent(),
        lib_skills: absent(),
        root: listing(Vec::new()),
    }
}

fn fetched_with(keys: &[&str]) -> FetchedRepos {
    let mut f = FetchedRepos::new();
    for k in keys {
        f.insert(k.to_string(), "100".to_string());
    }
    f
}

#[test]
fn detect_is_deterministic() {
    let t = tree_with_skills_dir(vec![entry("a", None), entry("b", None)]);
    let first = detect_skills_path(&t);
    let second = detect_skills_path(&t);
    assert_eq!(first, second);
    assert_eq!(first, "skills");
}

#[test]
fn detect_defaults_to_root() {
    let t = RepoTree {
        exists: true,
        skills: absent(),
        src_skills: absent(),
        lib_skills: absent(),
        root: listing(Vec::new()),
    };
    assert_eq!(detect_skills_path(&t), ".");
}

#[test]
fn detect_tie_keeps_earlier_candidate() {
    let t = RepoTree {
        exists: true,
        skills: listing(vec![entry("a", None)]),
        src_skills: listing(vec![entry("b", None)]),
        lib_skills: absent(),
        root: listing(Vec::new()),
    };
    assert_eq!(detect_skills_path(&t), "skills");
}

#[test]
fn detect_later_candidate_wins_only_by_exceeding() {
    let t = RepoTree {
        exists: true,
        skills: listing(vec![entry("a", None)]),
        src_skills: listing(vec![entry("b", None), entry("c", None)]),
        lib_skills: absent(),
        root: listing(Vec::new()),
    };
    assert_eq!(detect_skills_path(&t), "src/skills");
}

#[test]
fn scan_builds_records_and_skips_plain_entries() {
    let mut entries = vec![
        entry("pdf-processing", Some("---\nname: PDF Processing\ndescription: extracts text\n---\n")),
        entry("no-doc-folder", None),
    ];
    entries.push(DirEntryInfo {
        name: "not-a-skill".to_string(),
        is_dir: true,
        has_upper_doc: false,
        has_lower_doc: false,
        doc_content: None,
    });
    let t = tree_with_skills_dir(entries);
    let source = RepoSource { owner: "anthropics".to_string(), repo: "skills".to_string() };
    let installed: Vec<String> = vec!["PDF Processing".to_string()];
    let skills = scan_repo_for_skills(&source, &installed, &t);
    assert_eq!(skills.len(), 2);
    assert_eq!(skills[0].id, "anthropics/skills/pdf-processing");
    assert_eq!(skills[0].name, "PDF Processing");
    assert_eq!(skills[0].description, "extracts text");
    assert_eq!(skills[0].skills_path, "skills");
    assert!(skills[0].is_installed);
    assert!(skills[0].is_fetched);
}

#[test]
fn scan_unreadable_doc_uses_folder_name() {
    let t = tree_with_skills_dir(vec![entry("mystery-skill", None)]);
    let source = RepoSource { owner: "acme".to_string(), repo: "tools".to_string() };
    let skills = scan_repo_for_skills(&source, &Vec::new(), &t);
    assert_eq!(skills.len(), 1);
    assert_eq!(skills[0].name, "mystery-skill");
    assert_eq!(skills[0].description, "");
    assert!(skills[0].content.is_none());
}

#[test]
fn scan_accepts_lower_case_document_name() {
    let t = tree_with_skills_dir(vec![DirEntryInfo {
        name: "lower".to_string(),
        is_dir: true,
        has_upper_doc: false,
        has_lower_doc: true,
        doc_content: Some("---\nname: Lower\n---\n".to_string()),
    }]);
    let source = RepoSource { owner: "o".to_string(), repo: "r".to_string() };
    let skills = scan_repo_for_skills(&source, &Vec::new(), &t);
    assert_eq!(skills.len(), 1);
    assert_eq!(skills[0].name, "Lower");
}

#[test]
fn scan_missing_repo_is_empty() {
    let t = RepoTree {
        exists: false,
        skills: absent(),
        src_skills: absent(),
        lib_skills: absent(),
        root: absent(),
    };
    let source = RepoSource { owner: "a".to_string(), repo: "b".to_string() };
    assert!(scan_repo_for_skills(&source, &Vec::new(), &t).is_empty());
}

#[test]
fn scan_same_tree_twice_is_identical() {
    let make = || tree_with_skills_dir(vec![entry("a", Some("---\nname: A\n---\n"))]);
    let source = RepoSource { owner: "o".to_string(), repo: "r".to_string() };
    let one = scan_repo_for_skills(&source, &Vec::new(), &make());
    let two = scan_repo_for_skills(&source, &Vec::new(), &make());
    assert_eq!(one.len(), two.len());
    for (a, b) in one.iter().zip(two.iter()) {
        assert_eq!(a.id, b.id);
        assert_eq!(a.name, b.name);
        assert_eq!(a.description, b.description);
    }
}

#[test]
fn fetched_insert_overwrites_timestamp() {
    let mut f = FetchedRepos::new();
    f.insert("a/b".to_string(), "100".to_string());
    f.insert("c/d".to_string(), "150".to_string());
    f.insert("a/b".to_string(), "200".to_string());
    assert_eq!(f.repos.len(), 2);
    let stamp = f.repos.iter().find(|e| e.key == "a/b").map(|e| e.last_fetched.clone());
    assert_eq!(stamp.as_deref(), Some("200"));
    let other = f.repos.iter().find(|e| e.key == "c/d").map(|e| e.last_fetched.clone());
    assert_eq!(other.as_deref(), Some("150"));
}

#[test]
fn merged_repos_dedup_keeps_catalog_highlight() {
    let catalog = vec![CatalogRepo { url: "anthropics/skills".to_string(), highlight: true }];
    let customs = vec![
        CustomRepo {
            owner: "anthropics".to_string(),
            repo: "skills".to_string(),
            skills_path: "skills".to_string(),
        },
        CustomRepo {
            owner: "acme".to_string(),
            repo: "tools".to_string(),
            skills_path: ".".to_string(),
        },
    ];
    let fetched = fetched_with(&["anthropics/skills"]);
    let rows = get_all_repos(&catalog, &customs, &fetched);
    assert_eq!(rows.len(), 2);
    assert_eq!(rows[0].owner, "anthropics");
    assert_eq!(rows[0].repo, "skills");
    assert!(rows[0].highlight);
    assert!(!rows[0].is_custom);
    assert!(rows[0].is_fetched);
    assert_eq!(rows[1].owner, "acme");
    assert!(rows[1].is_custom);
    assert!(!rows[1].highlight);
    assert!(!rows[1].is_fetched);
}

#[test]
fn catalog_url_without_slash_is_skipped() {
    let catalog = vec![CatalogRepo { url: "malformed".to_string(), highlight: false }];
    let fetched = FetchedRepos::new();
    let rows = get_all_repos(&catalog, &Vec::new(), &fetched);
    assert!(rows.is_empty());
    let sources = collect_sources(&catalog, &Vec::new());
    assert!(sources.is_empty());
}

#[test]
fn add_custom_entry_dedups() {
    let mut customs = CustomRepos { repos: Vec::new() };
    add_custom_entry(&mut customs, "a".to_string(), "b".to_string(), "skills".to_string());
    add_custom_entry(&mut customs, "a".to_string(), "b".to_string(), ".".to_string());
    assert_eq!(customs.repos.len(), 1);
    assert_eq!(customs.repos[0].skills_path, "skills");
}

#[test]
fn refresh_recomputes_installed_only() {
    let skills = vec![Skill {
        id: "o/r/p".to_string(),
        name: "Tool".to_string(),
        description: "d".to_string(),
        owner: "o".to_string(),
        repo: "r".to_string(),
        skills_path: ".".to_string(),
        path: "p".to_string(),
        content: None,
        is_installed: true,
        is_fetched: true,
    }];
    let refreshed = refresh_installed(skills, &Vec::new());
    assert_eq!(refreshed.len(), 1);
    assert!(!refreshed[0].is_installed);
    assert_eq!(refreshed[0].name, "Tool");
    let by_path = refresh_installed(refreshed, &vec!["p".to_string()]);
    assert!(by_path[0].is_installed);
}

#[test]
fn all_skills_scenario_catalog_fetch_and_scan() {
    let catalog = vec![CatalogRepo { url: "anthropics/skills".to_string(), highlight: true }];
    let sources = collect_sources(&catalog, &Vec::new());
    assert_eq!(sources.len(), 1);
    let tree = tree_with_skills_dir(vec![entry(
        "pdf-processing",
        Some("---\nname: PDF Processing\n---\ninstructions"),
    )]);
    let data = vec![SourceData {
        owner: sources[0].owner.clone(),
        repo: sources[0].repo.clone(),
        cached: None,
        tree,
    }];
    let fetched = fetched_with(&["anthropics/skills"]);
    let installed: Vec<String> = Vec::new();
    let skills = get_all_skills(data, &fetched, &installed);
    assert_eq!(skills.len(), 1);
    assert_eq!(skills[0].id, "anthropics/skills/pdf-processing");
    assert_eq!(skills[0].name, "PDF Processing");
    assert!(skills[0].is_fetched);
    assert!(!skills[0].is_installed);
}

#[test]
fn all_skills_unfetched_repo_contributes_nothing() {
    let tree = tree_with_skills_dir(vec![entry("a", Some("---\nname: A\n---\n"))]);
    let data = vec![SourceData {
        owner: "ghost".to_string(),
        repo: "repo".to_string(),
        cached: None,
        tree,
    }];
    let fetched = FetchedRepos::new();
    let skills = get_all_skills(data, &fetched, &Vec::new());
    assert!(skills.is_empty());
}

#[test]
fn all_skills_cache_hit_refreshes_installed() {
    let cached = vec![Skill {
        id: "o/r/tool".to_string(),
        name: "Tool".to_string(),
        description: String::new(),
        owner: "o".to_string(),
        repo: "r".to_string(),
        skills_path: "skills".to_string(),
        path: "tool".to_string(),
        content: None,
        is_installed: false,
        is_fetched: true,
    }];
    let data = vec![SourceData {
        owner: "o".to_string(),
        repo: "r".to_string(),
        cached: Some(cached),
        tree: RepoTree {
            exists: false,
            skills: absent(),
            src_skills: absent(),
            lib_skills: absent(),
            root: absent(),
        },
    }];
    let fetched = fetched_with(&["o/r"]);
    let installed = vec!["Tool".to_string()];
    let skills = get_all_skills(data, &fetched, &installed);
    assert_eq!(skills.len(), 1);
    assert!(skills[0].is_installed);
}

#[test]
fn favorite_skill_toggles_back_to_empty() {
    let mut favorites = Favorites::new();
    favorites.toggle_skill(&"a/b/c".to_string());
    assert_eq!(favorites.skills, vec!["a/b/c".to_string()]);
    favorites.toggle_skill(&"a/b/c".to_string());
    assert!(favorites.skills.is_empty());
    assert!(favorites.repos.is_empty());
}

#[test]
fn favorite_repo_toggles_independently() {
    let mut favorites = Favorites::new();
    favorites.toggle_repo(&"a/b".to_string());
    favorites.toggle_skill(&"a/b/c".to_string());
    favorites.toggle_repo(&"a/b".to_string());
    assert!(favorites.repos.is_empty());
    assert_eq!(favorites.skills, vec!["a/b/c".to_string()]);
}
