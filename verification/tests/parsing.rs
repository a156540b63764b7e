use skill_studio::cache::{parse_skills, render_skills};
use skill_studio::clock::chrono_now;
use skill_studio::fetch::{fetch_message, repo_url_of, usize_to_decimal};
use skill_studio::frontmatter::parse_frontmatter;
use skill_studio::install::install_source_rel;
use skill_studio::models::Skill;
use skill_studio::strutil::{repo_key_of, skill_id_of, split_repo_url, str_eq};

fn sample_skill(name: &str, content: Option<&str>, installed: bool) -> Skill {
    Skill {
        id: format!("acme/tools/{}", name),
        name: name.to_string(),
        description: "a sample".to_string(),
        owner: "acme".to_string(),
        repo: "tools".to_string(),
        skills_path: "skills".to_string(),
        path: name.to_string(),
        content: content.map(|c| c.to_string()),
        is_installed: installed,
        is_fetched: true,
    }
}

#[test]
fn frontmatter_both_fields_trimmed() {
    let doc = "---\nname:  PDF Processing \ndescription:\tturns PDFs into text  \n---\nbody";
    let (name, description) = parse_frontmatter(doc);
    assert_eq!(name, "PDF Processing");
    assert_eq!(description, "turns PDFs into text");
}

#[test]
fn frontmatter_no_header_defaults() {
    let (name, description) = parse_frontmatter("just a plain document");
    assert_eq!(name, "Unknown");
    assert_eq!(description, "");
}

#[test]
fn frontmatter_unclosed_header_defaults() {
    let (name, description) = parse_frontmatter("---\nname: lost\nnothing closes this");
    assert_eq!(name, "Unknown");
    assert_eq!(description, "");
}

#[test]
fn frontmatter_missing_fields_fall_back() {
    let (name, description) = parse_frontmatter("---\ndescription: only this\n---\n");
    assert_eq!(name, "Unknown");
    assert_eq!(description, "only this");
    let (name2, description2) = parse_frontmatter("---\nname: only-name\n---\n");
    assert_eq!(name2, "only-name");
    assert_eq!(description2, "");
}

#[test]
fn frontmatter_closing_line_must_be_exact() {
    let (name, _) = parse_frontmatter("---\nname: a\n----\nmore\n---\n");
    assert_eq!(name, "a");
}

#[test]
fn cache_round_trip_preserves_all_fields() {
    let skills = vec![
        sample_skill("alpha", Some("---\nname: Alpha\n---\nuses \"quotes\"\\ and\nnewlines\ttabs"), true),
        sample_skill("beta", None, false),
    ];
    let text = render_skills(&skills);
    let back = parse_skills(&text).expect("canonical text must parse");
    assert_eq!(back.len(), 2);
    for (a, b) in skills.iter().zip(back.iter()) {
        assert_eq!(a.id, b.id);
        assert_eq!(a.name, b.name);
        assert_eq!(a.description, b.description);
        assert_eq!(a.owner, b.owner);
        assert_eq!(a.repo, b.repo);
        assert_eq!(a.skills_path, b.skills_path);
        assert_eq!(a.path, b.path);
        assert_eq!(a.content, b.content);
        assert_eq!(a.is_installed, b.is_installed);
        assert_eq!(a.is_fetched, b.is_fetched);
    }
}

#[test]
fn cache_round_trip_empty_list() {
    let skills: Vec<Skill> = Vec::new();
    let text = render_skills(&skills);
    assert_eq!(text, "[]");
    let back = parse_skills(&text).expect("empty list must parse");
    assert!(back.is_empty());
}

#[test]
fn cache_rejects_foreign_text() {
    assert!(parse_skills("").is_none());
    assert!(parse_skills("{}").is_none());
    assert!(parse_skills("[1, 2]").is_none());
    assert!(parse_skills("[]trailing").is_none());
    assert!(parse_skills("[{\"id\":\"a\"}]").is_none());
}

#[test]
fn cache_render_escapes_content() {
    let skills = vec![sample_skill("alpha", Some("say \"hi\"\nline two"), false)];
    let text = render_skills(&skills);
    assert!(text.contains("say \\\"hi\\\"\\nline two"));
    assert!(!text.contains("say \"hi\"\nline two"));
}

#[test]
fn split_repo_url_at_first_slash() {
    let (owner, repo) = split_repo_url("anthropics/skills").expect("has a slash");
    assert_eq!(owner, "anthropics");
    assert_eq!(repo, "skills");
    let (owner2, repo2) = split_repo_url("a/b/c").expect("has a slash");
    assert_eq!(owner2, "a");
    assert_eq!(repo2, "b/c");
    assert!(split_repo_url("no-slash-here").is_none());
}

#[test]
fn key_and_id_builders() {
    assert_eq!(repo_key_of("anthropics", "skills"), "anthropics/skills");
    assert_eq!(skill_id_of("anthropics", "skills", "pdf-processing"), "anthropics/skills/pdf-processing");
    assert_eq!(repo_url_of("anthropics", "skills"), "https://github.com/anthropics/skills.git");
}

#[test]
fn decimal_and_fetch_message() {
    assert_eq!(usize_to_decimal(0), "0");
    assert_eq!(usize_to_decimal(7), "7");
    assert_eq!(usize_to_decimal(120), "120");
    assert_eq!(usize_to_decimal(98765), "98765");
    assert_eq!(fetch_message("anthropics/skills", 12), "Fetched anthropics/skills (12 skills)");
}

#[test]
fn install_source_path_rules() {
    assert_eq!(install_source_rel(".", "pdf-processing"), "pdf-processing");
    assert_eq!(install_source_rel("skills", "pdf-processing"), "skills/pdf-processing");
}

#[test]
fn str_eq_compares_contents() {
    assert!(str_eq("abc", "abc"));
    assert!(!str_eq("abc", "abd"));
    assert!(!str_eq("abc", "ab"));
    assert!(str_eq("", ""));
}

#[test]
fn chrono_now_is_decimal_text() {
    let stamp = chrono_now();
    assert!(!stamp.is_empty());
    assert!(stamp.chars().all(|c| c.is_ascii_digit()));
}
