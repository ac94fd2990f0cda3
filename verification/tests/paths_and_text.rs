use grove::cli::{Cli, Command, GrovePath};
use grove::error::GroveError;
use grove::hash::{content_hash, hex_lower};
use grove::merge::{extract_description, merge_commit_message, merge_target, sanitize_name, sanitize_path, single_file_target};
use grove::plugin::{plugin_manifest, sync_target_name};
use grove::db::Skill;
use grove::tree::{
    default_skill_content, evolve_commit_message, grow_commit_message, parent_path_of, prune_commit_message,
    skill_name_of, validate_path,
};

fn skill_at_path(name: &str, path: &str) -> Skill {
    Skill {
        id: "id".to_string(),
        name: name.to_string(),
        path: path.to_string(),
        description: String::new(),
        version: 1,
        parent_id: None,
        source: "native".to_string(),
        usage_count: 0,
        success_count: 0,
        failure_count: 0,
        created_at: "2024-01-01T00:00:00+00:00".to_string(),
        evolved_at: None,
        content_hash: String::new(),
    }
}

#[test]
fn validate_path_accepts_slash_separated_segments() {
    assert!(validate_path("coding/review/security").is_ok());
    assert!(validate_path("a-b_c/d1").is_ok());
    assert!(validate_path("caf\u{e9}/r\u{e9}sum\u{e9}").is_ok());
}

#[test]
fn validate_path_rejects_bad_paths() {
    for p in ["", "/coding", "coding/", "coding//review", "coding review", "coding.review", "a/b!"] {
        match validate_path(p) {
            Err(GroveError::InvalidPath(q)) => assert_eq!(q, p),
            other => panic!("expected InvalidPath for {p:?}, got {other:?}"),
        }
    }
}

#[test]
fn skill_name_is_last_segment() {
    assert_eq!(skill_name_of("coding/review/security"), "security");
    assert_eq!(skill_name_of("debugging"), "debugging");
}

#[test]
fn parent_path_is_text_before_last_slash() {
    assert_eq!(parent_path_of("coding/review/security"), Some("coding/review".to_string()));
    assert_eq!(parent_path_of("coding"), None);
}

#[test]
fn default_content_with_description() {
    let c = default_skill_content("review", "Use for code review tasks");
    let expected = "---\nname: review\ndescription: Use for code review tasks\n---\n\n# review\n\n\
Use for code review tasks\n\n## When to use\n\n<!-- Describe when this skill should be triggered -->\n\n\
## Instructions\n\n<!-- Step-by-step instructions for the agent -->\n\n## Gotchas\n\n\
<!-- Accumulated failure patterns and edge cases -->\n";
    assert_eq!(c, expected);
}

#[test]
fn default_content_without_description() {
    let c = default_skill_content("x", "");
    assert!(c.starts_with("---\nname: x\ndescription: \n---\n\n# x\n\n## When to use\n\n"));
}

#[test]
fn default_content_description_reads_back() {
    let c = default_skill_content("review", "Use for code review tasks");
    assert_eq!(extract_description(&c), Some("Use for code review tasks".to_string()));
}

#[test]
fn content_hash_is_sha256_hex() {
    assert_eq!(content_hash(""), "e3b0c44298fc1c149afbf4c8996fb92427ae41e4649b934ca495991b7852b855");
    assert_eq!(content_hash("abc"), "ba7816bf8f01cfea414140de5dae2223b00361a396177a9cb410ff61f20015ad");
    assert_eq!(content_hash("abc").len(), 64);
}

#[test]
fn hex_lower_writes_two_digits_per_byte() {
    assert_eq!(hex_lower(&[0x00, 0xff, 0x1a, 0x09]), "00ff1a09");
    assert_eq!(hex_lower(&[]), "");
}

#[test]
fn sanitize_name_replaces_and_lowercases() {
    assert_eq!(sanitize_name("My Skill!"), "my-skill-");
    assert_eq!(sanitize_name("code_review-2"), "code_review-2");
    assert_eq!(sanitize_name("\u{c4}BC"), "\u{e4}bc");
}

#[test]
fn sanitize_path_keeps_slashes() {
    assert_eq!(sanitize_path("Dev Tools/Code.Review"), "dev-tools/code-review");
    assert_eq!(sanitize_path("a//b"), "a//b");
    assert_eq!(sanitize_path(""), "");
}

#[test]
fn extract_description_from_frontmatter() {
    let c = "---\nname: x\ndescription: \"Quoted text\"\n---\nbody";
    assert_eq!(extract_description(c), Some("Quoted text".to_string()));
    let c = "---\n  description:   'single'  \n---\n";
    assert_eq!(extract_description(c), Some("single".to_string()));
    let c = "---\ndescription:\n---\n";
    assert_eq!(extract_description(c), Some(String::new()));
}

#[test]
fn extract_description_absent() {
    assert_eq!(extract_description("no frontmatter\ndescription: x"), None);
    assert_eq!(extract_description("---\ndescription: unterminated"), None);
    assert_eq!(extract_description("---\nname: x\n---\ndescription: after"), None);
}

#[test]
fn merge_target_for_skill_md_in_directory() {
    let t = merge_target("SKILL.md", "Coding/Review", Some("SKILL"), Some("skills"), "").unwrap();
    assert_eq!(t.path, "coding/review");
    assert_eq!(t.name, "review");
}

#[test]
fn merge_target_for_skill_md_at_top() {
    let t = merge_target("SKILL.md", "", Some("SKILL"), Some("My Plugin"), "imports").unwrap();
    assert_eq!(t.path, "imports/my-plugin");
    assert_eq!(t.name, "my-plugin");
}

#[test]
fn merge_target_for_named_markdown_file() {
    let t = merge_target("Tips.md", "dir\\sub", Some("Tips"), Some("skills"), "").unwrap();
    assert_eq!(t.path, "dir/sub/tips");
    assert_eq!(t.name, "tips");
    let t = merge_target("notes.md", "", Some("notes"), None, "x").unwrap();
    assert_eq!(t.path, "x/notes");
}

#[test]
fn merge_target_ignores_other_files() {
    assert!(merge_target("README.txt", "", Some("README"), None, "").is_none());
}

#[test]
fn single_file_target_uses_sanitized_stem() {
    let t = single_file_target("Big Idea", "");
    assert_eq!(t.path, "big-idea");
    assert_eq!(t.name, "big-idea");
    let t = single_file_target("Big Idea", "ideas");
    assert_eq!(t.path, "ideas/big-idea");
}

#[test]
fn commit_messages() {
    assert_eq!(grow_commit_message("coding/review"), "grove: grow coding/review");
    assert_eq!(prune_commit_message("coding/review"), "grove: prune coding/review");
    assert_eq!(evolve_commit_message("coding/review", 1), "grove: evolve coding/review (v2)");
    assert_eq!(merge_commit_message(3, "/tmp/src"), Some("grove: merge 3 skill(s) from /tmp/src".to_string()));
    assert_eq!(merge_commit_message(0, "/tmp/src"), None);
}

#[test]
fn plugin_manifest_is_pretty_json() {
    let m = plugin_manifest();
    let expected = "{\n  \"description\": \"Skills managed by Grove \u{2014} the self-evolving skill tree\",\n  \
\"name\": \"grove-skills\",\n  \"version\": \"0.1.0\"\n}";
    assert_eq!(m, expected);
}

#[test]
fn sync_target_flattens_nested_paths() {
    assert_eq!(sync_target_name(&skill_at_path("security", "coding/review/security")), "coding-review-security.md");
    assert_eq!(sync_target_name(&skill_at_path("solo", "solo")), "solo.md");
}

fn cli(grove: Option<std::path::PathBuf>) -> Cli {
    Cli { grove, command: Command::Stats }
}

#[test]
fn grove_path_prefers_flag_then_env_then_home() {
    assert!(matches!(cli(Some("/x".into())).grove_path(Some("/env".into()), Some("/home/u".into())), GrovePath::Given));
    match cli(None).grove_path(Some("/env/grove".into()), Some("/home/u".into())) {
        GrovePath::Text(t) => assert_eq!(t, "/env/grove"),
        GrovePath::Given => panic!("expected text"),
    }
    match cli(None).grove_path(None, Some("/home/u".into())) {
        GrovePath::Text(t) => assert_eq!(t, "/home/u/.grove"),
        GrovePath::Given => panic!("expected text"),
    }
    match cli(None).grove_path(None, Some("/home/u/".into())) {
        GrovePath::Text(t) => assert_eq!(t, "/home/u/.grove"),
        GrovePath::Given => panic!("expected text"),
    }
    match cli(None).grove_path(None, None) {
        GrovePath::Text(t) => assert_eq!(t, "./.grove"),
        GrovePath::Given => panic!("expected text"),
    }
}

#[test]
fn grove_path_matches_path_join() {
    for home in ["/home/u", "/home/u/", "", "rel/dir"] {
        let expected = std::path::PathBuf::from(home).join(".grove");
        match cli(None).grove_path(None, Some(home.to_string())) {
            GrovePath::Text(t) => assert_eq!(std::path::PathBuf::from(t), expected),
            GrovePath::Given => panic!("expected text"),
        }
    }
}

#[test]
fn error_messages() {
    assert_eq!(GroveError::NotInitialized("/g".into()).message(), "grove not initialized at /g. Run `grove init` first.");
    assert_eq!(GroveError::SkillExists("a/b".into()).message(), "skill already exists at path: a/b");
    assert_eq!(GroveError::SkillNotFound("a/b".into()).message(), "no skill found at path: a/b");
    assert_eq!(
        GroveError::InvalidPath("a//b".into()).message(),
        "invalid skill path: a//b. Use slash-separated segments (e.g., coding/review)"
    );
    assert_eq!(GroveError::InvalidOutcome("meh".into()).message(), "invalid outcome: meh. Use: success, failure, or partial");
    assert_eq!(GroveError::DatabaseError("boom".into()).message(), "database error: boom");
}

#[test]
fn sanitized_ascii_name_is_a_valid_segment() {
    for n in ["My Skill!", "a/b", "--x--", "Tools & Tricks", "a.b.c"] {
        let s = sanitize_name(n);
        assert!(validate_path(&s).is_ok(), "{s}");
        assert!(!s.contains('/'));
    }
}

#[test]
fn sanitized_ascii_path_is_valid() {
    for p in ["Dev Tools/Code.Review", "a/b c/d!", "X"] {
        let s = sanitize_path(p);
        assert!(validate_path(&s).is_ok(), "{s}");
    }
}

#[test]
fn parent_of_valid_path_is_valid() {
    for p in ["coding/review/security", "a-b/c_d", "x/y"] {
        assert!(validate_path(p).is_ok());
        let parent = parent_path_of(p).expect("has a parent");
        assert!(validate_path(&parent).is_ok(), "{parent}");
    }
}

#[test]
fn sanitizing_is_idempotent_on_ascii() {
    for n in ["My Skill!", "Tools & Tricks", "a_b-c"] {
        let s = sanitize_name(n);
        assert_eq!(s.len(), n.len());
        assert!(s.chars().all(|c| c.is_ascii_lowercase() || c.is_ascii_digit() || c == '-' || c == '_'));
        assert_eq!(sanitize_name(&s), s);
    }
    for p in ["Dev Tools/Code.Review", "a//B", "/x/"] {
        let s = sanitize_path(p);
        assert_eq!(sanitize_path(&s), s);
    }
}
