use grove::db::{Database, DbError, Observation, Skill, SkillRow, VersionRecord};
use grove::display::{list, tree};
use grove::error::{CommandError, GroveError};
use grove::hash::content_hash;
use grove::merge::{merge_record, merge_skip, merge_summary};
use grove::observe::{check_outcome, health, record, stats};
use grove::report::{Line, Piece};
use grove::tree::{
    apply_evolution, default_skill_content, dry_run_lines, evolve_action, evolve_plan, evolved_content, find_parent_id,
    grow_content, grow_plan, grow_record, history, prune, prune_check, show, template_is_skill, EvolveAction, TemplateRead,
};

fn render(line: &Line) -> String {
    let mut s = String::new();
    for p in &line.pieces {
        match p {
            Piece::Text(t) => s.push_str(t),
            Piece::Percent(a, b) => s.push_str(&format!("{:.0}", (*a as f64 / *b as f64) * 100.0)),
            Piece::PercentCell(a, b, w) => {
                let cell = format!("{:.0}%", (*a as f64 / *b as f64) * 100.0);
                s.push_str(&format!("{:>w$}", cell, w = *w));
            }
        }
    }
    s
}

fn render_all(lines: &[Line]) -> Vec<String> {
    lines.iter().map(render).collect()
}

fn skill(id: &str, path: &str, usage: u64, success: u64, failure: u64) -> Skill {
    Skill {
        id: id.to_string(),
        name: path.rsplit('/').next().unwrap().to_string(),
        path: path.to_string(),
        description: String::new(),
        version: 1,
        parent_id: None,
        source: "native".to_string(),
        usage_count: usage,
        success_count: success,
        failure_count: failure,
        created_at: "2024-01-01T00:00:00+00:00".to_string(),
        evolved_at: None,
        content_hash: "0123456789abcdef0123456789abcdef0123456789abcdef0123456789abcdef".to_string(),
    }
}

fn row(s: Skill) -> SkillRow {
    SkillRow { skill: s, archived: false }
}

fn obs(id: &str, skill_id: &str, outcome: &str, context: Option<&str>, suggestion: Option<&str>, at: &str) -> Observation {
    Observation {
        id: id.to_string(),
        skill_id: skill_id.to_string(),
        outcome: outcome.to_string(),
        context: context.map(|c| c.to_string()),
        suggestion: suggestion.map(|c| c.to_string()),
        created_at: at.to_string(),
        consumed: false,
    }
}

fn store(rows: Vec<SkillRow>, observations: Vec<Observation>, versions: Vec<VersionRecord>) -> Database {
    Database::from_rows(rows, observations, versions).expect("valid rows")
}

#[test]
fn outcomes_are_checked() {
    assert!(check_outcome("success").is_ok());
    assert!(check_outcome("failure").is_ok());
    assert!(check_outcome("partial").is_ok());
    assert!(matches!(check_outcome("Success"), Err(GroveError::InvalidOutcome(o)) if o == "Success"));
}

#[test]
fn record_counts_and_reports() {
    let mut db = store(vec![row(skill("s1", "coding/review", 2, 1, 1))], vec![], vec![]);
    let lines = render_all(&record(&mut db, "coding/review", "success", Some("fine"), None).expect("recorded"));
    assert_eq!(lines.len(), 3);
    assert_eq!(lines[0], "Recorded [success] for coding/review");
    assert!(lines[1].starts_with("  observation: ") && lines[1].len() == "  observation: ".len() + 8);
    assert_eq!(lines[2], "  total usage: 3");
    let s = db.get_skill_by_path("coding/review").unwrap();
    assert_eq!((s.usage_count, s.success_count, s.failure_count), (3, 2, 1));
}

#[test]
fn record_hints_after_three_failures() {
    let mut db = store(vec![row(skill("s1", "a", 0, 0, 0))], vec![], vec![]);
    for _ in 0..2 {
        let lines = record(&mut db, "a", "failure", None, None).expect("recorded");
        assert_eq!(lines.len(), 3);
    }
    let lines = render_all(&record(&mut db, "a", "failure", Some("broke"), None).expect("recorded"));
    assert_eq!(lines.len(), 5);
    assert_eq!(lines[3], "");
    assert_eq!(lines[4], "  ! 3 failures accumulated \u{2014} consider running `grove evolve a`");
    let lines = record(&mut db, "a", "partial", None, None).expect("recorded");
    assert_eq!(lines.len(), 3);
}

#[test]
fn record_errors() {
    let mut db = store(vec![row(skill("s1", "a", 0, 0, 0))], vec![], vec![]);
    assert!(matches!(record(&mut db, "a", "great", None, None), Err(CommandError::Grove(GroveError::InvalidOutcome(o))) if o == "great"));
    assert!(matches!(record(&mut db, "b", "success", None, None), Err(CommandError::Grove(GroveError::SkillNotFound(p))) if p == "b"));
    assert_eq!(db.observation_count(), 0);
}

#[test]
fn show_reports_metadata_and_pending() {
    let mut s = skill("s1", "coding/review", 4, 3, 1);
    s.description = "Use for code review tasks".into();
    s.evolved_at = Some("2024-02-01T00:00:00+00:00".into());
    let db = store(
        vec![row(s)],
        vec![
            obs("o2", "s1", "failure", None, Some("add checklist"), "2024-01-03T10:00:00+00:00"),
            obs("o1", "s1", "success", Some("caught race"), None, "2024-01-02T10:00:00+00:00"),
        ],
        vec![],
    );
    let rep = show(&db, "coding/review").ok().expect("found");
    assert_eq!(
        render_all(&rep.head),
        vec![
            "--- coding/review ---",
            "  name:        review",
            "  version:     1",
            "  source:      native",
            "  description: Use for code review tasks",
            "  usage:       4 total, 3 success, 1 failure",
            "  success rate: 75%",
            "  created:     2024-01-01T00:00:00+00:00",
            "  evolved:     2024-02-01T00:00:00+00:00",
            "  id:          s1",
            "  hash:        0123456789ab",
        ]
    );
    assert_eq!(
        render_all(&rep.pending),
        vec![
            "",
            "--- Pending observations (2) ---",
            "  [success] 2024-01-02 \u{2014} caught race",
            "  [failure] 2024-01-03 \u{2014} (no context)",
            "    suggestion: add checklist",
        ]
    );
    assert!(matches!(show(&db, "nope"), Err(GroveError::SkillNotFound(p)) if p == "nope"));
}

#[test]
fn history_lists_versions_newest_first() {
    let db = store(
        vec![row(Skill { version: 2, ..skill("s1", "a", 0, 0, 0) })],
        vec![],
        vec![
            VersionRecord {
                id: "v1".into(),
                skill_id: "s1".into(),
                version: 1,
                content_hash: "aaaaaaaabbbbbbbb".into(),
                description: "initial".into(),
                created_at: "t1".into(),
            },
            VersionRecord {
                id: "v2".into(),
                skill_id: "s1".into(),
                version: 2,
                content_hash: "ccccccccdddddddd".into(),
                description: "evolved from 2 observations".into(),
                created_at: "t2".into(),
            },
        ],
    );
    assert_eq!(
        render_all(&history(&db, "a").ok().expect("found")),
        vec![
            "--- History: a ---",
            "  current version: 2",
            "",
            "  v2 [cccccccc] evolved from 2 observations <- current",
            "    t2",
            "  v1 [aaaaaaaa] initial",
            "    t1",
        ]
    );
    let db = store(vec![row(skill("s1", "a", 0, 0, 0))], vec![], vec![]);
    assert_eq!(
        render_all(&history(&db, "a").ok().expect("found")),
        vec!["--- History: a ---", "  current version: 1", "", "  (no version history)"]
    );
    assert!(matches!(history(&db, "b"), Err(GroveError::SkillNotFound(_))));
}

#[test]
fn prune_archives_or_deletes() {
    let mut db = store(vec![row(skill("s1", "a", 0, 0, 0)), row(skill("s2", "b", 0, 0, 0))], vec![], vec![]);
    assert!(prune_check(&db, "a").is_ok());
    assert_eq!(render_all(&prune(&mut db, "a", true).ok().expect("pruned")), vec!["Archived skill: a -> archive/a"]);
    assert!(db.get_skill_by_path("a").is_none());
    assert_eq!(db.skill_rows().len(), 2);
    assert_eq!(render_all(&prune(&mut db, "b", false).ok().expect("pruned")), vec!["Pruned skill: b"]);
    assert_eq!(db.skill_rows().len(), 1);
    assert!(matches!(prune(&mut db, "a", false), Err(GroveError::SkillNotFound(p)) if p == "a"));
    assert!(matches!(prune_check(&db, "b"), Err(GroveError::SkillNotFound(_))));
}

#[test]
fn grow_plan_checks_path_and_existence() {
    let db = store(vec![row(skill("s1", "coding", 0, 0, 0))], vec![], vec![]);
    assert!(matches!(grow_plan(&db, "bad path", None), Err(GroveError::InvalidPath(p)) if p == "bad path"));
    assert!(matches!(grow_plan(&db, "coding", None), Err(GroveError::SkillExists(p)) if p == "coding"));
    let plan = grow_plan(&db, "coding/review", Some("Use it")).ok().expect("plan");
    assert_eq!(plan.name, "review");
    assert_eq!(plan.description, "Use it");
}

#[test]
fn grow_content_from_templates() {
    let db = Database::new();
    let plan = grow_plan(&db, "x", Some("d")).ok().expect("plan");
    assert_eq!(grow_content(&plan, None).ok().unwrap(), default_skill_content("x", "d"));
    let t = TemplateRead { path: "other".into(), is_skill: true, text: Some("copied".into()) };
    assert_eq!(grow_content(&plan, Some(t)).ok().unwrap(), "copied");
    let t = TemplateRead { path: "other".into(), is_skill: true, text: None };
    assert_eq!(grow_content(&plan, Some(t)).ok().unwrap(), default_skill_content("x", "d"));
    let t = TemplateRead { path: "/no/file".into(), is_skill: false, text: None };
    assert!(matches!(grow_content(&plan, Some(t)), Err(GroveError::SkillNotFound(p)) if p == "/no/file"));
}

#[test]
fn grow_records_skill_under_parent() {
    let mut db = store(vec![row(skill("p1", "coding", 0, 0, 0))], vec![], vec![]);
    assert_eq!(find_parent_id(&db, "coding/review"), Some("p1".to_string()));
    assert_eq!(find_parent_id(&db, "other/review"), None);
    let plan = grow_plan(&db, "coding/review", Some("Use it")).ok().expect("plan");
    let content = grow_content(&plan, None).ok().unwrap();
    let lines = render_all(&grow_record(&mut db, "coding/review", &plan, &content).ok().expect("grown"));
    let s = db.get_skill_by_path("coding/review").unwrap();
    assert_eq!(lines, vec![
        "Grew skill: coding/review".to_string(),
        format!("  id: {}", s.id),
        "  version: 1".to_string(),
        "  parent: p1".to_string(),
    ]);
    assert_eq!(s.parent_id, Some("p1".to_string()));
    assert_eq!(s.source, "native");
    assert_eq!(s.description, "Use it");
    assert_eq!(s.content_hash, content_hash(&content));
    let again = grow_record(&mut db, "coding/review", &plan, &content);
    match again {
        Err(e) => assert_eq!(e.message(), "UNIQUE constraint failed: skills.path"),
        Ok(_) => panic!("expected a refusal"),
    }
}

#[test]
fn evolve_flow() {
    let mut db = store(
        vec![row(skill("s1", "a", 3, 1, 2))],
        vec![
            obs("o1", "s1", "failure", Some("missed injection"), Some("add security patterns"), "2024-01-01"),
            obs("o2", "s1", "success", Some("ok"), None, "2024-01-02"),
            obs("o3", "s1", "failure", None, Some("be careful"), "2024-01-03"),
        ],
        vec![],
    );
    let plan = evolve_plan(&db, "a").ok().expect("plan");
    assert_eq!(plan.failures, vec!["missed injection".to_string()]);
    assert_eq!(plan.suggestions, vec!["add security patterns".to_string(), "be careful".to_string()]);
    assert_eq!(
        render_all(&plan.lines),
        vec![
            "--- Evolve: a ---",
            "  3 unconsumed observations:",
            "",
            "  [failure] missed injection",
            "    -> add security patterns",
            "  [success] ok",
            "  [failure] (no context)",
            "    -> be careful",
        ]
    );
    assert_eq!(
        render_all(&dry_run_lines(&plan)),
        vec![
            "",
            "(dry run \u{2014} no changes applied)",
            "",
            "Recommended actions:",
            "  - Add gotchas section addressing 1 failure(s)",
            "  - Incorporate 2 suggestion(s) into SKILL.md",
            "  - Run without --dry-run to apply evolution",
        ]
    );
    let content = evolved_content("# a\n", &plan.failures, &plan.suggestions);
    assert_eq!(
        content,
        "# a\n\n\n## Gotchas (auto-evolved)\n\n- FAILURE: missed injection\n- SUGGESTION: add security patterns\n- SUGGESTION: be careful\n"
    );
    let lines = render_all(&apply_evolution(&mut db, "a", &plan, &content).ok().expect("evolved"));
    assert_eq!(
        lines,
        vec![
            "",
            "Evolved a to v2",
            "  processed 3 observation(s)",
            "  1 failure(s) added as gotchas",
            "  2 suggestion(s) incorporated",
        ]
    );
    let s = db.get_skill_by_path("a").unwrap();
    assert_eq!(s.version, 2);
    assert_eq!(s.content_hash, content_hash(&content));
    assert!(db.get_observations("s1", true).is_empty());
    let vs = db.get_versions("s1");
    assert_eq!(vs[0].description, "evolved from 3 observations");
    let plan = evolve_plan(&db, "a").ok().expect("plan");
    assert_eq!(render_all(&plan.lines), vec!["No unconsumed observations for a. Nothing to evolve."]);
    assert!(matches!(evolve_plan(&db, "zz"), Err(GroveError::SkillNotFound(_))));
}

#[test]
fn evolved_content_keeps_content_without_findings() {
    assert_eq!(evolved_content("same", &vec![], &vec![]), "same");
}

#[test]
fn list_table_and_flat() {
    let mut a = skill("s1", "coding/review", 4, 3, 1);
    a.description = "Use for code review tasks".into();
    let mut b = skill("s2", "debugging", 0, 0, 0);
    b.description = "A description that is certainly longer than thirty bytes".into();
    let c = skill("s3", "zeta", 0, 0, 0);
    let db = store(vec![row(c), row(b), row(a)], vec![], vec![]);
    let table = render_all(&list(&db, false));
    assert_eq!(table[0], format!("{:<30} {:>5} {:>6} {:>5}  {}", "PATH", "VER", "USAGE", "RATE", "DESCRIPTION"));
    assert_eq!(table[1], "-".repeat(80));
    assert_eq!(table[2], format!("{:<30} {:>5} {:>6} {:>5}  {}", "coding/review", "v1", 4, "75%", "Use for code review tasks"));
    assert_eq!(table[3], format!("{:<30} {:>5} {:>6} {:>5}  {}", "debugging", "v1", 0, "-", "A description that is certa..."));
    assert_eq!(table[4], format!("{:<30} {:>5} {:>6} {:>5}  {}", "zeta", "v1", 0, "-", "(no description)"));
    assert_eq!(table[5], "");
    assert_eq!(table[6], "3 skill(s)");
    let flat = render_all(&list(&db, true));
    assert_eq!(flat[0], format!("{:<30} v{:<3} {:>4}x  {}", "coding/review", 1, 4, "Use for code review tasks"));
    assert_eq!(flat[2], format!("{:<30} v{:<3} {:>4}x  {}", "zeta", 1, 0, "(no description)"));
    assert_eq!(flat.len(), 5);
    let empty = Database::new();
    assert_eq!(render_all(&list(&empty, true)), vec!["(empty grove \u{2014} run `grove grow <path>` to plant skills)"]);
}

#[test]
fn tree_draws_positions() {
    let db = store(
        vec![
            row(skill("1", "debugging/systematic", 0, 0, 0)),
            row(skill("2", "coding/review/security", 0, 0, 0)),
            row(skill("3", "coding/review", 4, 3, 1)),
        ],
        vec![],
        vec![],
    );
    assert_eq!(
        render_all(&tree(&db, None, false)),
        vec![
            "grove",
            "\u{251c}\u{2500}\u{2500} coding",
            "\u{2502}   \u{2514}\u{2500}\u{2500} review",
            "\u{2502}       \u{2514}\u{2500}\u{2500} security",
            "\u{2514}\u{2500}\u{2500} debugging",
            "    \u{2514}\u{2500}\u{2500} systematic",
        ]
    );
    assert_eq!(
        render_all(&tree(&db, Some(1), true)),
        vec!["grove", "\u{251c}\u{2500}\u{2500} coding", "\u{2514}\u{2500}\u{2500} debugging"]
    );
    let lines = render_all(&tree(&db, Some(3), true));
    assert_eq!(lines[2], "\u{2502}   \u{2514}\u{2500}\u{2500} review (v1, 4x, 75%)");
    assert_eq!(lines[3], "\u{2502}       \u{2514}\u{2500}\u{2500} security (v1)");
    assert_eq!(
        render_all(&tree(&Database::new(), None, false)),
        vec!["(empty grove \u{2014} run `grove grow <path>` to plant skills)"]
    );
}

#[test]
fn health_dashboard() {
    let db = store(
        vec![
            row(skill("1", "coding/review", 4, 3, 1)),
            row(skill("2", "coding/style", 2, 0, 2)),
            row(skill("3", "debugging", 0, 0, 0)),
        ],
        vec![obs("o1", "2", "failure", None, None, "t")],
        vec![],
    );
    assert_eq!(
        render_all(&health(&db, None)),
        vec![
            "--- Grove Health ---",
            "",
            "  Skills:   3",
            "  Usage:    6",
            "  Success:  3 (50%)",
            "  Failure:  3",
            "",
            "  Most used:",
            &format!("    {:<25} 4x  (75% success)", "coding/review"),
            &format!("    {:<25} 2x  (0% success)", "coding/style"),
            "",
            "  Needs evolution (high failure rate):",
            &format!("    {:<25} 100% failure (2/2)", "coding/style"),
            &format!("    {:<25} 25% failure (1/4)", "coding/review"),
            "",
            "  Never used (1):",
            "    debugging",
            "",
            "  Pending evolution:",
            &format!("    {:<25} 1 observation(s) to process", "coding/style"),
            "",
        ]
    );
    let sub = render_all(&health(&db, Some("debug")));
    assert_eq!(sub[2], "  Skills:   1");
    assert_eq!(sub[3], "  Usage:    0");
    assert_eq!(render_all(&health(&db, Some("nothing"))), vec!["No skills found."]);
}

#[test]
fn stats_overview() {
    let db = store(
        vec![
            row(skill("1", "a", 4, 3, 1)),
            row(Skill { version: 3, ..skill("2", "b", 2, 0, 2) }),
            row(skill("3", "c", 0, 0, 0)),
        ],
        vec![obs("o1", "2", "failure", None, None, "t"), obs("o2", "1", "success", None, None, "t")],
        vec![],
    );
    assert_eq!(
        render_all(&stats(&db).ok().expect("stats")),
        vec![
            "--- Grove Stats ---",
            "",
            "  Skills:       3",
            "  Observations: 2",
            "  Total usage:  6",
            "  Success rate: 50% (3/6)",
            "  Failures:     3",
            "",
            "  Top skills by usage:",
            &format!("    {:<25} 4x (v1)", "a"),
            &format!("    {:<25} 2x (v3)", "b"),
            "",
            "  Needs attention:",
            &format!("    {:<25} 100% failure rate", "b"),
            &format!("    {:<25} 25% failure rate", "a"),
        ]
    );
    let empty = render_all(&stats(&Database::new()).ok().expect("stats"));
    assert_eq!(empty, vec!["--- Grove Stats ---", "", "  Skills:       0", "  Observations: 0", "  Total usage:  0", ""]);
    let full = store(vec![row(skill("1", "a", grove::db::STORE_MAX, 0, 0)), row(skill("2", "b", 1, 0, 0))], vec![], vec![]);
    match stats(&full) {
        Err(e) => {
            assert!(matches!(e, DbError::SumOverflow));
            assert_eq!(e.message(), "integer overflow");
        }
        Ok(_) => panic!("expected a refusal"),
    }
}

#[test]
fn merge_helpers() {
    let mut db = store(vec![row(skill("p", "tools", 0, 0, 0))], vec![], vec![]);
    assert!(merge_skip(&db, "tools/x").is_none());
    let content = "---\ndescription: Imported thing\n---\nbody";
    let line = render(&merge_record(&mut db, "tools/x", "x", content).ok().expect("merged"));
    let s = db.get_skill_by_path("tools/x").unwrap();
    assert_eq!(line, format!("  merge: tools/x ({})", &s.id[..8]));
    assert_eq!(s.source, "merged");
    assert_eq!(s.description, "Imported thing");
    assert_eq!(s.parent_id, Some("p".to_string()));
    assert_eq!(s.content_hash, content_hash(content));
    assert_eq!(render(&merge_skip(&db, "tools/x").expect("skip")), "  skip: tools/x (already exists)");
    merge_record(&mut db, "plain", "plain", "no frontmatter").ok().expect("merged");
    assert_eq!(db.get_skill_by_path("plain").unwrap().description, "");
    assert_eq!(render_all(&merge_summary(2, 1)), vec!["", "Merged 2 skill(s), skipped 1 (already exist)"]);
}

#[test]
fn tree_reaches_every_level() {
    let db = store(vec![row(skill("1", "a/b/c/d/e/f", 0, 0, 0)), row(skill("2", "a/x", 0, 0, 0))], vec![], vec![]);
    let lines = render_all(&tree(&db, None, false));
    assert_eq!(lines.len(), 8);
    assert_eq!(lines[1], "\u{2514}\u{2500}\u{2500} a");
    assert_eq!(lines[2], "    \u{251c}\u{2500}\u{2500} b");
    assert_eq!(lines[6], "    \u{2502}               \u{2514}\u{2500}\u{2500} f");
    assert_eq!(lines[7], "    \u{2514}\u{2500}\u{2500} x");
}

#[test]
fn evolve_decides_its_action() {
    let mut db = store(
        vec![row(skill("s1", "a", 1, 0, 1))],
        vec![obs("o1", "s1", "failure", Some("broke"), None, "2024-01-01")],
        vec![],
    );
    let plan = evolve_plan(&db, "a").ok().expect("plan");
    assert!(matches!(evolve_action(&plan, true), EvolveAction::Preview));
    assert!(matches!(evolve_action(&plan, false), EvolveAction::Apply));
    apply_evolution(&mut db, "a", &plan, "new").ok().expect("evolved");
    let again = evolve_plan(&db, "a").ok().expect("plan");
    assert!(matches!(evolve_action(&again, false), EvolveAction::Nothing));
    assert!(matches!(evolve_action(&again, true), EvolveAction::Nothing));
}

#[test]
fn record_refusal_shows_store_message() {
    let mut db = store(vec![row(skill("s1", "a", grove::db::STORE_MAX, 0, 0))], vec![], vec![]);
    match record(&mut db, "a", "success", None, None) {
        Err(e) => assert_eq!(e.message(), "integer overflow"),
        Ok(_) => panic!("expected a refusal"),
    }
    match record(&mut db, "a", "meh", None, None) {
        Err(e) => assert_eq!(e.message(), "invalid outcome: meh. Use: success, failure, or partial"),
        Ok(_) => panic!("expected a refusal"),
    }
}

#[test]
fn stats_succeed_whenever_sums_fit() {
    let db = store(
        vec![row(skill("1", "a", grove::db::STORE_MAX, 0, 0)), row(skill("2", "b", 0, 0, 0))],
        vec![],
        vec![],
    );
    let lines = render_all(&stats(&db).ok().expect("sums fit"));
    assert_eq!(lines[4], format!("  Total usage:  {}", grove::db::STORE_MAX));
}

#[test]
fn template_is_skill_only_for_live_skills() {
    let mut db = store(vec![row(skill("1", "a", 0, 0, 0)), row(skill("2", "b", 0, 0, 0))], vec![], vec![]);
    assert!(db.archive_skill("b"));
    assert!(template_is_skill(&db, "a"));
    assert!(!template_is_skill(&db, "b"));
    assert!(!template_is_skill(&db, "/some/file.md"));
}
