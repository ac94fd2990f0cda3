use grove::db::{Database, DbError, Observation, Skill, SkillRow, VersionRecord, STORE_MAX};
use grove::error::GroveError;

fn skill(id: &str, path: &str, usage: u64, success: u64, failure: u64) -> Skill {
    Skill {
        id: id.to_string(),
        name: path.rsplit('/').next().unwrap().to_string(),
        path: path.to_string(),
        description: String::new(),
        version: 1,
        parent_id: None,
        source: "native".to_string(),
        usage_count: usage,
        success_count: success,
        failure_count: failure,
        created_at: "2024-01-01T00:00:00+00:00".to_string(),
        evolved_at: None,
        content_hash: "0123456789abcdef0123456789abcdef0123456789abcdef0123456789abcdef".to_string(),
    }
}

fn row(s: Skill) -> SkillRow {
    SkillRow { skill: s, archived: false }
}

fn obs(id: &str, skill_id: &str, outcome: &str, at: &str, consumed: bool) -> Observation {
    Observation {
        id: id.to_string(),
        skill_id: skill_id.to_string(),
        outcome: outcome.to_string(),
        context: None,
        suggestion: None,
        created_at: at.to_string(),
        consumed,
    }
}

fn ver(id: &str, skill_id: &str, version: u32) -> VersionRecord {
    VersionRecord {
        id: id.to_string(),
        skill_id: skill_id.to_string(),
        version,
        content_hash: "h".to_string(),
        description: "d".to_string(),
        created_at: "t".to_string(),
    }
}

fn store(rows: Vec<SkillRow>) -> Database {
    Database::from_rows(rows, Vec::new(), Vec::new()).expect("valid rows")
}

fn is_v4_uuid(s: &str) -> bool {
    let b = s.as_bytes();
    b.len() == 36
        && b[8] == b'-'
        && b[13] == b'-'
        && b[18] == b'-'
        && b[23] == b'-'
        && b[14] == b'4'
        && matches!(b[19], b'8' | b'9' | b'a' | b'b')
        && s.chars().enumerate().all(|(i, c)| [8, 13, 18, 23].contains(&i) || c.is_ascii_hexdigit() && !c.is_ascii_uppercase())
}

#[test]
fn inserted_skill_is_found() {
    let mut db = Database::new();
    let id = db.insert_skill("review", "coding/review", "Use it", None, "native", "abc").expect("insert");
    assert!(is_v4_uuid(&id));
    let s = db.get_skill_by_path("coding/review").expect("found");
    assert_eq!(s.id, id);
    assert_eq!(s.name, "review");
    assert_eq!(s.description, "Use it");
    assert_eq!(s.version, 1);
    assert_eq!(s.source, "native");
    assert_eq!((s.usage_count, s.success_count, s.failure_count), (0, 0, 0));
    assert_eq!(s.content_hash, "abc");
    assert!(s.evolved_at.is_none());
    assert!(s.created_at.contains('T') && s.created_at.ends_with("+00:00"));
    let vs = db.get_versions(&id);
    assert_eq!(vs.len(), 1);
    assert_eq!(vs[0].version, 1);
    assert_eq!(vs[0].description, "initial");
    assert_eq!(vs[0].content_hash, "abc");
    assert_eq!(vs[0].created_at, s.created_at);
    assert!(is_v4_uuid(&vs[0].id));
    assert_ne!(vs[0].id, id);
}

#[test]
fn taken_path_refuses_insert() {
    let mut db = Database::new();
    db.insert_skill("a", "a", "", None, "native", "h").expect("insert");
    assert!(matches!(db.insert_skill("a", "a", "", None, "native", "h"), Err(DbError::DuplicatePath)));
    assert_eq!(db.skill_rows().len(), 1);
}

#[test]
fn archived_path_still_refuses_insert() {
    let mut db = Database::new();
    db.insert_skill("a", "a", "", None, "native", "h").expect("insert");
    assert!(db.archive_skill("a"));
    assert!(matches!(db.insert_skill("a", "a", "", None, "native", "h"), Err(DbError::DuplicatePath)));
}

#[test]
fn insert_with_taken_ids() {
    let mut db = Database::new();
    db.insert_skill_with("s1".into(), "v1".into(), "t".into(), "a", "a", "", None, "native", "h").expect("insert");
    assert!(matches!(
        db.insert_skill_with("s1".into(), "v2".into(), "t".into(), "b", "b", "", None, "native", "h"),
        Err(DbError::DuplicateSkillId)
    ));
    assert!(matches!(
        db.insert_skill_with("s2".into(), "v1".into(), "t".into(), "c", "c", "", Some("s1"), "native", "h"),
        Err(DbError::DuplicateVersionId)
    ));
    let c = db.get_skill_by_path("c").expect("skill kept");
    assert_eq!(c.parent_id, Some("s1".to_string()));
    assert_eq!(db.all_versions().len(), 1);
}

#[test]
fn archived_skill_is_hidden() {
    let mut db = store(vec![row(skill("1", "a", 0, 0, 0)), row(skill("2", "b", 0, 0, 0))]);
    assert!(db.archive_skill("a"));
    assert!(db.get_skill_by_path("a").is_none());
    assert!(!db.archive_skill("a"));
    assert!(!db.archive_skill("zzz"));
    assert_eq!(db.skill_count(), 1);
    assert_eq!(db.list_skills().len(), 1);
    assert_eq!(db.skill_rows().len(), 2);
}

#[test]
fn deleted_path_is_free() {
    let mut db = store(vec![row(skill("1", "a", 0, 0, 0))]);
    assert!(db.delete_skill("a"));
    assert!(!db.delete_skill("a"));
    assert!(db.get_skill_by_path("a").is_none());
    assert!(db.insert_skill("a", "a", "", None, "native", "h").is_ok());
}

#[test]
fn delete_removes_archived_skill_too() {
    let mut db = Database::from_rows(vec![SkillRow { skill: skill("1", "a", 0, 0, 0), archived: true }], vec![], vec![])
        .expect("rows");
    assert!(db.delete_skill("a"));
    assert_eq!(db.skill_rows().len(), 0);
}

#[test]
fn observations_count_uses() {
    let mut db = store(vec![row(skill("1", "a", 0, 0, 0))]);
    db.insert_observation("1", "success", Some("ok"), None).expect("obs");
    db.insert_observation("1", "failure", None, Some("fix")).expect("obs");
    db.insert_observation("1", "partial", None, None).expect("obs");
    let s = db.get_skill_by_path("a").unwrap();
    assert_eq!((s.usage_count, s.success_count, s.failure_count), (3, 1, 1));
    assert_eq!(db.observation_count(), 3);
    let all = db.get_observations("1", false);
    assert_eq!(all.len(), 3);
    assert!(all.iter().all(|o| !o.consumed && is_v4_uuid(&o.id)));
    let f = all.iter().find(|o| o.outcome == "failure").unwrap();
    assert_eq!(f.suggestion, Some("fix".to_string()));
}

#[test]
fn observation_of_unknown_skill_changes_no_counter() {
    let mut db = store(vec![row(skill("1", "a", 0, 0, 0))]);
    db.insert_observation("nope", "success", None, None).expect("obs");
    assert_eq!(db.observation_count(), 1);
    assert_eq!(db.get_skill_by_path("a").unwrap().usage_count, 0);
}

#[test]
fn taken_observation_id_is_refused() {
    let mut db = store(vec![row(skill("1", "a", 0, 0, 0))]);
    db.insert_observation_with("o1".into(), "t1".into(), "1", "success", None, None).expect("obs");
    assert!(matches!(
        db.insert_observation_with("o1".into(), "t2".into(), "1", "success", None, None),
        Err(DbError::DuplicateObservationId)
    ));
    assert_eq!(db.get_skill_by_path("a").unwrap().usage_count, 1);
}

#[test]
fn full_counter_is_refused() {
    let mut db = store(vec![row(skill("1", "a", STORE_MAX, 0, STORE_MAX))]);
    assert!(matches!(db.insert_observation("1", "partial", None, None), Err(DbError::CounterOverflow)));
    assert_eq!(db.observation_count(), 0);
    let mut db = store(vec![row(skill("1", "a", 5, 0, STORE_MAX))]);
    assert!(matches!(db.insert_observation("1", "failure", None, None), Err(DbError::CounterOverflow)));
    assert!(db.insert_observation("1", "success", None, None).is_ok());
}

#[test]
fn from_rows_checks_constraints() {
    assert!(matches!(
        Database::from_rows(vec![row(skill("1", "a", 0, 0, 0)), row(skill("2", "a", 0, 0, 0))], vec![], vec![]),
        Err(DbError::DuplicatePath)
    ));
    assert!(matches!(
        Database::from_rows(vec![row(skill("1", "a", 0, 0, 0)), row(skill("1", "b", 0, 0, 0))], vec![], vec![]),
        Err(DbError::DuplicateSkillId)
    ));
    assert!(matches!(
        Database::from_rows(vec![], vec![obs("o", "1", "success", "t", false), obs("o", "1", "success", "t", false)], vec![]),
        Err(DbError::DuplicateObservationId)
    ));
    assert!(matches!(
        Database::from_rows(vec![], vec![], vec![ver("v", "1", 1), ver("v", "1", 2)]),
        Err(DbError::DuplicateVersionId)
    ));
    assert!(matches!(
        Database::from_rows(vec![row(skill("1", "a", STORE_MAX + 1, 0, 0))], vec![], vec![]),
        Err(DbError::CounterOverflow)
    ));
}

#[test]
fn evolution_bumps_version() {
    let mut db = Database::new();
    let id = db.insert_skill("a", "a", "", None, "native", "h1").expect("insert");
    assert!(matches!(db.update_skill_content("a", "h2", "evolved from 2 observations"), Ok(true)));
    let s = db.get_skill_by_path("a").unwrap();
    assert_eq!(s.version, 2);
    assert_eq!(s.content_hash, "h2");
    assert!(s.evolved_at.is_some());
    let vs = db.get_versions(&id);
    assert_eq!(vs.iter().map(|v| v.version).collect::<Vec<_>>(), vec![2, 1]);
    assert_eq!(vs[0].description, "evolved from 2 observations");
    assert_eq!(vs[0].content_hash, "h2");
    assert!(matches!(db.update_skill_content("missing", "h", "d"), Ok(false)));
}

#[test]
fn consumed_observations_are_gone() {
    let mut db = Database::from_rows(
        vec![row(skill("1", "a", 0, 0, 0)), row(skill("2", "b", 0, 0, 0))],
        vec![
            obs("o1", "1", "success", "2024-01-02", false),
            obs("o2", "1", "failure", "2024-01-01", false),
            obs("o3", "1", "failure", "2024-01-03", true),
            obs("o4", "2", "failure", "2024-01-01", false),
        ],
        vec![],
    )
    .expect("rows");
    let pending = db.get_observations("1", true);
    assert_eq!(pending.iter().map(|o| o.id.as_str()).collect::<Vec<_>>(), vec!["o2", "o1"]);
    let all = db.get_observations("1", false);
    assert_eq!(all.iter().map(|o| o.id.as_str()).collect::<Vec<_>>(), vec!["o2", "o1", "o3"]);
    assert_eq!(db.mark_observations_consumed("1"), 2);
    assert!(db.get_observations("1", true).is_empty());
    assert_eq!(db.get_observations("2", true).len(), 1);
    assert_eq!(db.mark_observations_consumed("1"), 0);
}

#[test]
fn totals_match_listed_skills() {
    let mut db = store(vec![
        row(skill("1", "a", 4, 3, 1)),
        row(skill("2", "b", 2, 0, 2)),
        row(skill("3", "c", 10, 10, 0)),
    ]);
    assert!(db.archive_skill("c"));
    assert!(matches!(db.total_usage(), Ok(6)));
    assert!(matches!(db.total_successes(), Ok(3)));
    assert!(matches!(db.total_failures(), Ok(3)));
    let listed: u64 = db.list_skills().iter().map(|s| s.usage_count).sum();
    assert_eq!(listed, 6);
}

#[test]
fn totals_beyond_store_max_are_refused() {
    let db = store(vec![row(skill("1", "a", STORE_MAX, 0, 0)), row(skill("2", "b", 1, 0, 0))]);
    assert!(matches!(db.total_usage(), Err(DbError::SumOverflow)));
    assert!(matches!(db.total_successes(), Ok(0)));
}

#[test]
fn list_is_ordered_by_path() {
    let db = store(vec![row(skill("1", "b/c", 0, 0, 0)), row(skill("2", "a", 0, 0, 0)), row(skill("3", "b", 0, 0, 0))]);
    let paths: Vec<String> = db.list_skills().into_iter().map(|s| s.path).collect();
    assert_eq!(paths, vec!["a", "b", "b/c"]);
}

#[test]
fn top_skills_by_usage() {
    let db = store(vec![
        row(skill("1", "a", 1, 1, 0)),
        row(skill("2", "b", 9, 1, 0)),
        row(skill("3", "c", 5, 1, 0)),
        row(skill("4", "d", 0, 0, 0)),
    ]);
    let top = db.top_skills(2);
    assert_eq!(top.iter().map(|s| s.path.as_str()).collect::<Vec<_>>(), vec!["b", "c"]);
    assert_eq!(db.top_skills(10).len(), 4);
    assert_eq!(db.top_skills(0).len(), 0);
}

#[test]
fn struggling_skills_by_failure_rate() {
    let db = store(vec![
        row(skill("1", "a", 4, 3, 1)),
        row(skill("2", "b", 3, 0, 2)),
        row(skill("3", "c", 1, 0, 1)),
        row(skill("4", "d", 0, 0, 0)),
    ]);
    let bad = db.struggling_skills(3);
    assert_eq!(bad.iter().map(|s| s.path.as_str()).collect::<Vec<_>>(), vec!["c", "b", "a"]);
    assert_eq!(db.struggling_skills(1).len(), 1);
}

#[test]
fn store_refusals_have_store_messages() {
    assert_eq!(DbError::DuplicatePath.message(), "UNIQUE constraint failed: skills.path");
    assert_eq!(DbError::DuplicateSkillId.message(), "UNIQUE constraint failed: skills.id");
    assert_eq!(DbError::DuplicateObservationId.message(), "UNIQUE constraint failed: observations.id");
    assert_eq!(DbError::DuplicateVersionId.message(), "UNIQUE constraint failed: versions.id");
    assert_eq!(DbError::CounterOverflow.message(), "integer overflow");
    assert_eq!(DbError::SumOverflow.message(), "integer overflow");
}

#[test]
fn current_version_stays_recorded() {
    let mut db = Database::new();
    let id = db.insert_skill("a", "a", "", None, "native", "h1").expect("insert");
    db.insert_observation(&id, "failure", Some("x"), None).expect("obs");
    assert!(matches!(db.update_skill_content("a", "h2", "evolved from 1 observations"), Ok(true)));
    assert!(matches!(db.update_skill_content("a", "h3", "evolved from 0 observations"), Ok(true)));
    let s = db.get_skill_by_path("a").unwrap();
    assert_eq!(s.version, 3);
    let vs = db.get_versions(&id);
    assert_eq!(vs.len(), 3);
    assert!(vs.iter().any(|v| v.version == s.version && v.content_hash == s.content_hash));
    assert!(db.archive_skill("a"));
    assert!(db.get_versions(&id).iter().any(|v| v.version == 3 && v.content_hash == "h3"));
}

#[test]
fn new_skill_has_only_its_initial_version() {
    let mut db = Database::new();
    let id = db.insert_skill("a", "a", "", None, "native", "h1").expect("insert");
    let vs = db.get_versions(&id);
    assert_eq!(vs.len(), 1);
    assert_eq!((vs[0].version, vs[0].description.as_str(), vs[0].content_hash.as_str()), (1, "initial", "h1"));
    let s = db.get_skill_by_path("a").unwrap();
    assert!(s.created_at.contains('T') && s.created_at.ends_with("+00:00"));
}

#[test]
fn updates_list_versions_newest_first() {
    let mut db = Database::new();
    let id = db.insert_skill("a", "a", "d", None, "native", "h0").expect("insert");
    let before = db.get_skill_by_path("a").unwrap();
    for k in 1..=3 {
        assert!(matches!(db.update_skill_content("a", &format!("h{k}"), &format!("e{k}")), Ok(true)));
    }
    let vs = db.get_versions(&id);
    assert_eq!(vs.iter().map(|v| v.version).collect::<Vec<_>>(), vec![4, 3, 2, 1]);
    assert_eq!(vs[0].description, "e3");
    assert_eq!(vs[3].description, "initial");
    assert!(vs.iter().all(|v| v.skill_id == id));
    let after = db.get_skill_by_path("a").unwrap();
    assert_eq!(after.content_hash, "h3");
    assert_eq!((after.name, after.description, after.created_at), (before.name, before.description, before.created_at));
    assert!(after.evolved_at.unwrap().ends_with("+00:00"));
}

#[test]
fn listed_paths_strictly_increase_and_match_count() {
    let mut db = store(vec![row(skill("1", "b", 0, 0, 0)), row(skill("2", "a", 0, 0, 0)), row(skill("3", "a/b", 0, 0, 0))]);
    assert!(db.archive_skill("b"));
    let listed = db.list_skills();
    assert!(listed.windows(2).all(|w| w[0].path < w[1].path));
    assert_eq!(listed.len() as u64, db.skill_count());
}

#[test]
fn observation_is_added_once() {
    let mut db = store(vec![row(skill("1", "a", 0, 0, 0)), row(skill("2", "b", 5, 1, 1))]);
    let before = db.get_observations("1", true).len();
    let n0 = db.observation_count();
    let id = db.insert_observation("1", "failure", Some("c"), Some("s")).expect("obs");
    assert_eq!(db.observation_count(), n0 + 1);
    let pending = db.get_observations("1", true);
    assert_eq!(pending.len(), before + 1);
    let o = pending.iter().find(|o| o.id == id).unwrap();
    assert_eq!((o.outcome.as_str(), o.context.as_deref(), o.suggestion.as_deref(), o.consumed), ("failure", Some("c"), Some("s"), false));
    let b = db.get_skill_by_path("b").unwrap();
    assert_eq!((b.usage_count, b.success_count, b.failure_count), (5, 1, 1));
}

#[test]
fn consuming_twice_changes_nothing() {
    let mut db = Database::from_rows(
        vec![row(skill("1", "a", 0, 0, 0))],
        vec![obs("o1", "1", "success", "t1", false), obs("o2", "1", "failure", "t2", false)],
        vec![],
    )
    .expect("rows");
    assert_eq!(db.mark_observations_consumed("1"), 2);
    let ids: Vec<String> = db.get_observations("1", false).into_iter().map(|o| o.id).collect();
    assert_eq!(db.mark_observations_consumed("1"), 0);
    let again: Vec<String> = db.get_observations("1", false).into_iter().map(|o| o.id).collect();
    assert_eq!(ids, again);
    assert!(db.get_observations("1", false).iter().all(|o| o.consumed));
}
