//! The grove's metadata store: skills, observations and version records, with the
//! semantics of the tables and queries the grove keeps them in.
use vstd::prelude::*;
use vstd::string::StringExecFns;

use crate::error::GroveError;
use crate::order::{is_top_k, take_prefix, lemma_lex_total, lemma_lex_trans, lex_le, sort_by, sorted_by_le, text_le, total_preorder};

verus! {

/// The largest value an integer column can hold.
pub const STORE_MAX: u64 = 9223372036854775807u64;

/// One skill of the tree.
#[derive(Debug, Clone)]
pub struct Skill {
    pub id: String,
    pub name: String,
    pub path: String,
    pub description: String,
    pub version: u32,
    pub parent_id: Option<String>,
    pub source: String,
    pub usage_count: u64,
    pub success_count: u64,
    pub failure_count: u64,
    pub created_at: String,
    pub evolved_at: Option<String>,
    pub content_hash: String,
}

/// One recorded use of a skill.
#[derive(Debug, Clone)]
pub struct Observation {
    pub id: String,
    pub skill_id: String,
    pub outcome: String,
    pub context: Option<String>,
    pub suggestion: Option<String>,
    pub created_at: String,
    pub consumed: bool,
}

/// One version of a skill's content.
#[derive(Debug, Clone)]
pub struct VersionRecord {
    pub id: String,
    pub skill_id: String,
    pub version: u32,
    pub content_hash: String,
    pub description: String,
    pub created_at: String,
}

/// A stored skill and whether it has been archived.
#[derive(Debug, Clone)]
pub struct SkillRow {
    pub skill: Skill,
    pub archived: bool,
}

/// Why a store operation was refused.
#[derive(Debug)]
pub enum DbError {
    /// A skill (archived or not) already has this path.
    DuplicatePath,
    /// A skill already has this id.
    DuplicateSkillId,
    /// An observation already has this id.
    DuplicateObservationId,
    /// A version record already has this id.
    DuplicateVersionId,
    /// A usage counter is already at the largest storable value.
    CounterOverflow,
    /// A sum exceeds the largest storable value.
    SumOverflow,
}

/// The message of a refused store operation.
pub open spec fn db_error_message(e: DbError) -> Seq<char> {
    match e {
        DbError::DuplicatePath => "UNIQUE constraint failed: skills.path"@,
        DbError::DuplicateSkillId => "UNIQUE constraint failed: skills.id"@,
        DbError::DuplicateObservationId => "UNIQUE constraint failed: observations.id"@,
        DbError::DuplicateVersionId => "UNIQUE constraint failed: versions.id"@,
        DbError::CounterOverflow => "integer overflow"@,
        DbError::SumOverflow => "integer overflow"@,
    }
}

impl DbError {
    /// The message of a refused store operation, as the store reports it.
    pub fn message(&self) -> (r: String)
        ensures
            r@ == db_error_message(*self),
    {
        match self {
            DbError::DuplicatePath => String::from_str("UNIQUE constraint failed: skills.path"),
            DbError::DuplicateSkillId => String::from_str("UNIQUE constraint failed: skills.id"),
            DbError::DuplicateObservationId => String::from_str("UNIQUE constraint failed: observations.id"),
            DbError::DuplicateVersionId => String::from_str("UNIQUE constraint failed: versions.id"),
            DbError::CounterOverflow => String::from_str("integer overflow"),
            DbError::SumOverflow => String::from_str("integer overflow"),
        }
    }
}

/// Copies an optional string.
pub fn copy_opt(o: &Option<String>) -> (r: Option<String>)
    ensures
        r == *o,
{
    match o {
        Some(s) => Some(s.clone()),
        None => None,
    }
}

impl Skill {
    /// A copy of this skill.
    pub fn duplicate(&self) -> (r: Skill)
        ensures
            r == *self,
    {
        Skill {
            id: self.id.clone(),
            name: self.name.clone(),
            path: self.path.clone(),
            description: self.description.clone(),
            version: self.version,
            parent_id: copy_opt(&self.parent_id),
            source: self.source.clone(),
            usage_count: self.usage_count,
            success_count: self.success_count,
            failure_count: self.failure_count,
            created_at: self.created_at.clone(),
            evolved_at: copy_opt(&self.evolved_at),
            content_hash: self.content_hash.clone(),
        }
    }
}

impl Observation {
    /// A copy of this observation.
    pub fn duplicate(&self) -> (r: Observation)
        ensures
            r == *self,
    {
        Observation {
            id: self.id.clone(),
            skill_id: self.skill_id.clone(),
            outcome: self.outcome.clone(),
            context: copy_opt(&self.context),
            suggestion: copy_opt(&self.suggestion),
            created_at: self.created_at.clone(),
            consumed: self.consumed,
        }
    }
}

impl VersionRecord {
    /// A copy of this version record.
    pub fn duplicate(&self) -> (r: VersionRecord)
        ensures
            r == *self,
    {
        VersionRecord {
            id: self.id.clone(),
            skill_id: self.skill_id.clone(),
            version: self.version,
            content_hash: self.content_hash.clone(),
            description: self.description.clone(),
            created_at: self.created_at.clone(),
        }
    }
}

/// The contents of the store.
pub struct DbState {
    pub rows: Seq<SkillRow>,
    pub observations: Seq<Observation>,
    pub versions: Seq<VersionRecord>,
}

/// The store: skills (archived ones included), observations and version records.
pub struct Database {
    rows: Vec<SkillRow>,
    observations: Vec<Observation>,
    versions: Vec<VersionRecord>,
}

impl View for Database {
    type V = DbState;

    closed spec fn view(&self) -> DbState {
        DbState { rows: self.rows@, observations: self.observations@, versions: self.versions@ }
    }
}

/// The skills that are not archived, in stored order.
pub open spec fn live_skills(rows: Seq<SkillRow>) -> Seq<Skill>
    decreases rows.len(),
{
    if rows.len() == 0 {
        Seq::<Skill>::empty()
    } else {
        let r = live_skills(rows.drop_last());
        if !rows.last().archived {
            r.push(rows.last().skill)
        } else {
            r
        }
    }
}

/// A live skill is the skill of some row that is not archived.
pub proof fn lemma_live_skill_row(rows: Seq<SkillRow>, s: Skill)
    requires
        live_skills(rows).contains(s),
    ensures
        exists|i: int| 0 <= i < rows.len() && !rows[i].archived && (#[trigger] rows[i]).skill == s,
    decreases rows.len(),
{
    if rows.len() > 0 {
        let r = live_skills(rows.drop_last());
        if !rows.last().archived && s == rows.last().skill {
            assert(rows[rows.len() - 1].skill == s);
        } else {
            if !rows.last().archived {
                let j = choose|j: int| 0 <= j < live_skills(rows).len() && live_skills(rows)[j] == s;
                assert(live_skills(rows) == r.push(rows.last().skill));
                assert(j < r.len());
                assert(r[j] == s);
            }
            assert(r.contains(s));
            lemma_live_skill_row(rows.drop_last(), s);
            let i = choose|i: int| 0 <= i < rows.drop_last().len() && !rows.drop_last()[i].archived
                && (#[trigger] rows.drop_last()[i]).skill == s;
            assert(rows[i] == rows.drop_last()[i]);
        }
    }
}

/// Some stored skill (archived or not) has path `p`.
pub open spec fn path_taken(rows: Seq<SkillRow>, p: Seq<char>) -> bool {
    exists|i: int| 0 <= i < rows.len() && (#[trigger] rows[i]).skill.path@ == p
}

/// Some stored skill has id `id`.
pub open spec fn skill_id_taken(rows: Seq<SkillRow>, id: Seq<char>) -> bool {
    exists|i: int| 0 <= i < rows.len() && (#[trigger] rows[i]).skill.id@ == id
}

/// Some observation has id `id`.
pub open spec fn observation_id_taken(obs: Seq<Observation>, id: Seq<char>) -> bool {
    exists|i: int| 0 <= i < obs.len() && (#[trigger] obs[i]).id@ == id
}

/// Some version record has id `id`.
pub open spec fn version_id_taken(vs: Seq<VersionRecord>, id: Seq<char>) -> bool {
    exists|i: int| 0 <= i < vs.len() && (#[trigger] vs[i]).id@ == id
}

/// Row `i` is a live skill at path `p`.
pub open spec fn live_at(rows: Seq<SkillRow>, i: int, p: Seq<char>) -> bool {
    0 <= i < rows.len() && !rows[i].archived && rows[i].skill.path@ == p
}

/// The live skill at path `p`, if there is one.
pub open spec fn live_skill_at(rows: Seq<SkillRow>, p: Seq<char>) -> Option<Skill> {
    if exists|i: int| live_at(rows, i, p) {
        Some(rows[choose|i: int| live_at(rows, i, p)].skill)
    } else {
        None
    }
}

/// The counters of a skill fit in the store.
pub open spec fn counters_fit(s: Skill) -> bool {
    s.usage_count <= STORE_MAX && s.success_count <= STORE_MAX && s.failure_count <= STORE_MAX
}

/// Skills ordered by path.
pub open spec fn by_path() -> spec_fn(Skill, Skill) -> bool {
    |a: Skill, b: Skill| lex_le(a.path@, b.path@)
}

/// Skills ordered by usage, most used first.
pub open spec fn by_usage_desc() -> spec_fn(Skill, Skill) -> bool {
    |a: Skill, b: Skill| a.usage_count >= b.usage_count
}

/// The denominator of a skill's failure rate (its usage, at least one).
pub open spec fn rate_den(s: Skill) -> int {
    if s.usage_count == 0 { 1 } else { s.usage_count as int }
}

/// Skills ordered by failure rate (failures per use), highest first.
pub open spec fn by_failure_rate_desc() -> spec_fn(Skill, Skill) -> bool {
    |a: Skill, b: Skill| a.failure_count * rate_den(b) >= b.failure_count * rate_den(a)
}

/// Observations ordered by creation time text.
pub open spec fn by_created_at() -> spec_fn(Observation, Observation) -> bool {
    |a: Observation, b: Observation| lex_le(a.created_at@, b.created_at@)
}

/// Version records ordered by version, newest first.
pub open spec fn by_version_desc() -> spec_fn(VersionRecord, VersionRecord) -> bool {
    |a: VersionRecord, b: VersionRecord| a.version >= b.version
}

/// The observations of skill `id`, only unconsumed ones if asked.
pub open spec fn observation_filter(id: Seq<char>, unconsumed_only: bool) -> spec_fn(Observation) -> bool {
    |o: Observation| o.skill_id@ == id && (!unconsumed_only || !o.consumed)
}

/// The version records of skill `id`.
pub open spec fn version_filter(id: Seq<char>) -> spec_fn(VersionRecord) -> bool {
    |v: VersionRecord| v.skill_id@ == id
}

/// Skills that have been used.
pub open spec fn used_filter() -> spec_fn(Skill) -> bool {
    |s: Skill| s.usage_count > 0
}

/// Which counter of a skill.
pub enum Counter {
    Usage,
    Success,
    Failure,
}

/// The value of a counter of a skill.
pub open spec fn counter_of(c: Counter, s: Skill) -> nat {
    match c {
        Counter::Usage => s.usage_count as nat,
        Counter::Success => s.success_count as nat,
        Counter::Failure => s.failure_count as nat,
    }
}

/// The sum of a counter over skills.
pub open spec fn counter_sum(c: Counter, s: Seq<Skill>) -> nat
    decreases s.len(),
{
    if s.len() == 0 {
        0
    } else {
        counter_sum(c, s.drop_last()) + counter_of(c, s.last())
    }
}

proof fn lemma_counter_sum_remove(c: Counter, s: Seq<Skill>, k: int)
    requires
        0 <= k < s.len(),
    ensures
        counter_sum(c, s) == counter_sum(c, s.remove(k)) + counter_of(c, s[k]),
    decreases s.len(),
{
    if k == s.len() - 1 {
        assert(s.remove(k) =~= s.drop_last());
    } else {
        lemma_counter_sum_remove(c, s.drop_last(), k);
        assert(s.remove(k).drop_last() =~= s.drop_last().remove(k));
        assert(s.remove(k).last() == s.last());
    }
}

/// A counter's sum does not depend on the order of the skills.
pub proof fn lemma_counter_sum_permutation(c: Counter, a: Seq<Skill>, b: Seq<Skill>)
    requires
        a.to_multiset() == b.to_multiset(),
    ensures
        counter_sum(c, a) == counter_sum(c, b),
    decreases a.len(),
{
    broadcast use vstd::seq_lib::group_to_multiset_ensures;
    broadcast use vstd::multiset::group_multiset_axioms;
    assert(a.len() == a.to_multiset().len());
    assert(b.len() == b.to_multiset().len());
    if a.len() > 0 {
        let x = a.last();
        assert(a =~= a.drop_last().push(x));
        assert(a.to_multiset() =~= a.drop_last().to_multiset().insert(x));
        assert(b.to_multiset().count(x) > 0);
        assert(b.contains(x));
        let k = choose|k: int| 0 <= k < b.len() && b[k] == x;
        assert(b.remove(k).to_multiset() =~= b.to_multiset().remove(x));
        assert(a.drop_last().to_multiset() =~= b.remove(k).to_multiset());
        lemma_counter_sum_permutation(c, a.drop_last(), b.remove(k));
        lemma_counter_sum_remove(c, b, k);
    }
}

pub proof fn lemma_counter_sum_prefix(c: Counter, s: Seq<Skill>, i: int)
    requires
        0 <= i <= s.len(),
    ensures
        counter_sum(c, s.take(i)) <= counter_sum(c, s),
    decreases s.len() - i,
{
    if i < s.len() {
        lemma_counter_sum_prefix(c, s, i + 1);
        assert(s.take(i + 1).drop_last() =~= s.take(i));
    } else {
        assert(s.take(i) =~= s);
    }
}

proof fn lemma_orders()
    ensures
        total_preorder(by_path()),
        total_preorder(by_usage_desc()),
        total_preorder(by_failure_rate_desc()),
        total_preorder(by_created_at()),
        total_preorder(by_version_desc()),
{
    assert forall|a: Skill, b: Skill| #[trigger] by_path()(a, b) || by_path()(b, a) by {
        lemma_lex_total(a.path@, b.path@);
    }
    assert forall|a: Skill, b: Skill, c: Skill| #[trigger] by_path()(a, b) && #[trigger] by_path()(b, c) implies by_path()(a, c) by {
        lemma_lex_trans(a.path@, b.path@, c.path@);
    }
    assert forall|a: Observation, b: Observation| #[trigger] by_created_at()(a, b) || by_created_at()(b, a) by {
        lemma_lex_total(a.created_at@, b.created_at@);
    }
    assert forall|a: Observation, b: Observation, c: Observation|
        #[trigger] by_created_at()(a, b) && #[trigger] by_created_at()(b, c) implies by_created_at()(a, c) by {
        lemma_lex_trans(a.created_at@, b.created_at@, c.created_at@);
    }
    assert forall|a: Skill, b: Skill| #[trigger] by_failure_rate_desc()(a, b) || by_failure_rate_desc()(b, a) by {
    }
    assert forall|a: Skill, b: Skill, c: Skill|
        #[trigger] by_failure_rate_desc()(a, b) && #[trigger] by_failure_rate_desc()(b, c)
        implies by_failure_rate_desc()(a, c) by {
        lemma_rate_trans(a.failure_count as int, rate_den(a), b.failure_count as int, rate_den(b),
            c.failure_count as int, rate_den(c));
    }
}

proof fn lemma_rate_trans(fa: int, ua: int, fb: int, ub: int, fc: int, uc: int)
    by (nonlinear_arith)
    requires
        ua > 0,
        ub > 0,
        uc > 0,
        fa >= 0,
        fb >= 0,
        fc >= 0,
        fa * ub >= fb * ua,
        fb * uc >= fc * ub,
    ensures
        fa * uc >= fc * ua,
{
    assert(fa * ub * uc >= fb * ua * uc);
    assert(fb * uc * ua >= fc * ub * ua);
    assert(fa * uc * ub >= fc * ua * ub);
}

fn path_le(a: &Skill, b: &Skill) -> (r: bool)
    ensures
        r == by_path()(*a, *b),
{
    text_le(&a.path, &b.path)
}

fn usage_le(a: &Skill, b: &Skill) -> (r: bool)
    ensures
        r == by_usage_desc()(*a, *b),
{
    a.usage_count >= b.usage_count
}

fn rate_le(a: &Skill, b: &Skill) -> (r: bool)
    ensures
        r == by_failure_rate_desc()(*a, *b),
{
    let da: u64 = if a.usage_count == 0 { 1 } else { a.usage_count };
    let db: u64 = if b.usage_count == 0 { 1 } else { b.usage_count };
    let fa = a.failure_count as u128;
    let fb = b.failure_count as u128;
    assert(fa * (db as u128) <= 0xffff_ffff_ffff_ffffu128 * 0xffff_ffff_ffff_ffffu128) by (nonlinear_arith)
        requires fa <= 0xffff_ffff_ffff_ffffu128, (db as u128) <= 0xffff_ffff_ffff_ffffu128;
    assert(fb * (da as u128) <= 0xffff_ffff_ffff_ffffu128 * 0xffff_ffff_ffff_ffffu128) by (nonlinear_arith)
        requires fb <= 0xffff_ffff_ffff_ffffu128, (da as u128) <= 0xffff_ffff_ffff_ffffu128;
    let l: u128 = fa * (db as u128);
    let r: u128 = fb * (da as u128);
    l >= r
}

fn created_le(a: &Observation, b: &Observation) -> (r: bool)
    ensures
        r == by_created_at()(*a, *b),
{
    text_le(&a.created_at, &b.created_at)
}

fn version_le(a: &VersionRecord, b: &VersionRecord) -> (r: bool)
    ensures
        r == by_version_desc()(*a, *b),
{
    a.version >= b.version
}

/// The effective row limit of a query given `limit` (the store takes it as a 32-bit value).
pub open spec fn query_limit(limit: usize) -> nat {
    (limit as u32) as nat
}

/// The text of an optional string.
pub open spec fn opt_text(o: Option<String>) -> Option<Seq<char>> {
    match o {
        Some(s) => Some(s@),
        None => None,
    }
}

/// The text of an optional string slice.
pub open spec fn opt_str_text(o: Option<&str>) -> Option<Seq<char>> {
    match o {
        Some(s) => Some(s@),
        None => None,
    }
}

/// `s` is the skill that a new insertion stores: version 1, no uses, never evolved.
pub open spec fn is_new_skill(s: Skill, id: Seq<char>, name: Seq<char>, path: Seq<char>, description: Seq<char>,
    parent_id: Option<Seq<char>>, source: Seq<char>, now: Seq<char>, content_hash: Seq<char>) -> bool {
    &&& s.id@ == id
    &&& s.name@ == name
    &&& s.path@ == path
    &&& s.description@ == description
    &&& s.version == 1
    &&& opt_text(s.parent_id) == parent_id
    &&& s.source@ == source
    &&& s.usage_count == 0
    &&& s.success_count == 0
    &&& s.failure_count == 0
    &&& s.created_at@ == now
    &&& s.evolved_at is None
    &&& s.content_hash@ == content_hash
}

/// `v` is a version record with these fields.
pub open spec fn is_version_record(v: VersionRecord, id: Seq<char>, skill_id: Seq<char>, version: u32,
    content_hash: Seq<char>, description: Seq<char>, now: Seq<char>) -> bool {
    &&& v.id@ == id
    &&& v.skill_id@ == skill_id
    &&& v.version == version
    &&& v.content_hash@ == content_hash
    &&& v.description@ == description
    &&& v.created_at@ == now
}

/// `n` is `o` evolved: next version, new content hash, evolved at `now`.
pub open spec fn is_evolved(n: Skill, o: Skill, content_hash: Seq<char>, now: Seq<char>) -> bool {
    &&& n.version == o.version + 1
    &&& n.content_hash@ == content_hash
    &&& opt_text(n.evolved_at) == Some(now)
    &&& n.id == o.id
    &&& n.name == o.name
    &&& n.path == o.path
    &&& n.description == o.description
    &&& n.parent_id == o.parent_id
    &&& n.source == o.source
    &&& n.usage_count == o.usage_count
    &&& n.success_count == o.success_count
    &&& n.failure_count == o.failure_count
    &&& n.created_at == o.created_at
}

/// `o` is a new, unconsumed observation with these fields.
pub open spec fn is_new_observation(o: Observation, id: Seq<char>, skill_id: Seq<char>, outcome: Seq<char>,
    context: Option<Seq<char>>, suggestion: Option<Seq<char>>, now: Seq<char>) -> bool {
    &&& o.id@ == id
    &&& o.skill_id@ == skill_id
    &&& o.outcome@ == outcome
    &&& opt_text(o.context) == context
    &&& opt_text(o.suggestion) == suggestion
    &&& o.created_at@ == now
    &&& !o.consumed
}

/// The success counter moves for this outcome.
pub open spec fn counts_success(outcome: Seq<char>) -> bool {
    outcome == "success"@
}

/// The failure counter moves for this outcome.
pub open spec fn counts_failure(outcome: Seq<char>) -> bool {
    outcome == "failure"@
}

/// `n` is `o` after one recorded use with this outcome.
pub open spec fn is_counted(n: Skill, o: Skill, outcome: Seq<char>) -> bool {
    &&& n.usage_count == o.usage_count + 1
    &&& n.success_count == o.success_count + (if counts_success(outcome) { 1int } else { 0int })
    &&& n.failure_count == o.failure_count + (if counts_failure(outcome) { 1int } else { 0int })
    &&& n.id == o.id
    &&& n.name == o.name
    &&& n.path == o.path
    &&& n.description == o.description
    &&& n.version == o.version
    &&& n.parent_id == o.parent_id
    &&& n.source == o.source
    &&& n.created_at == o.created_at
    &&& n.evolved_at == o.evolved_at
    &&& n.content_hash == o.content_hash
}

/// Counting one more use with this outcome would exceed the largest storable value.
pub open spec fn count_would_overflow(s: Skill, outcome: Seq<char>) -> bool {
    s.usage_count >= STORE_MAX
        || (counts_success(outcome) && s.success_count >= STORE_MAX)
        || (counts_failure(outcome) && s.failure_count >= STORE_MAX)
}

/// Row `i` holds the skill with id `id`.
pub open spec fn id_at(rows: Seq<SkillRow>, i: int, id: Seq<char>) -> bool {
    0 <= i < rows.len() && rows[i].skill.id@ == id
}

/// The observation after consumption: consumed if it belongs to skill `id`.
pub open spec fn consumed_for(o: Observation, id: Seq<char>) -> Observation {
    if o.skill_id@ == id && !o.consumed {
        Observation { consumed: true, ..o }
    } else {
        o
    }
}

/// What inserting a skill with the given ids and time does: refused with nothing changed
/// when the path (archived skills included) or the skill id is taken; otherwise the skill
/// row is added, and its first version record too unless that record's id is taken.
pub open spec fn insert_skill_effect(
    old: DbState, new: DbState, r: Result<String, DbError>, id: Seq<char>, ver_id: Seq<char>, now: Seq<char>,
    name: Seq<char>, path: Seq<char>, description: Seq<char>, parent_id: Option<Seq<char>>, source: Seq<char>,
    content_hash: Seq<char>,
) -> bool {
    &&& new.wf()
    &&& path_taken(old.rows, path) ==> (r matches Err(DbError::DuplicatePath) && new == old)
    &&& !path_taken(old.rows, path) && skill_id_taken(old.rows, id) ==> (r matches Err(DbError::DuplicateSkillId) && new == old)
    &&& !path_taken(old.rows, path) && !skill_id_taken(old.rows, id) ==> {
        &&& new.rows.len() == old.rows.len() + 1
        &&& new.rows.drop_last() == old.rows
        &&& !new.rows.last().archived
        &&& is_new_skill(new.rows.last().skill, id, name, path, description, parent_id, source, now, content_hash)
        &&& new.observations == old.observations
        &&& version_id_taken(old.versions, ver_id) ==> (r matches Err(DbError::DuplicateVersionId)
                && new.versions == old.versions)
        &&& !version_id_taken(old.versions, ver_id) ==> (r matches Ok(x) && x@ == id
                && new.versions.len() == old.versions.len() + 1
                && new.versions.drop_last() == old.versions
                && is_version_record(new.versions.last(), ver_id, id, 1, content_hash, "initial"@, now))
    }
}

/// What moving the live skill at `path` to its next version does: nothing, with
/// `Ok(false)`, when no live skill is there; otherwise the skill is evolved and the version
/// recorded, unless the record's id is taken.
pub open spec fn update_content_effect(
    old: DbState, new: DbState, r: Result<bool, DbError>, ver_id: Seq<char>, now: Seq<char>, path: Seq<char>,
    content_hash: Seq<char>, description: Seq<char>,
) -> bool {
    &&& new.wf()
    &&& live_skill_at(old.rows, path) is None ==> (r matches Ok(false) && new == old)
    &&& live_skill_at(old.rows, path) is Some ==> exists|i: int| {
        &&& #[trigger] live_at(old.rows, i, path)
        &&& new.rows.len() == old.rows.len()
        &&& forall|j: int| 0 <= j < old.rows.len() && j != i ==> #[trigger] new.rows[j] == old.rows[j]
        &&& !new.rows[i].archived
        &&& is_evolved(new.rows[i].skill, old.rows[i].skill, content_hash, now)
        &&& new.observations == old.observations
        &&& version_id_taken(old.versions, ver_id) ==> (r matches Err(DbError::DuplicateVersionId)
                && new.versions == old.versions)
        &&& !version_id_taken(old.versions, ver_id) ==> (r matches Ok(true)
                && new.versions.len() == old.versions.len() + 1
                && new.versions.drop_last() == old.versions
                && is_version_record(new.versions.last(), ver_id, old.rows[i].skill.id@,
                    (old.rows[i].skill.version + 1) as u32, content_hash, description, now))
    }
}

/// What recording an observation with the given id and time does: refused with nothing
/// changed when the id is taken or a counter of the skill would pass the largest storable
/// value; otherwise the observation is added and the use counted on the skill with id
/// `skill_id`, if there is one.
pub open spec fn insert_observation_effect(
    old: DbState, new: DbState, r: Result<String, DbError>, id: Seq<char>, now: Seq<char>, skill_id: Seq<char>,
    outcome: Seq<char>, context: Option<Seq<char>>, suggestion: Option<Seq<char>>,
) -> bool {
    &&& new.wf()
    &&& observation_id_taken(old.observations, id) ==> (r matches Err(DbError::DuplicateObservationId) && new == old)
    &&& !observation_id_taken(old.observations, id) && (exists|i: int| #[trigger] id_at(old.rows, i, skill_id)
            && count_would_overflow(old.rows[i].skill, outcome))
            ==> (r matches Err(DbError::CounterOverflow) && new == old)
    &&& !observation_id_taken(old.observations, id) && !(exists|i: int| #[trigger] id_at(old.rows, i, skill_id)
            && count_would_overflow(old.rows[i].skill, outcome)) ==> r is Ok
    &&& r is Ok ==> {
        &&& r matches Ok(x) && x@ == id
        &&& new.observations.len() == old.observations.len() + 1
        &&& new.observations.drop_last() == old.observations
        &&& is_new_observation(new.observations.last(), id, skill_id, outcome, context, suggestion, now)
        &&& new.versions == old.versions
        &&& new.rows.len() == old.rows.len()
        &&& forall|j: int| 0 <= j < old.rows.len() && !id_at(old.rows, j, skill_id)
                ==> #[trigger] new.rows[j] == old.rows[j]
        &&& forall|j: int| #[trigger] id_at(old.rows, j, skill_id) ==>
                new.rows[j].archived == old.rows[j].archived
                && is_counted(new.rows[j].skill, old.rows[j].skill, outcome)
    }
}

/// A lowercase hexadecimal digit.
pub open spec fn is_lower_hex(c: char) -> bool {
    ('0' <= c && c <= '9') || ('a' <= c && c <= 'f')
}

/// Hyphenated lowercase text of a random (version 4) UUID: 36 characters, hyphens at 8,
/// 13, 18 and 23, lowercase hex digits elsewhere, `4` at 14 and one of `8 9 a b` at 19.
pub open spec fn is_v4_uuid_text(s: Seq<char>) -> bool {
    &&& s.len() == 36
    &&& forall|i: int| 0 <= i < 36 ==> if i == 8 || i == 13 || i == 18 || i == 23 {
            #[trigger] s[i] == '-'
        } else {
            is_lower_hex(s[i])
        }
    &&& s[14] == '4'
    &&& (s[19] == '8' || s[19] == '9' || s[19] == 'a' || s[19] == 'b')
}

/// The form of the time a record is stamped with: RFC 3339 text with a `T` between date
/// and time and a zero offset written `+00:00`.
pub open spec fn is_utc_timestamp(now: Seq<char>) -> bool {
    crate::text::has_suffix(now, "+00:00"@) && now.contains('T')
}

/// `uuid::Uuid::new_v4` rendered by `to_string`: a fresh random UUID in hyphenated
/// lowercase form. Which UUID comes back is left open; uuid panics if the system's
/// random source fails.
#[verifier::external_body]
fn new_uuid() -> (r: String)
    ensures
        is_v4_uuid_text(r@),
{
    uuid::Uuid::new_v4().to_string()
}

/// `chrono::Utc::now` rendered by `to_rfc3339`: the current time as RFC 3339 text with a
/// zero offset written `+00:00`, date and time separated by `T`. Which time comes back is
/// left open; chrono panics if the system clock is before the Unix epoch.
#[verifier::external_body]
fn now_rfc3339() -> (r: String)
    ensures
        crate::text::has_suffix(r@, "+00:00"@),
        r@.contains('T'),
{
    chrono::Utc::now().to_rfc3339()
}

/// What consuming the observations of skill `id` does: they are marked consumed and
/// nothing else changes.
pub open spec fn consume_effect(old: DbState, new: DbState, id: Seq<char>) -> bool {
    &&& new.wf()
    &&& new.observations == old.observations.map_values(|o: Observation| consumed_for(o, id))
    &&& new.rows == old.rows
    &&& new.versions == old.versions
}

/// No two texts are equal.
pub open spec fn texts_distinct(keys: Seq<String>) -> bool {
    forall|i: int, j: int| 0 <= i < keys.len() && 0 <= j < keys.len() && i != j
        ==> (#[trigger] keys[i])@ != (#[trigger] keys[j])@
}

fn all_distinct(keys: &Vec<String>) -> (r: bool)
    ensures
        r == texts_distinct(keys@),
{
    let mut i: usize = 0;
    while i < keys.len()
        invariant
            i <= keys.len(),
            forall|a: int, b: int| 0 <= a < i && 0 <= b < keys@.len() && a != b
                ==> (#[trigger] keys@[a])@ != (#[trigger] keys@[b])@,
        decreases keys.len() - i,
    {
        let mut j: usize = 0;
        while j < keys.len()
            invariant
                i < keys.len(),
                j <= keys.len(),
                forall|a: int, b: int| 0 <= a < i && 0 <= b < keys@.len() && a != b
                    ==> (#[trigger] keys@[a])@ != (#[trigger] keys@[b])@,
                forall|b: int| 0 <= b < j && b != i ==> keys@[i as int]@ != (#[trigger] keys@[b])@,
            decreases keys.len() - j,
        {
            if j != i && keys[i].eq(&keys[j]) {
                return false;
            }
            j = j + 1;
        }
        i = i + 1;
    }
    true
}

impl DbState {
    /// The constraints of the tables: paths and ids are unique and counters fit.
    pub open spec fn wf(self) -> bool {
        &&& rows_distinct(self.rows)
        &&& observations_distinct(self.observations)
        &&& versions_distinct(self.versions)
        &&& forall|i: int| 0 <= i < self.rows.len() ==> counters_fit(#[trigger] self.rows[i].skill)
    }
}

/// No two stored skills share a path or an id.
pub open spec fn rows_distinct(rows: Seq<SkillRow>) -> bool {
    &&& forall|i: int, j: int| 0 <= i < rows.len() && 0 <= j < rows.len() && i != j
        ==> (#[trigger] rows[i]).skill.path@ != (#[trigger] rows[j]).skill.path@
    &&& forall|i: int, j: int| 0 <= i < rows.len() && 0 <= j < rows.len() && i != j
        ==> (#[trigger] rows[i]).skill.id@ != (#[trigger] rows[j]).skill.id@
}

/// No two observations share an id.
pub open spec fn observations_distinct(obs: Seq<Observation>) -> bool {
    forall|i: int, j: int| 0 <= i < obs.len() && 0 <= j < obs.len() && i != j
        ==> (#[trigger] obs[i]).id@ != (#[trigger] obs[j]).id@
}

/// No two version records share an id.
pub open spec fn versions_distinct(vs: Seq<VersionRecord>) -> bool {
    forall|i: int, j: int| 0 <= i < vs.len() && 0 <= j < vs.len() && i != j
        ==> (#[trigger] vs[i]).id@ != (#[trigger] vs[j]).id@
}

impl Database {
    /// An empty store.
    pub fn new() -> (r: Database)
        ensures
            r@.wf(),
            r@.rows.len() == 0,
            r@.observations.len() == 0,
            r@.versions.len() == 0,
    {
        Database { rows: Vec::new(), observations: Vec::new(), versions: Vec::new() }
    }

    /// The stored skills, archived ones included.
    pub fn skill_rows(&self) -> (r: &Vec<SkillRow>)
        ensures
            r@ == self@.rows,
    {
        &self.rows
    }

    /// All observations.
    pub fn all_observations(&self) -> (r: &Vec<Observation>)
        ensures
            r@ == self@.observations,
    {
        &self.observations
    }

    /// All version records.
    pub fn all_versions(&self) -> (r: &Vec<VersionRecord>)
        ensures
            r@ == self@.versions,
    {
        &self.versions
    }

    fn find_row(&self, path: &str) -> (r: Option<usize>)
        ensures
            r matches Some(i) ==> i < self@.rows.len() && self@.rows[i as int].skill.path@ == path@,
            r is None ==> !path_taken(self@.rows, path@),
    {
        let p = String::from_str(path);
        let mut i: usize = 0;
        while i < self.rows.len()
            invariant
                p@ == path@,
                i <= self.rows.len(),
                forall|j: int| 0 <= j < i ==> (#[trigger] self.rows@[j]).skill.path@ != path@,
            decreases self.rows.len() - i,
        {
            if self.rows[i].skill.path.eq(&p) {
                return Some(i);
            }
            i = i + 1;
        }
        None
    }

    fn find_live_row(&self, path: &str) -> (r: Option<usize>)
        requires
            self@.wf(),
        ensures
            r matches Some(i) ==> live_at(self@.rows, i as int, path@),
            r is None ==> live_skill_at(self@.rows, path@) is None,
    {
        match self.find_row(path) {
            Some(i) => {
                if self.rows[i].archived {
                    assert forall|j: int| !live_at(self@.rows, j, path@) by {
                        if live_at(self@.rows, j, path@) && j != i {
                            assert(self@.rows[j].skill.path@ != self@.rows[i as int].skill.path@);
                        }
                    }
                    None
                } else {
                    Some(i)
                }
            },
            None => {
                assert forall|j: int| !live_at(self@.rows, j, path@) by {
                    if live_at(self@.rows, j, path@) {
                        assert(path_taken(self@.rows, path@));
                    }
                }
                None
            },
        }
    }

    /// The skill at `path`, unless it is archived.
    pub fn get_skill_by_path(&self, path: &str) -> (r: Option<Skill>)
        requires
            self@.wf(),
        ensures
            r == live_skill_at(self@.rows, path@),
    {
        match self.find_live_row(path) {
            Some(i) => {
                proof {
                    let c = choose|j: int| live_at(self@.rows, j, path@);
                    if c != i {
                        assert(self@.rows[c].skill.path@ != self@.rows[i as int].skill.path@);
                    }
                }
                Some(self.rows[i].skill.duplicate())
            },
            None => None,
        }
    }

    /// Archives the live skill at `path`; says whether there was one.
    pub fn archive_skill(&mut self, path: &str) -> (r: bool)
        requires
            old(self)@.wf(),
        ensures
            final(self)@.wf(),
            r == live_skill_at(old(self)@.rows, path@) is Some,
            r ==> exists|i: int| #[trigger] live_at(old(self)@.rows, i, path@)
                && final(self)@.rows == old(self)@.rows.update(i, SkillRow { skill: old(self)@.rows[i].skill, archived: true }),
            !r ==> final(self)@ == old(self)@,
            final(self)@.observations == old(self)@.observations,
            final(self)@.versions == old(self)@.versions,
    {
        match self.find_live_row(path) {
            Some(i) => {
                let ghost old_rows = self.rows@;
                self.rows[i].archived = true;
                assert(self.rows@ =~= old_rows.update(i as int, SkillRow { skill: old_rows[i as int].skill, archived: true }));
                assert(forall|k: int| 0 <= k < self.rows@.len() ==> (#[trigger] self.rows@[k]).skill == old_rows[k].skill);
                assert(self@.rows == self.rows@);
                assert(self@.observations == old(self)@.observations);
                assert(self@.versions == old(self)@.versions);
                assert(forall|i: int, j: int| 0 <= i < self@.rows.len() && 0 <= j < self@.rows.len() && i != j
                    ==> (#[trigger] self@.rows[i]).skill.path@ != (#[trigger] self@.rows[j]).skill.path@);
                assert(forall|i: int| 0 <= i < self@.rows.len() ==> counters_fit(#[trigger] self@.rows[i].skill));
                true
            },
            None => false,
        }
    }

    /// Deletes the skill at `path`, archived or not; says whether there was one.
    pub fn delete_skill(&mut self, path: &str) -> (r: bool)
        requires
            old(self)@.wf(),
        ensures
            final(self)@.wf(),
            r == path_taken(old(self)@.rows, path@),
            r ==> exists|i: int| 0 <= i < old(self)@.rows.len()
                && (#[trigger] old(self)@.rows[i]).skill.path@ == path@
                && final(self)@.rows == old(self)@.rows.remove(i),
            !r ==> final(self)@ == old(self)@,
            final(self)@.observations == old(self)@.observations,
            final(self)@.versions == old(self)@.versions,
    {
        match self.find_row(path) {
            Some(i) => {
                let ghost old_rows = self.rows@;
                self.rows.remove(i);
                assert(old_rows[i as int].skill.path@ == path@);
                assert forall|a: int, b: int| 0 <= a < self.rows@.len() && 0 <= b < self.rows@.len() && a != b
                    implies (#[trigger] self.rows@[a]).skill.path@ != (#[trigger] self.rows@[b]).skill.path@
                    && self.rows@[a].skill.id@ != self.rows@[b].skill.id@ by {
                    let oa = if a < i { a } else { a + 1 };
                    let ob = if b < i { b } else { b + 1 };
                    assert(self.rows@[a] == old_rows[oa]);
                    assert(self.rows@[b] == old_rows[ob]);
                    assert(old_rows[oa].skill.path@ != old_rows[ob].skill.path@);
                    assert(old_rows[oa].skill.id@ != old_rows[ob].skill.id@);
                }
                assert(self@.rows == self.rows@);
                assert forall|a: int| 0 <= a < self.rows@.len() implies counters_fit(#[trigger] self.rows@[a].skill) by {
                    let oa = if a < i { a } else { a + 1 };
                    assert(self.rows@[a] == old_rows[oa]);
                }
                assert(self@.observations == old(self)@.observations);
                assert(self@.versions == old(self)@.versions);
                assert(forall|i: int| 0 <= i < self@.rows.len() ==> counters_fit(#[trigger] self@.rows[i].skill));
                true
            },
            None => false,
        }
    }

    fn live_copies(&self) -> (r: Vec<Skill>)
        ensures
            r@ == live_skills(self@.rows),
    {
        let mut r: Vec<Skill> = Vec::new();
        let mut i: usize = 0;
        while i < self.rows.len()
            invariant
                i <= self.rows.len(),
                r@ == live_skills(self@.rows.take(i as int)),
            decreases self.rows.len() - i,
        {
            assert(self@.rows.take(i + 1).drop_last() =~= self@.rows.take(i as int));
            if !self.rows[i].archived {
                r.push(self.rows[i].skill.duplicate());
            }
            i = i + 1;
        }
        assert(self@.rows.take(self.rows.len() as int) =~= self@.rows);
        r
    }

    /// The live skills, ordered by path.
    pub fn list_skills(&self) -> (r: Vec<Skill>)
        ensures
            sorted_by_le(r@, by_path()),
            r@.to_multiset() == live_skills(self@.rows).to_multiset(),
    {
        proof { lemma_orders(); }
        let all = self.live_copies();
        sort_by(all, |a: &Skill, b: &Skill| -> (r: bool) ensures r == by_path()(*a, *b) { path_le(a, b) }, Ghost(by_path()))
    }

    /// The `limit` most used live skills, most used first.
    pub fn top_skills(&self, limit: usize) -> (r: Vec<Skill>)
        ensures
            sorted_by_le(r@, by_usage_desc()),
            is_top_k(r@, live_skills(self@.rows), by_usage_desc(), query_limit(limit)),
    {
        proof { lemma_orders(); }
        let all = self.live_copies();
        let sorted = sort_by(all, |a: &Skill, b: &Skill| -> (r: bool) ensures r == by_usage_desc()(*a, *b) { usage_le(a, b) }, Ghost(by_usage_desc()));
        let ghost p = sorted@;
        let k = (#[verifier::truncate] (limit as u32)) as usize;
        let r = take_prefix(sorted, k);
        assert(sorted_by_le(r@, by_usage_desc()));
        assert(p.to_multiset() == live_skills(self@.rows).to_multiset());
        r
    }

    /// The `limit` used live skills with the highest failure rate, highest first.
    pub fn struggling_skills(&self, limit: usize) -> (r: Vec<Skill>)
        ensures
            sorted_by_le(r@, by_failure_rate_desc()),
            is_top_k(r@, live_skills(self@.rows).filter(used_filter()), by_failure_rate_desc(), query_limit(limit)),
    {
        proof { lemma_orders(); }
        let all = self.live_copies();
        let ghost lv = all@;
        let mut used: Vec<Skill> = Vec::new();
        let mut all = all;
        let mut i: usize = 0;
        while i < all.len()
            invariant
                all@ == lv,
                i <= all.len(),
                used@ == lv.take(i as int).filter(used_filter()),
            decreases all.len() - i,
        {
            assert(lv.take(i + 1).drop_last() =~= lv.take(i as int));
            assert(lv.take(i + 1).last() == lv[i as int]);
            assert(lv.take(i + 1) =~= lv.take(i as int).push(lv[i as int]));
            proof { lv.take(i as int).lemma_filter_push(lv[i as int], used_filter()); }
            assert(lv.take(i + 1).filter(used_filter()) == if used_filter()(lv[i as int]) {
                lv.take(i as int).filter(used_filter()).push(lv[i as int])
            } else {
                lv.take(i as int).filter(used_filter())
            });
            if all[i].usage_count > 0 {
                used.push(all[i].duplicate());
            }
            i = i + 1;
        }
        assert(lv.take(lv.len() as int) =~= lv);
        let sorted = sort_by(used, |a: &Skill, b: &Skill| -> (r: bool) ensures r == by_failure_rate_desc()(*a, *b) { rate_le(a, b) }, Ghost(by_failure_rate_desc()));
        let ghost p = sorted@;
        let k = (#[verifier::truncate] (limit as u32)) as usize;
        let r = take_prefix(sorted, k);
        assert(p.to_multiset() == live_skills(self@.rows).filter(used_filter()).to_multiset());
        r
    }

    /// The observations of skill `skill_id` (only unconsumed ones if asked), oldest first.
    pub fn get_observations(&self, skill_id: &str, unconsumed_only: bool) -> (r: Vec<Observation>)
        ensures
            sorted_by_le(r@, by_created_at()),
            r@.to_multiset() == self@.observations.filter(observation_filter(skill_id@, unconsumed_only)).to_multiset(),
    {
        proof { lemma_orders(); }
        let id = String::from_str(skill_id);
        let ghost f = observation_filter(skill_id@, unconsumed_only);
        let mut sel: Vec<Observation> = Vec::new();
        let mut i: usize = 0;
        while i < self.observations.len()
            invariant
                id@ == skill_id@,
                f == observation_filter(skill_id@, unconsumed_only),
                i <= self.observations.len(),
                sel@ == self@.observations.take(i as int).filter(f),
            decreases self.observations.len() - i,
        {
            assert(self@.observations.take(i + 1).drop_last() =~= self@.observations.take(i as int));
            assert(self@.observations.take(i + 1).last() == self@.observations[i as int]);
            assert(self@.observations.take(i + 1) =~= self@.observations.take(i as int).push(self@.observations[i as int]));
            proof { self@.observations.take(i as int).lemma_filter_push(self@.observations[i as int], f); }
            assert(self@.observations.take(i + 1).filter(f) == if f(self@.observations[i as int]) {
                self@.observations.take(i as int).filter(f).push(self@.observations[i as int])
            } else {
                self@.observations.take(i as int).filter(f)
            });
            let o = &self.observations[i];
            if o.skill_id.eq(&id) && (!unconsumed_only || !o.consumed) {
                sel.push(o.duplicate());
            }
            i = i + 1;
        }
        assert(self@.observations.take(self.observations.len() as int) =~= self@.observations);
        sort_by(sel, |a: &Observation, b: &Observation| -> (r: bool) ensures r == by_created_at()(*a, *b) { created_le(a, b) }, Ghost(by_created_at()))
    }

    /// The version records of skill `skill_id`, newest first.
    pub fn get_versions(&self, skill_id: &str) -> (r: Vec<VersionRecord>)
        ensures
            sorted_by_le(r@, by_version_desc()),
            r@.to_multiset() == self@.versions.filter(version_filter(skill_id@)).to_multiset(),
    {
        proof { lemma_orders(); }
        let id = String::from_str(skill_id);
        let ghost f = version_filter(skill_id@);
        let mut sel: Vec<VersionRecord> = Vec::new();
        let mut i: usize = 0;
        while i < self.versions.len()
            invariant
                id@ == skill_id@,
                f == version_filter(skill_id@),
                i <= self.versions.len(),
                sel@ == self@.versions.take(i as int).filter(f),
            decreases self.versions.len() - i,
        {
            assert(self@.versions.take(i + 1).drop_last() =~= self@.versions.take(i as int));
            assert(self@.versions.take(i + 1).last() == self@.versions[i as int]);
            assert(self@.versions.take(i + 1) =~= self@.versions.take(i as int).push(self@.versions[i as int]));
            proof { self@.versions.take(i as int).lemma_filter_push(self@.versions[i as int], f); }
            assert(self@.versions.take(i + 1).filter(f) == if f(self@.versions[i as int]) {
                self@.versions.take(i as int).filter(f).push(self@.versions[i as int])
            } else {
                self@.versions.take(i as int).filter(f)
            });
            let v = &self.versions[i];
            if v.skill_id.eq(&id) {
                sel.push(v.duplicate());
            }
            i = i + 1;
        }
        assert(self@.versions.take(self.versions.len() as int) =~= self@.versions);
        sort_by(sel, |a: &VersionRecord, b: &VersionRecord| -> (r: bool) ensures r == by_version_desc()(*a, *b) { version_le(a, b) }, Ghost(by_version_desc()))
    }

    /// The number of live skills.
    pub fn skill_count(&self) -> (r: u64)
        ensures
            r == live_skills(self@.rows).len(),
    {
        let v = self.live_copies();
        v.len() as u64
    }

    /// The number of observations.
    pub fn observation_count(&self) -> (r: u64)
        ensures
            r == self@.observations.len(),
    {
        self.observations.len() as u64
    }

    fn counter_total(&self, c: Counter) -> (r: Result<u64, DbError>)
        ensures
            r matches Ok(n) ==> n == counter_sum(c, live_skills(self@.rows)) && n <= STORE_MAX,
            r matches Err(e) ==> e is SumOverflow && counter_sum(c, live_skills(self@.rows)) > STORE_MAX,
            r is Ok <==> counter_sum(c, live_skills(self@.rows)) <= STORE_MAX,
    {
        let v = self.live_copies();
        let mut acc: u64 = 0;
        let mut i: usize = 0;
        while i < v.len()
            invariant
                v@ == live_skills(self@.rows),
                i <= v.len(),
                acc == counter_sum(c, v@.take(i as int)),
                acc <= STORE_MAX,
            decreases v.len() - i,
        {
            assert(v@.take(i + 1).drop_last() =~= v@.take(i as int));
            let x: u64 = match c {
                Counter::Usage => v[i].usage_count,
                Counter::Success => v[i].success_count,
                Counter::Failure => v[i].failure_count,
            };
            if x > STORE_MAX - acc {
                proof { lemma_counter_sum_prefix(c, v@, i + 1); }
                return Err(DbError::SumOverflow);
            }
            acc = acc + x;
            i = i + 1;
        }
        assert(v@.take(v.len() as int) =~= v@);
        Ok(acc)
    }

    /// Total uses over live skills; refused when the sum exceeds the largest storable value.
    pub fn total_usage(&self) -> (r: Result<u64, DbError>)
        ensures
            r matches Ok(n) ==> n == counter_sum(Counter::Usage, live_skills(self@.rows)),
            r matches Err(e) ==> e is SumOverflow,
            r is Ok <==> counter_sum(Counter::Usage, live_skills(self@.rows)) <= STORE_MAX,
    {
        self.counter_total(Counter::Usage)
    }

    /// Total successes over live skills; refused when the sum exceeds the largest storable value.
    pub fn total_successes(&self) -> (r: Result<u64, DbError>)
        ensures
            r matches Ok(n) ==> n == counter_sum(Counter::Success, live_skills(self@.rows)),
            r matches Err(e) ==> e is SumOverflow,
            r is Ok <==> counter_sum(Counter::Success, live_skills(self@.rows)) <= STORE_MAX,
    {
        self.counter_total(Counter::Success)
    }

    /// Total failures over live skills; refused when the sum exceeds the largest storable value.
    pub fn total_failures(&self) -> (r: Result<u64, DbError>)
        ensures
            r matches Ok(n) ==> n == counter_sum(Counter::Failure, live_skills(self@.rows)),
            r matches Err(e) ==> e is SumOverflow,
            r is Ok <==> counter_sum(Counter::Failure, live_skills(self@.rows)) <= STORE_MAX,
    {
        self.counter_total(Counter::Failure)
    }

    fn find_id_row(&self, id: &String) -> (r: Option<usize>)
        ensures
            r matches Some(i) ==> id_at(self@.rows, i as int, id@),
            r is None ==> !skill_id_taken(self@.rows, id@),
    {
        let mut i: usize = 0;
        while i < self.rows.len()
            invariant
                i <= self.rows.len(),
                forall|j: int| 0 <= j < i ==> (#[trigger] self@.rows[j]).skill.id@ != id@,
            decreases self.rows.len() - i,
        {
            if self.rows[i].skill.id.eq(id) {
                return Some(i);
            }
            i = i + 1;
        }
        None
    }

    fn has_version_id(&self, id: &String) -> (r: bool)
        ensures
            r == version_id_taken(self@.versions, id@),
    {
        let mut i: usize = 0;
        while i < self.versions.len()
            invariant
                i <= self.versions.len(),
                forall|j: int| 0 <= j < i ==> (#[trigger] self@.versions[j]).id@ != id@,
            decreases self.versions.len() - i,
        {
            if self.versions[i].id.eq(id) {
                return true;
            }
            i = i + 1;
        }
        false
    }

    fn has_observation_id(&self, id: &String) -> (r: bool)
        ensures
            r == observation_id_taken(self@.observations, id@),
    {
        let mut i: usize = 0;
        while i < self.observations.len()
            invariant
                i <= self.observations.len(),
                forall|j: int| 0 <= j < i ==> (#[trigger] self@.observations[j]).id@ != id@,
            decreases self.observations.len() - i,
        {
            if self.observations[i].id.eq(id) {
                return true;
            }
            i = i + 1;
        }
        false
    }

    /// Inserts a new skill with the given ids and creation time, and its first version
    /// record (`initial`). Refused when the path or the skill id is taken; when only the
    /// version id is taken, the skill stays inserted and the version record is refused.
    pub fn insert_skill_with(
        &mut self,
        id: String,
        ver_id: String,
        now: String,
        name: &str,
        path: &str,
        description: &str,
        parent_id: Option<&str>,
        source: &str,
        content_hash: &str,
    ) -> (r: Result<String, DbError>)
        requires
            old(self)@.wf(),
        ensures
            insert_skill_effect(old(self)@, final(self)@, r, id@, ver_id@, now@, name@, path@, description@,
                opt_str_text(parent_id), source@, content_hash@),
    {
        if self.find_row(path).is_some() {
            return Err(DbError::DuplicatePath);
        }
        if self.find_id_row(&id).is_some() {
            return Err(DbError::DuplicateSkillId);
        }
        let skill = Skill {
            id: id.clone(),
            name: name.to_owned(),
            path: path.to_owned(),
            description: description.to_owned(),
            version: 1,
            parent_id: match parent_id {
                Some(p) => Some(p.to_owned()),
                None => None,
            },
            source: source.to_owned(),
            usage_count: 0,
            success_count: 0,
            failure_count: 0,
            created_at: now.clone(),
            evolved_at: None,
            content_hash: content_hash.to_owned(),
        };
        let ghost old_rows = self.rows@;
        self.rows.push(SkillRow { skill, archived: false });
        assert(self.rows@.drop_last() =~= old_rows);
        assert forall|a: int, b: int| 0 <= a < self.rows@.len() && 0 <= b < self.rows@.len() && a != b
            implies (#[trigger] self.rows@[a]).skill.path@ != (#[trigger] self.rows@[b]).skill.path@
            && self.rows@[a].skill.id@ != self.rows@[b].skill.id@ by {
            if a < old_rows.len() && b < old_rows.len() {
                assert(self.rows@[a] == old_rows[a] && self.rows@[b] == old_rows[b]);
            } else if a < old_rows.len() {
                assert(self.rows@[a] == old_rows[a]);
                assert(!path_taken(old_rows, path@));
                assert(!skill_id_taken(old_rows, id@));
            } else {
                assert(self.rows@[b] == old_rows[b]);
                assert(!path_taken(old_rows, path@));
                assert(!skill_id_taken(old_rows, id@));
            }
        }
        assert(forall|a: int| 0 <= a < self@.rows.len() ==> counters_fit(#[trigger] self@.rows[a].skill));
        let ghost vid = ver_id@;
        if self.has_version_id(&ver_id) {
            assert(self@.versions == self.versions@ && self@.observations == self.observations@);
            assert(self@.rows == self.rows@);
            return Err(DbError::DuplicateVersionId);
        }
        let ghost old_versions = self.versions@;
        assert(!version_id_taken(old_versions, vid));
        self.versions.push(VersionRecord {
            id: ver_id,
            skill_id: id.clone(),
            version: 1,
            content_hash: content_hash.to_owned(),
            description: String::from_str("initial"),
            created_at: now,
        });
        assert(self.versions@.drop_last() =~= old_versions);
        assert forall|a: int, b: int| 0 <= a < self.versions@.len() && 0 <= b < self.versions@.len() && a != b
            implies (#[trigger] self.versions@[a]).id@ != (#[trigger] self.versions@[b]).id@ by {
            if a < old_versions.len() && b < old_versions.len() {
                assert(self.versions@[a] == old_versions[a] && self.versions@[b] == old_versions[b]);
            } else if a < old_versions.len() {
                assert(self.versions@[a] == old_versions[a]);
                assert(self.versions@[b].id@ == vid);
                assert(old_versions[a].id@ != vid);
            } else {
                assert(self.versions@[b] == old_versions[b]);
                assert(self.versions@[a].id@ == vid);
                assert(old_versions[b].id@ != vid);
            }
        }
        Ok(id)
    }

    /// Moves the live skill at `path` to its next version with a new content hash, stamps
    /// it evolved at `now`, and records the version. `Ok(false)` when no live skill is
    /// there. When the version id is taken the skill stays updated and the record is
    /// refused.
    pub fn update_skill_content_with(
        &mut self,
        ver_id: String,
        now: String,
        path: &str,
        content_hash: &str,
        description: &str,
    ) -> (r: Result<bool, DbError>)
        requires
            old(self)@.wf(),
            live_skill_at(old(self)@.rows, path@) matches Some(s) ==> s.version < u32::MAX,
        ensures
            update_content_effect(old(self)@, final(self)@, r, ver_id@, now@, path@, content_hash@, description@),
    {
        let i = match self.find_live_row(path) {
            Some(i) => i,
            None => { return Ok(false); },
        };
        proof {
            let c = choose|j: int| live_at(self@.rows, j, path@);
            if c != i {
                assert(self@.rows[c].skill.path@ != self@.rows[i as int].skill.path@);
            }
        }
        let ghost old_rows = self.rows@;
        let new_version = self.rows[i].skill.version + 1;
        let skill_id = self.rows[i].skill.id.clone();
        self.rows[i].skill.version = new_version;
        self.rows[i].skill.content_hash = content_hash.to_owned();
        self.rows[i].skill.evolved_at = Some(now.clone());
        assert forall|a: int, b: int| 0 <= a < self.rows@.len() && 0 <= b < self.rows@.len() && a != b
            implies (#[trigger] self.rows@[a]).skill.path@ != (#[trigger] self.rows@[b]).skill.path@
            && self.rows@[a].skill.id@ != self.rows@[b].skill.id@ by {
            assert(old_rows[a].skill.path@ != old_rows[b].skill.path@);
            assert(old_rows[a].skill.id@ != old_rows[b].skill.id@);
        }
        assert forall|a: int| 0 <= a < self@.rows.len() implies counters_fit(#[trigger] self@.rows[a].skill) by {
            assert(counters_fit(old_rows[a].skill));
        }
        assert(live_at(old_rows, i as int, path@));
        let ghost vid = ver_id@;
        if self.has_version_id(&ver_id) {
            assert(self@.versions == self.versions@ && self@.observations == self.observations@);
            assert(self@.rows == self.rows@);
            return Err(DbError::DuplicateVersionId);
        }
        let ghost old_versions = self.versions@;
        assert(!version_id_taken(old_versions, vid));
        self.versions.push(VersionRecord {
            id: ver_id,
            skill_id,
            version: new_version,
            content_hash: content_hash.to_owned(),
            description: description.to_owned(),
            created_at: now,
        });
        assert(self.versions@.drop_last() =~= old_versions);
        assert forall|a: int, b: int| 0 <= a < self.versions@.len() && 0 <= b < self.versions@.len() && a != b
            implies (#[trigger] self.versions@[a]).id@ != (#[trigger] self.versions@[b]).id@ by {
            if a < old_versions.len() && b < old_versions.len() {
                assert(self.versions@[a] == old_versions[a] && self.versions@[b] == old_versions[b]);
            } else if a < old_versions.len() {
                assert(self.versions@[a] == old_versions[a]);
                assert(self.versions@[b].id@ == vid);
                assert(old_versions[a].id@ != vid);
            } else {
                assert(self.versions@[b] == old_versions[b]);
                assert(self.versions@[a].id@ == vid);
                assert(old_versions[b].id@ != vid);
            }
        }
        Ok(true)
    }

    /// Records an observation with the given id and time, and counts the use on the skill
    /// with id `skill_id` (archived or not): one more use, and one more success or failure
    /// when the outcome is `success` or `failure`. Refused, with nothing changed, when the
    /// observation id is taken or a counter is at the largest storable value.
    pub fn insert_observation_with(
        &mut self,
        id: String,
        now: String,
        skill_id: &str,
        outcome: &str,
        context: Option<&str>,
        suggestion: Option<&str>,
    ) -> (r: Result<String, DbError>)
        requires
            old(self)@.wf(),
        ensures
            insert_observation_effect(old(self)@, final(self)@, r, id@, now@, skill_id@, outcome@,
                opt_str_text(context), opt_str_text(suggestion)),
    {
        if self.has_observation_id(&id) {
            return Err(DbError::DuplicateObservationId);
        }
        let sid = String::from_str(skill_id);
        let out = String::from_str(outcome);
        let is_success = out.eq(&String::from_str("success"));
        let is_failure = out.eq(&String::from_str("failure"));
        let target = self.find_id_row(&sid);
        match target {
            Some(i) => {
                let s = &self.rows[i].skill;
                if s.usage_count >= STORE_MAX || (is_success && s.success_count >= STORE_MAX)
                    || (is_failure && s.failure_count >= STORE_MAX) {
                    return Err(DbError::CounterOverflow);
                }
            },
            None => {},
        }
        proof {
            assert forall|i: int| #[trigger] id_at(self@.rows, i, skill_id@) implies
                !count_would_overflow(self@.rows[i].skill, outcome@) by {
                if let Some(t) = target {
                    if i != t {
                        assert(self@.rows[i].skill.id@ != self@.rows[t as int].skill.id@);
                    }
                }
            }
        }
        let ghost old_obs = self.observations@;
        let ghost oid = id@;
        assert(!observation_id_taken(old_obs, oid));
        self.observations.push(Observation {
            id: id.clone(),
            skill_id: sid,
            outcome: out,
            context: match context { Some(c) => Some(c.to_owned()), None => None },
            suggestion: match suggestion { Some(c) => Some(c.to_owned()), None => None },
            created_at: now,
            consumed: false,
        });
        assert(self.observations@.drop_last() =~= old_obs);
        assert forall|a: int, b: int| 0 <= a < self.observations@.len() && 0 <= b < self.observations@.len() && a != b
            implies (#[trigger] self.observations@[a]).id@ != (#[trigger] self.observations@[b]).id@ by {
            if a < old_obs.len() && b < old_obs.len() {
                assert(self.observations@[a] == old_obs[a] && self.observations@[b] == old_obs[b]);
            } else if a < old_obs.len() {
                assert(self.observations@[a] == old_obs[a]);
                assert(self.observations@[b].id@ == oid);
                assert(old_obs[a].id@ != oid);
            } else {
                assert(self.observations@[b] == old_obs[b]);
                assert(self.observations@[a].id@ == oid);
                assert(old_obs[b].id@ != oid);
            }
        }
        let ghost old_rows = self.rows@;
        match target {
            Some(i) => {
                self.rows[i].skill.usage_count = self.rows[i].skill.usage_count + 1;
                if is_success {
                    self.rows[i].skill.success_count = self.rows[i].skill.success_count + 1;
                }
                if is_failure {
                    self.rows[i].skill.failure_count = self.rows[i].skill.failure_count + 1;
                }
                assert forall|j: int| #[trigger] id_at(old_rows, j, skill_id@) implies j == i by {
                    if j != i {
                        assert(old_rows[j].skill.id@ != old_rows[i as int].skill.id@);
                    }
                }
            },
            None => {},
        }
        assert forall|a: int, b: int| 0 <= a < self.rows@.len() && 0 <= b < self.rows@.len() && a != b
            implies (#[trigger] self.rows@[a]).skill.path@ != (#[trigger] self.rows@[b]).skill.path@
            && self.rows@[a].skill.id@ != self.rows@[b].skill.id@ by {
            assert(old_rows[a].skill.path@ != old_rows[b].skill.path@);
            assert(old_rows[a].skill.id@ != old_rows[b].skill.id@);
        }
        assert forall|a: int| 0 <= a < self@.rows.len() implies counters_fit(#[trigger] self@.rows[a].skill) by {
            assert(counters_fit(old_rows[a].skill));
        }
        assert(self@.versions == self.versions@ && self@.observations == self.observations@);
        assert(self@.rows == self.rows@);
        Ok(id)
    }

    /// Marks every unconsumed observation of skill `skill_id` consumed; returns how many.
    pub fn mark_observations_consumed(&mut self, skill_id: &str) -> (r: usize)
        requires
            old(self)@.wf(),
        ensures
            final(self)@.wf(),
            r == old(self)@.observations.filter(observation_filter(skill_id@, true)).len(),
            final(self)@.observations == old(self)@.observations.map_values(|o: Observation| consumed_for(o, skill_id@)),
            final(self)@.rows == old(self)@.rows,
            final(self)@.versions == old(self)@.versions,
    {
        let sid = String::from_str(skill_id);
        let ghost f = observation_filter(skill_id@, true);
        let ghost old_obs = self.observations@;
        let mut count: usize = 0;
        let mut i: usize = 0;
        while i < self.observations.len()
            invariant
                sid@ == skill_id@,
                f == observation_filter(skill_id@, true),
                self.observations@.len() == old_obs.len(),
                self.rows == old(self).rows,
                self.versions == old(self).versions,
                i <= self.observations.len(),
                count == old_obs.take(i as int).filter(f).len(),
                forall|k: int| 0 <= k < i ==> #[trigger] self.observations@[k] == consumed_for(old_obs[k], skill_id@),
                forall|k: int| i <= k < old_obs.len() ==> #[trigger] self.observations@[k] == old_obs[k],
            decreases old_obs.len() - i,
        {
            assert(old_obs.take(i + 1) =~= old_obs.take(i as int).push(old_obs[i as int]));
            proof { old_obs.take(i as int).lemma_filter_push(old_obs[i as int], f); }
            proof { old_obs.take(i as int).lemma_filter_len(f); }
            if self.observations[i].skill_id.eq(&sid) && !self.observations[i].consumed {
                self.observations[i].consumed = true;
                count = count + 1;
            }
            i = i + 1;
        }
        assert(old_obs.take(old_obs.len() as int) =~= old_obs);
        assert(self.observations@ =~= old_obs.map_values(|o: Observation| consumed_for(o, skill_id@)));
        assert forall|a: int, b: int| 0 <= a < self.observations@.len() && 0 <= b < self.observations@.len() && a != b
            implies (#[trigger] self.observations@[a]).id@ != (#[trigger] self.observations@[b]).id@ by {
            assert(old_obs[a].id@ != old_obs[b].id@);
        }
        assert(self@.rows == old(self)@.rows);
        assert(self@.versions == self.versions@ && self@.observations == self.observations@);
        assert(forall|a: int| 0 <= a < self@.rows.len() ==> counters_fit(#[trigger] self@.rows[a].skill));
        count
    }

    /// Inserts a new skill (version 1, no uses) under a fresh random id, stamped with the
    /// current time, together with its `initial` version record under another fresh id.
    pub fn insert_skill(
        &mut self,
        name: &str,
        path: &str,
        description: &str,
        parent_id: Option<&str>,
        source: &str,
        content_hash: &str,
    ) -> (r: Result<String, DbError>)
        requires
            old(self)@.wf(),
        ensures
            exists|id: Seq<char>, ver_id: Seq<char>, now: Seq<char>|
                is_v4_uuid_text(id) && is_v4_uuid_text(ver_id) && is_utc_timestamp(now) && #[trigger] insert_skill_effect(
                    old(self)@, final(self)@, r, id, ver_id, now, name@, path@, description@,
                    opt_str_text(parent_id), source@, content_hash@),
    {
        let id = new_uuid();
        let now = now_rfc3339();
        let ver_id = new_uuid();
        let ghost (i, v, n) = (id@, ver_id@, now@);
        let r = self.insert_skill_with(id, ver_id, now, name, path, description, parent_id, source, content_hash);
        assert(insert_skill_effect(old(self)@, self@, r, i, v, n, name@, path@, description@,
            opt_str_text(parent_id), source@, content_hash@));
        r
    }

    /// Moves the live skill at `path` to its next version, stamped with the current time,
    /// and records the version under a fresh random id.
    pub fn update_skill_content(&mut self, path: &str, content_hash: &str, description: &str) -> (r: Result<bool, DbError>)
        requires
            old(self)@.wf(),
            live_skill_at(old(self)@.rows, path@) matches Some(s) ==> s.version < u32::MAX,
        ensures
            exists|ver_id: Seq<char>, now: Seq<char>|
                is_v4_uuid_text(ver_id) && is_utc_timestamp(now) && #[trigger] update_content_effect(old(self)@, final(self)@, r, ver_id, now, path@,
                    content_hash@, description@),
    {
        let now = now_rfc3339();
        let ver_id = new_uuid();
        let ghost (v, n) = (ver_id@, now@);
        let r = self.update_skill_content_with(ver_id, now, path, content_hash, description);
        assert(update_content_effect(old(self)@, self@, r, v, n, path@, content_hash@, description@));
        r
    }

    /// Records an observation of skill `skill_id` under a fresh random id, stamped with
    /// the current time, and counts the use on the skill.
    pub fn insert_observation(
        &mut self,
        skill_id: &str,
        outcome: &str,
        context: Option<&str>,
        suggestion: Option<&str>,
    ) -> (r: Result<String, DbError>)
        requires
            old(self)@.wf(),
        ensures
            exists|id: Seq<char>, now: Seq<char>|
                is_v4_uuid_text(id) && is_utc_timestamp(now) && #[trigger] insert_observation_effect(old(self)@, final(self)@, r, id, now,
                    skill_id@, outcome@, opt_str_text(context), opt_str_text(suggestion)),
    {
        let id = new_uuid();
        let now = now_rfc3339();
        let ghost (i, n) = (id@, now@);
        let r = self.insert_observation_with(id, now, skill_id, outcome, context, suggestion);
        assert(insert_observation_effect(old(self)@, self@, r, i, n, skill_id@, outcome@,
            opt_str_text(context), opt_str_text(suggestion)));
        r
    }

    /// A store holding exactly these rows, when they meet the table constraints.
    pub fn from_rows(rows: Vec<SkillRow>, observations: Vec<Observation>, versions: Vec<VersionRecord>) -> (r: Result<Database, DbError>)
        ensures
            r matches Ok(db) ==> db@ == (DbState { rows: rows@, observations: observations@, versions: versions@ }),
            r is Ok <==> (DbState { rows: rows@, observations: observations@, versions: versions@ }).wf(),
    {
        let mut paths: Vec<String> = Vec::new();
        let mut ids: Vec<String> = Vec::new();
        let mut i: usize = 0;
        while i < rows.len()
            invariant
                i <= rows.len(),
                paths@.len() == i,
                ids@.len() == i,
                forall|k: int| 0 <= k < i ==> (#[trigger] paths@[k])@ == rows@[k].skill.path@,
                forall|k: int| 0 <= k < i ==> (#[trigger] ids@[k])@ == rows@[k].skill.id@,
                forall|k: int| 0 <= k < i ==> counters_fit(#[trigger] rows@[k].skill),
            decreases rows.len() - i,
        {
            let sk = &rows[i].skill;
            if sk.usage_count > STORE_MAX || sk.success_count > STORE_MAX || sk.failure_count > STORE_MAX {
                return Err(DbError::CounterOverflow);
            }
            paths.push(sk.path.clone());
            ids.push(sk.id.clone());
            i = i + 1;
        }
        if !all_distinct(&paths) {
            assert(!rows_distinct(rows@)) by {
                let (a, b) = choose|a: int, b: int| 0 <= a < paths@.len() && 0 <= b < paths@.len() && a != b
                    && (#[trigger] paths@[a])@ == (#[trigger] paths@[b])@;
                assert(rows@[a].skill.path@ == rows@[b].skill.path@);
            }
            return Err(DbError::DuplicatePath);
        }
        if !all_distinct(&ids) {
            assert(!rows_distinct(rows@)) by {
                let (a, b) = choose|a: int, b: int| 0 <= a < ids@.len() && 0 <= b < ids@.len() && a != b
                    && (#[trigger] ids@[a])@ == (#[trigger] ids@[b])@;
                assert(rows@[a].skill.id@ == rows@[b].skill.id@);
            }
            return Err(DbError::DuplicateSkillId);
        }
        assert(rows_distinct(rows@)) by {
            assert forall|a: int, b: int| 0 <= a < rows@.len() && 0 <= b < rows@.len() && a != b
                implies (#[trigger] rows@[a]).skill.path@ != (#[trigger] rows@[b]).skill.path@
                && rows@[a].skill.id@ != rows@[b].skill.id@ by {
                assert(paths@[a]@ != paths@[b]@);
                assert(ids@[a]@ != ids@[b]@);
            }
        }
        let mut oids: Vec<String> = Vec::new();
        let mut i: usize = 0;
        while i < observations.len()
            invariant
                i <= observations.len(),
                oids@.len() == i,
                forall|k: int| 0 <= k < i ==> (#[trigger] oids@[k])@ == observations@[k].id@,
            decreases observations.len() - i,
        {
            oids.push(observations[i].id.clone());
            i = i + 1;
        }
        if !all_distinct(&oids) {
            assert(!observations_distinct(observations@)) by {
                let (a, b) = choose|a: int, b: int| 0 <= a < oids@.len() && 0 <= b < oids@.len() && a != b
                    && (#[trigger] oids@[a])@ == (#[trigger] oids@[b])@;
                assert(observations@[a].id@ == observations@[b].id@);
            }
            return Err(DbError::DuplicateObservationId);
        }
        assert(observations_distinct(observations@)) by {
            assert forall|a: int, b: int| 0 <= a < observations@.len() && 0 <= b < observations@.len() && a != b
                implies (#[trigger] observations@[a]).id@ != (#[trigger] observations@[b]).id@ by {
                assert(oids@[a]@ != oids@[b]@);
            }
        }
        let mut vids: Vec<String> = Vec::new();
        let mut i: usize = 0;
        while i < versions.len()
            invariant
                i <= versions.len(),
                vids@.len() == i,
                forall|k: int| 0 <= k < i ==> (#[trigger] vids@[k])@ == versions@[k].id@,
            decreases versions.len() - i,
        {
            vids.push(versions[i].id.clone());
            i = i + 1;
        }
        if !all_distinct(&vids) {
            assert(!versions_distinct(versions@)) by {
                let (a, b) = choose|a: int, b: int| 0 <= a < vids@.len() && 0 <= b < vids@.len() && a != b
                    && (#[trigger] vids@[a])@ == (#[trigger] vids@[b])@;
                assert(versions@[a].id@ == versions@[b].id@);
            }
            return Err(DbError::DuplicateVersionId);
        }
        assert(versions_distinct(versions@)) by {
            assert forall|a: int, b: int| 0 <= a < versions@.len() && 0 <= b < versions@.len() && a != b
                implies (#[trigger] versions@[a]).id@ != (#[trigger] versions@[b]).id@ by {
                assert(vids@[a]@ != vids@[b]@);
            }
        }
        Ok(Database { rows, observations, versions })
    }
}

} // verus!
