//! Properties of the grove that hold across its operations.
use vstd::prelude::*;

use crate::db::{
    consume_effect, consumed_for, insert_observation_effect, insert_skill_effect, is_counted, is_new_skill, live_at,
    live_skill_at, live_skills, observation_filter, version_filter, by_version_desc, path_taken, skill_id_taken, update_content_effect, by_path,
    counter_sum, lemma_counter_sum_permutation, version_id_taken, Counter, DbError, DbState, Observation, Skill, SkillRow,
    VersionRecord,
};
use crate::order::{lemma_lex_total, lemma_lex_trans, lex_le, sorted_by_le};
use crate::display::{ancestors, child_of, is_node, max_path_len, render_from, strictly_sorted, tree_lines, tree_nodes};
use crate::merge::{
    description_in_lines, line_description, sanitize_char, spec_extract_description, spec_sanitize_name, spec_sanitize_path,
};
use crate::text::{
    contains_seq, find_first, has_prefix, join, lemma_split_char_nonempty, occurs_at, split_char, strip_both, strip_end, strip_pred,
    strip_start, StripSet,
};
use crate::tree::{spec_evolve_action, EvolveAction, default_content, default_head, parent_path, rfind_char, spec_evolved_content, valid_skill_path};

verus! {

proof fn lemma_live_unique(rows: Seq<SkillRow>, i: int, p: Seq<char>)
    requires
        crate::db::rows_distinct(rows),
        live_at(rows, i, p),
    ensures
        live_skill_at(rows, p) == Some(rows[i].skill),
{
    let c = choose|j: int| live_at(rows, j, p);
    if c != i {
        assert(rows[c].skill.path@ != rows[i].skill.path@);
    }
}

/// A skill inserted at a free path is then found at that path: version 1, no uses.
pub proof fn law_inserted_skill_is_found(
    old: DbState, new: DbState, r: Result<String, DbError>, id: Seq<char>, ver_id: Seq<char>, now: Seq<char>,
    name: Seq<char>, path: Seq<char>, description: Seq<char>, parent_id: Option<Seq<char>>, source: Seq<char>,
    content_hash: Seq<char>,
)
    requires
        old.wf(),
        insert_skill_effect(old, new, r, id, ver_id, now, name, path, description, parent_id, source, content_hash),
        !path_taken(old.rows, path),
        !skill_id_taken(old.rows, id),
    ensures
        live_skill_at(new.rows, path) matches Some(s)
            && is_new_skill(s, id, name, path, description, parent_id, source, now, content_hash),
{
    let i = new.rows.len() - 1;
    assert(live_at(new.rows, i, path));
    lemma_live_unique(new.rows, i, path);
}

/// An insertion at a path that any stored skill holds, archived or not, is refused and
/// changes nothing.
pub proof fn law_taken_path_refuses_insert(
    old: DbState, new: DbState, r: Result<String, DbError>, id: Seq<char>, ver_id: Seq<char>, now: Seq<char>,
    name: Seq<char>, path: Seq<char>, description: Seq<char>, parent_id: Option<Seq<char>>, source: Seq<char>,
    content_hash: Seq<char>,
)
    requires
        insert_skill_effect(old, new, r, id, ver_id, now, name, path, description, parent_id, source, content_hash),
        path_taken(old.rows, path),
    ensures
        r matches Err(DbError::DuplicatePath),
        new == old,
{
}

/// An archived skill is no longer found at its path, yet its path stays taken.
pub proof fn law_archived_skill_is_hidden(old: DbState, i: int, path: Seq<char>, new_rows: Seq<SkillRow>)
    requires
        old.wf(),
        live_at(old.rows, i, path),
        new_rows == old.rows.update(i, SkillRow { skill: old.rows[i].skill, archived: true }),
    ensures
        live_skill_at(new_rows, path) is None,
        path_taken(new_rows, path),
{
    assert(new_rows[i].skill.path@ == path);
    assert forall|j: int| !live_at(new_rows, j, path) by {
        if live_at(new_rows, j, path) && j != i {
            assert(new_rows[j] == old.rows[j]);
            assert(old.rows[j].skill.path@ != old.rows[i].skill.path@);
        }
    }
}

/// A deleted skill frees its path.
pub proof fn law_deleted_path_is_free(old: DbState, i: int, path: Seq<char>)
    requires
        old.wf(),
        0 <= i < old.rows.len(),
        old.rows[i].skill.path@ == path,
    ensures
        !path_taken(old.rows.remove(i), path),
{
    let t = old.rows.remove(i);
    assert forall|j: int| 0 <= j < t.len() implies (#[trigger] t[j]).skill.path@ != path by {
        let oj = if j < i { j } else { j + 1 };
        assert(t[j] == old.rows[oj]);
        assert(old.rows[oj].skill.path@ != old.rows[i].skill.path@);
    }
}

/// Recording an observation of a live skill counts one more use of it, and one more
/// success or failure as the outcome says; the rest of the skill is unchanged.
pub proof fn law_observation_counts_use(
    old: DbState, new: DbState, r: Result<String, DbError>, id: Seq<char>, now: Seq<char>, path: Seq<char>,
    outcome: Seq<char>, context: Option<Seq<char>>, suggestion: Option<Seq<char>>,
)
    requires
        old.wf(),
        live_skill_at(old.rows, path) is Some,
        insert_observation_effect(old, new, r, id, now, live_skill_at(old.rows, path)->0.id@, outcome, context, suggestion),
        r is Ok,
    ensures
        live_skill_at(new.rows, path) matches Some(n) && is_counted(n, live_skill_at(old.rows, path)->0, outcome),
{
    let s = live_skill_at(old.rows, path)->0;
    let i = choose|j: int| live_at(old.rows, j, path);
    lemma_live_unique(old.rows, i, path);
    assert(crate::db::id_at(old.rows, i, s.id@));
    assert(live_at(new.rows, i, path));
    lemma_live_unique(new.rows, i, path);
}

/// Evolving a live skill moves it to exactly the next version.
pub proof fn law_evolution_bumps_version(
    old: DbState, new: DbState, r: Result<bool, DbError>, ver_id: Seq<char>, now: Seq<char>, path: Seq<char>,
    content_hash: Seq<char>, description: Seq<char>,
)
    requires
        old.wf(),
        update_content_effect(old, new, r, ver_id, now, path, content_hash, description),
        live_skill_at(old.rows, path) is Some,
    ensures
        live_skill_at(new.rows, path) matches Some(n)
            && n.version == live_skill_at(old.rows, path)->0.version + 1
            && n.content_hash@ == content_hash,
{
    let i = choose|j: int| {
        &&& #[trigger] live_at(old.rows, j, path)
        &&& new.rows.len() == old.rows.len()
        &&& forall|k: int| 0 <= k < old.rows.len() && k != j ==> #[trigger] new.rows[k] == old.rows[k]
        &&& !new.rows[j].archived
        &&& crate::db::is_evolved(new.rows[j].skill, old.rows[j].skill, content_hash, now)
        &&& new.observations == old.observations
        &&& crate::db::version_id_taken(old.versions, ver_id) ==> (r matches Err(DbError::DuplicateVersionId)
                && new.versions == old.versions)
        &&& !crate::db::version_id_taken(old.versions, ver_id) ==> (r matches Ok(true)
                && new.versions.len() == old.versions.len() + 1
                && new.versions.drop_last() == old.versions
                && crate::db::is_version_record(new.versions.last(), ver_id, old.rows[j].skill.id@,
                    (old.rows[j].skill.version + 1) as u32, content_hash, description, now))
    };
    lemma_live_unique(old.rows, i, path);
    assert(live_at(new.rows, i, path));
    lemma_live_unique(new.rows, i, path);
}

/// Skill `s` has a version record for its current version and content hash.
pub open spec fn has_current_record(vs: Seq<VersionRecord>, s: Skill) -> bool {
    exists|k: int| 0 <= k < vs.len() && #[trigger] vs[k].skill_id@ == s.id@ && vs[k].version == s.version
        && vs[k].content_hash@ == s.content_hash@
}

/// Every stored skill, archived or not, has a version record of its current version and
/// content, as `history` shows with the current marker.
pub open spec fn current_versions_recorded(st: DbState) -> bool {
    forall|i: int| 0 <= i < st.rows.len() ==> #[trigger] has_current_record(st.versions, st.rows[i].skill)
}

proof fn lemma_record_survives_append(old: Seq<VersionRecord>, new: Seq<VersionRecord>, s: Skill)
    requires
        has_current_record(old, s),
        new.len() == old.len() + 1,
        new.drop_last() == old,
    ensures
        has_current_record(new, s),
{
    let k = choose|k: int| 0 <= k < old.len() && #[trigger] old[k].skill_id@ == s.id@ && old[k].version == s.version
        && old[k].content_hash@ == s.content_hash@;
    assert(new[k] == new.drop_last()[k]);
}

/// Inserting a skill records its first version: when every stored skill had a record of
/// its current version before, it still holds after, the new skill included.
pub proof fn law_insert_keeps_versions_recorded(
    old: DbState, new: DbState, r: Result<String, DbError>, id: Seq<char>, ver_id: Seq<char>, now: Seq<char>,
    name: Seq<char>, path: Seq<char>, description: Seq<char>, parent_id: Option<Seq<char>>, source: Seq<char>,
    content_hash: Seq<char>,
)
    requires
        current_versions_recorded(old),
        insert_skill_effect(old, new, r, id, ver_id, now, name, path, description, parent_id, source, content_hash),
        !version_id_taken(old.versions, ver_id),
    ensures
        current_versions_recorded(new),
{
    if !path_taken(old.rows, path) && !skill_id_taken(old.rows, id) {
        assert forall|i: int| 0 <= i < new.rows.len() implies #[trigger] has_current_record(new.versions, new.rows[i].skill) by {
            if i < old.rows.len() {
                assert(new.rows[i] == new.rows.drop_last()[i]);
                assert(has_current_record(old.versions, old.rows[i].skill));
                lemma_record_survives_append(old.versions, new.versions, old.rows[i].skill);
            } else {
                let k = new.versions.len() - 1;
                assert(new.versions[k].skill_id@ == new.rows[i].skill.id@);
            }
        }
    }
}

/// Evolving a skill records its new version: when every stored skill had a record of its
/// current version before, it still holds after.
pub proof fn law_update_keeps_versions_recorded(
    old: DbState, new: DbState, r: Result<bool, DbError>, ver_id: Seq<char>, now: Seq<char>, path: Seq<char>,
    content_hash: Seq<char>, description: Seq<char>,
)
    requires
        old.wf(),
        current_versions_recorded(old),
        update_content_effect(old, new, r, ver_id, now, path, content_hash, description),
        !version_id_taken(old.versions, ver_id),
        live_skill_at(old.rows, path) matches Some(s) ==> s.version < u32::MAX,
    ensures
        current_versions_recorded(new),
{
    if live_skill_at(old.rows, path) is Some {
        let i = choose|j: int| {
            &&& #[trigger] live_at(old.rows, j, path)
            &&& new.rows.len() == old.rows.len()
            &&& forall|k: int| 0 <= k < old.rows.len() && k != j ==> #[trigger] new.rows[k] == old.rows[k]
            &&& !new.rows[j].archived
            &&& crate::db::is_evolved(new.rows[j].skill, old.rows[j].skill, content_hash, now)
            &&& new.observations == old.observations
            &&& version_id_taken(old.versions, ver_id) ==> (r matches Err(DbError::DuplicateVersionId)
                    && new.versions == old.versions)
            &&& !version_id_taken(old.versions, ver_id) ==> (r matches Ok(true)
                    && new.versions.len() == old.versions.len() + 1
                    && new.versions.drop_last() == old.versions
                    && crate::db::is_version_record(new.versions.last(), ver_id, old.rows[j].skill.id@,
                        (old.rows[j].skill.version + 1) as u32, content_hash, description, now))
        };
        lemma_live_unique(old.rows, i, path);
        assert forall|j: int| 0 <= j < new.rows.len() implies #[trigger] has_current_record(new.versions, new.rows[j].skill) by {
            if j != i {
                assert(has_current_record(old.versions, old.rows[j].skill));
                lemma_record_survives_append(old.versions, new.versions, old.rows[j].skill);
            } else {
                let k = new.versions.len() - 1;
                assert(new.versions[k].skill_id@ == new.rows[i].skill.id@);
            }
        }
    }
}

/// Recording an observation leaves every skill's version and content as they were, so
/// each still has a record of its current version.
pub proof fn law_observation_keeps_versions_recorded(
    old: DbState, new: DbState, r: Result<String, DbError>, id: Seq<char>, now: Seq<char>, skill_id: Seq<char>,
    outcome: Seq<char>, context: Option<Seq<char>>, suggestion: Option<Seq<char>>,
)
    requires
        current_versions_recorded(old),
        insert_observation_effect(old, new, r, id, now, skill_id, outcome, context, suggestion),
    ensures
        current_versions_recorded(new),
{
    if r is Ok {
        assert forall|j: int| 0 <= j < new.rows.len() implies #[trigger] has_current_record(new.versions, new.rows[j].skill) by {
            assert(has_current_record(old.versions, old.rows[j].skill));
            if crate::db::id_at(old.rows, j, skill_id) {
                assert(crate::db::is_counted(new.rows[j].skill, old.rows[j].skill, outcome));
            } else {
                assert(new.rows[j] == old.rows[j]);
            }
        }
    }
}

/// Pruning a skill, archived or deleted, leaves every remaining skill with a record of its
/// current version.
pub proof fn law_prune_keeps_versions_recorded(old: DbState, i: int, archive: bool)
    requires
        current_versions_recorded(old),
        0 <= i < old.rows.len(),
    ensures
        archive ==> current_versions_recorded(DbState {
            rows: old.rows.update(i, SkillRow { skill: old.rows[i].skill, archived: true }), ..old }),
        !archive ==> current_versions_recorded(DbState { rows: old.rows.remove(i), ..old }),
{
    let a = old.rows.update(i, SkillRow { skill: old.rows[i].skill, archived: true });
    assert forall|j: int| 0 <= j < a.len() implies #[trigger] has_current_record(old.versions, a[j].skill) by {
        assert(has_current_record(old.versions, old.rows[j].skill));
    }
    let d = old.rows.remove(i);
    assert forall|j: int| 0 <= j < d.len() implies #[trigger] has_current_record(old.versions, d[j].skill) by {
        let oj = if j < i { j } else { j + 1 };
        assert(d[j] == old.rows[oj]);
        assert(has_current_record(old.versions, old.rows[oj].skill));
    }
}

/// The version records of skill `id`, in the order they were stored, number 1 to `k`, and
/// the first is the `initial` one.
pub open spec fn versions_in_order(vs: Seq<VersionRecord>, id: Seq<char>, k: nat) -> bool {
    let f = vs.filter(version_filter(id));
    &&& f.len() == k
    &&& forall|i: int| 0 <= i < f.len() ==> (#[trigger] f[i]).version == i + 1
    &&& k > 0 ==> f[0].description@ == "initial"@
}

proof fn lemma_filter_none<T>(s: Seq<T>, p: spec_fn(T) -> bool)
    requires
        forall|k: int| 0 <= k < s.len() ==> !p(#[trigger] s[k]),
    ensures
        s.filter(p).len() == 0,
{
    if s.filter(p).len() > 0 {
        s.lemma_filter_pred(p, 0);
        assert(s.filter(p).contains(s.filter(p)[0]));
        crate::order::lemma_filter_member(s, p, s.filter(p)[0]);
    }
}

proof fn lemma_filter_after_push<T>(old: Seq<T>, new: Seq<T>, p: spec_fn(T) -> bool)
    requires
        new.len() == old.len() + 1,
        new.drop_last() == old,
    ensures
        p(new.last()) ==> new.filter(p) == old.filter(p).push(new.last()),
        !p(new.last()) ==> new.filter(p) == old.filter(p),
{
    assert(new =~= old.push(new.last()));
    old.lemma_filter_push(new.last(), p);
}

/// Inserting a skill whose id no version record carries yet gives it exactly one version
/// record: version 1, `initial`, with the skill's content hash.
pub proof fn law_insert_starts_versions(
    old: DbState, new: DbState, r: Result<String, DbError>, id: Seq<char>, ver_id: Seq<char>, now: Seq<char>,
    name: Seq<char>, path: Seq<char>, description: Seq<char>, parent_id: Option<Seq<char>>, source: Seq<char>,
    content_hash: Seq<char>,
)
    requires
        insert_skill_effect(old, new, r, id, ver_id, now, name, path, description, parent_id, source, content_hash),
        !path_taken(old.rows, path),
        !skill_id_taken(old.rows, id),
        !version_id_taken(old.versions, ver_id),
        forall|k: int| 0 <= k < old.versions.len() ==> (#[trigger] old.versions[k]).skill_id@ != id,
    ensures
        r matches Ok(x) && x@ == id,
        new.versions.filter(version_filter(id)) == seq![new.versions.last()],
        crate::db::is_version_record(new.versions.last(), ver_id, id, 1, content_hash, "initial"@, now),
        versions_in_order(new.versions, id, 1),
{
    lemma_filter_none(old.versions, version_filter(id));
    lemma_filter_after_push(old.versions, new.versions, version_filter(id));
    assert(old.versions.filter(version_filter(id)) =~= Seq::<VersionRecord>::empty());
    assert(Seq::<VersionRecord>::empty().push(new.versions.last()) =~= seq![new.versions.last()]);
}

/// Evolving a live skill whose version records are all at or below its version leaves the
/// rest of the skill as it was and adds one record, the newest: the next version with the
/// new hash and description.
pub proof fn law_update_adds_newest_version(
    old: DbState, new: DbState, r: Result<bool, DbError>, ver_id: Seq<char>, now: Seq<char>, path: Seq<char>,
    content_hash: Seq<char>, description: Seq<char>, s0: Skill,
)
    requires
        old.wf(),
        update_content_effect(old, new, r, ver_id, now, path, content_hash, description),
        live_skill_at(old.rows, path) == Some(s0),
        s0.version < u32::MAX,
        !version_id_taken(old.versions, ver_id),
        forall|k: int| 0 <= k < old.versions.len() && (#[trigger] old.versions[k]).skill_id@ == s0.id@
            ==> old.versions[k].version <= s0.version,
    ensures
        r matches Ok(true),
        live_skill_at(new.rows, path) matches Some(n) && crate::db::is_evolved(n, s0, content_hash, now),
        new.versions.filter(version_filter(s0.id@)) == old.versions.filter(version_filter(s0.id@)).push(new.versions.last()),
        crate::db::is_version_record(new.versions.last(), ver_id, s0.id@, (s0.version + 1) as u32, content_hash,
            description, now),
        forall|k: int| 0 <= k < old.versions.filter(version_filter(s0.id@)).len()
            ==> (#[trigger] old.versions.filter(version_filter(s0.id@))[k]).version < new.versions.last().version,
{
    let i = choose|j: int| {
        &&& #[trigger] live_at(old.rows, j, path)
        &&& new.rows.len() == old.rows.len()
        &&& forall|k: int| 0 <= k < old.rows.len() && k != j ==> #[trigger] new.rows[k] == old.rows[k]
        &&& !new.rows[j].archived
        &&& crate::db::is_evolved(new.rows[j].skill, old.rows[j].skill, content_hash, now)
        &&& new.observations == old.observations
        &&& version_id_taken(old.versions, ver_id) ==> (r matches Err(DbError::DuplicateVersionId)
                && new.versions == old.versions)
        &&& !version_id_taken(old.versions, ver_id) ==> (r matches Ok(true)
                && new.versions.len() == old.versions.len() + 1
                && new.versions.drop_last() == old.versions
                && crate::db::is_version_record(new.versions.last(), ver_id, old.rows[j].skill.id@,
                    (old.rows[j].skill.version + 1) as u32, content_hash, description, now))
    };
    lemma_live_unique(old.rows, i, path);
    assert(live_at(new.rows, i, path));
    lemma_live_unique(new.rows, i, path);
    lemma_filter_after_push(old.versions, new.versions, version_filter(s0.id@));
    let f = old.versions.filter(version_filter(s0.id@));
    assert forall|k: int| 0 <= k < f.len() implies (#[trigger] f[k]).version < new.versions.last().version by {
        old.versions.lemma_filter_pred(version_filter(s0.id@), k);
        assert(f.contains(f[k]));
        crate::order::lemma_filter_member(old.versions, version_filter(s0.id@), f[k]);
        let m = choose|m: int| 0 <= m < old.versions.len() && old.versions[m] == f[k];
        assert(old.versions[m].skill_id@ == s0.id@);
    }
}

/// Evolving a live skill whose version records run 1 to its version keeps them running
/// in order, one further.
pub proof fn law_update_continues_versions(
    old: DbState, new: DbState, r: Result<bool, DbError>, ver_id: Seq<char>, now: Seq<char>, path: Seq<char>,
    content_hash: Seq<char>, description: Seq<char>, s0: Skill,
)
    requires
        old.wf(),
        update_content_effect(old, new, r, ver_id, now, path, content_hash, description),
        live_skill_at(old.rows, path) == Some(s0),
        0 < s0.version < u32::MAX,
        !version_id_taken(old.versions, ver_id),
        versions_in_order(old.versions, s0.id@, s0.version as nat),
    ensures
        versions_in_order(new.versions, s0.id@, (s0.version + 1) as nat),
{
    let f = old.versions.filter(version_filter(s0.id@));
    assert forall|k: int| 0 <= k < old.versions.len() && (#[trigger] old.versions[k]).skill_id@ == s0.id@
        implies old.versions[k].version <= s0.version by {
        lemma_filter_keeps(old.versions, version_filter(s0.id@), k);
        let m = choose|m: int| 0 <= m < f.len() && f[m] == old.versions[k];
        assert(f[m].version == m + 1);
    }
    law_update_adds_newest_version(old, new, r, ver_id, now, path, content_hash, description, s0);
    let g = new.versions.filter(version_filter(s0.id@));
    assert(g == f.push(new.versions.last()));
    assert forall|i: int| 0 <= i < g.len() implies (#[trigger] g[i]).version == i + 1 by {
        if i < f.len() {
            assert(g[i] == f[i]);
        }
    }
    assert(g[0] == f[0]);
}

proof fn lemma_filter_keeps<T>(s: Seq<T>, p: spec_fn(T) -> bool, k: int)
    requires
        0 <= k < s.len(),
        p(s[k]),
    ensures
        s.filter(p).contains(s[k]),
    decreases s.len(),
{
    let t = s.drop_last();
    assert(s =~= t.push(s.last()));
    t.lemma_filter_push(s.last(), p);
    if k == s.len() - 1 {
        assert(s.filter(p) == t.filter(p).push(s[k]));
        assert(s.filter(p)[t.filter(p).len() as int] == s[k]);
    } else {
        assert(t[k] == s[k]);
        lemma_filter_keeps(t, p, k);
        let m = choose|m: int| 0 <= m < t.filter(p).len() && t.filter(p)[m] == s[k];
        if p(s.last()) {
            assert(s.filter(p)[m] == s[k]);
        }
    }
}

proof fn lemma_strictly_descending(vs: Seq<VersionRecord>, k: nat)
    requires
        vs.len() == k,
        forall|i: int, j: int| 0 <= i < j < vs.len() ==> (#[trigger] vs[i]).version > (#[trigger] vs[j]).version,
        forall|i: int| 0 <= i < vs.len() ==> 1 <= (#[trigger] vs[i]).version <= k,
    ensures
        forall|i: int| 0 <= i < vs.len() ==> (#[trigger] vs[i]).version == k - i,
    decreases k,
{
    if k > 0 {
        let t = vs.drop_first();
        assert forall|i: int| 0 <= i < t.len() implies 1 <= (#[trigger] t[i]).version <= (k - 1) as nat by {
            assert(t[i] == vs[i + 1]);
            assert(vs[0].version > vs[i + 1].version);
        }
        assert forall|i: int, j: int| 0 <= i < j < t.len() implies (#[trigger] t[i]).version > (#[trigger] t[j]).version by {
            assert(t[i] == vs[i + 1] && t[j] == vs[j + 1]);
        }
        lemma_strictly_descending(t, (k - 1) as nat);
        assert forall|i: int| 0 <= i < vs.len() implies (#[trigger] vs[i]).version == k - i by {
            if i > 0 {
                assert(vs[i] == t[i - 1]);
            } else if k > 1 {
                assert(t[0] == vs[1]);
                assert(vs[0].version > vs[1].version);
            }
        }
    }
}

/// Listed newest first, as `get_versions` lists them, version records that run 1 to `k`
/// in storage order read `k` down to 1, the last one `initial`.
pub proof fn law_versions_listed_newest_first(all: Seq<VersionRecord>, id: Seq<char>, k: nat, listed: Seq<VersionRecord>)
    requires
        versions_in_order(all, id, k),
        sorted_by_le(listed, by_version_desc()),
        listed.to_multiset() == all.filter(version_filter(id)).to_multiset(),
    ensures
        listed.len() == k,
        forall|i: int| 0 <= i < listed.len() ==> (#[trigger] listed[i]).version == k - i,
        k > 0 ==> listed[k - 1].description@ == "initial"@,
        forall|i: int| 0 <= i < listed.len() ==> (#[trigger] listed[i]).skill_id@ == id,
{
    broadcast use vstd::seq_lib::group_to_multiset_ensures;
    let f = all.filter(version_filter(id));
    assert(listed.len() == listed.to_multiset().len());
    assert(f.len() == f.to_multiset().len());
    assert forall|i: int| 0 <= i < listed.len() implies f.contains(#[trigger] listed[i]) by {
        assert(listed.contains(listed[i]));
        assert(listed.to_multiset().count(listed[i]) > 0);
    }
    assert forall|i: int| 0 <= i < listed.len() implies 1 <= (#[trigger] listed[i]).version <= k
        && listed[i].skill_id@ == id by {
        assert(f.contains(listed[i]));
        let m = choose|m: int| 0 <= m < f.len() && f[m] == listed[i];
        assert(f[m].version == m + 1);
        all.lemma_filter_pred(version_filter(id), m);
    }
    assert forall|i: int, j: int| 0 <= i < j < listed.len() implies (#[trigger] listed[i]).version > (#[trigger] listed[j]).version by {
        assert(by_version_desc()(listed[i], listed[j]));
        if listed[i].version == listed[j].version {
            assert(f.contains(listed[i]) && f.contains(listed[j]));
            let a = choose|a: int| 0 <= a < f.len() && f[a] == listed[i];
            let b = choose|b: int| 0 <= b < f.len() && f[b] == listed[j];
            assert(f[a].version == a + 1 && f[b].version == b + 1);
            assert(a == b);
            assert(listed[i] == listed[j]);
            let x = listed[i];
            assert(listed.to_multiset().count(x) >= 2) by {
                assert(listed.remove(j).contains(x)) by {
                    assert(listed.remove(j)[i] == x);
                }
                assert(listed.remove(j).to_multiset().count(x) > 0);
                assert(listed.remove(j).to_multiset() =~= listed.to_multiset().remove(x));
            }
            assert(f.no_duplicates()) by {
                assert forall|p: int, q: int| 0 <= p < f.len() && 0 <= q < f.len() && p != q implies f[p] != f[q] by {
                    assert(f[p].version == p + 1 && f[q].version == q + 1);
                }
            }
            f.lemma_multiset_has_no_duplicates();
            assert(f.to_multiset().contains(x));
        }
    }
    lemma_strictly_descending(listed, k);
    if k > 0 {
        assert(listed[k - 1].version == 1);
        assert(f.contains(listed[k - 1]));
        let m = choose|m: int| 0 <= m < f.len() && f[m] == listed[k - 1];
        assert(f[m].version == m + 1);
        assert(m == 0);
    }
}

/// Recording an observation adds exactly it: one more observation, unconsumed, listed
/// last among the skill's pending ones; the skill with that id counts the use and every
/// other skill stays as it was.
pub proof fn law_observation_is_added(
    old: DbState, new: DbState, r: Result<String, DbError>, id: Seq<char>, now: Seq<char>, skill_id: Seq<char>,
    outcome: Seq<char>, context: Option<Seq<char>>, suggestion: Option<Seq<char>>,
)
    requires
        insert_observation_effect(old, new, r, id, now, skill_id, outcome, context, suggestion),
        r is Ok,
    ensures
        new.observations.len() == old.observations.len() + 1,
        crate::db::is_new_observation(new.observations.last(), id, skill_id, outcome, context, suggestion, now),
        new.observations.filter(observation_filter(skill_id, true))
            == old.observations.filter(observation_filter(skill_id, true)).push(new.observations.last()),
        new.observations.filter(observation_filter(skill_id, false))
            == old.observations.filter(observation_filter(skill_id, false)).push(new.observations.last()),
        new.rows.len() == old.rows.len(),
        forall|j: int| 0 <= j < old.rows.len() && (#[trigger] old.rows[j]).skill.id@ == skill_id
            ==> is_counted(new.rows[j].skill, old.rows[j].skill, outcome) && new.rows[j].archived == old.rows[j].archived,
        forall|j: int| 0 <= j < old.rows.len() && (#[trigger] old.rows[j]).skill.id@ != skill_id ==> new.rows[j] == old.rows[j],
{
    lemma_filter_after_push(old.observations, new.observations, observation_filter(skill_id, true));
    lemma_filter_after_push(old.observations, new.observations, observation_filter(skill_id, false));
    assert forall|j: int| 0 <= j < old.rows.len() && (#[trigger] old.rows[j]).skill.id@ == skill_id
        implies is_counted(new.rows[j].skill, old.rows[j].skill, outcome) && new.rows[j].archived == old.rows[j].archived by {
        assert(crate::db::id_at(old.rows, j, skill_id));
    }
    assert forall|j: int| 0 <= j < old.rows.len() && (#[trigger] old.rows[j]).skill.id@ != skill_id
        implies new.rows[j] == old.rows[j] by {
        assert(!crate::db::id_at(old.rows, j, skill_id));
    }
}

/// Consuming keeps every observation's id, skill and content; consuming again right after
/// consumes nothing and changes nothing.
pub proof fn law_consume_is_idempotent(old: DbState, new: DbState, id: Seq<char>)
    requires
        consume_effect(old, new, id),
    ensures
        new.observations.len() == old.observations.len(),
        forall|k: int| 0 <= k < new.observations.len() ==> (#[trigger] new.observations[k]).id == old.observations[k].id
            && new.observations[k].skill_id == old.observations[k].skill_id
            && new.observations[k].outcome == old.observations[k].outcome
            && new.observations[k].context == old.observations[k].context
            && new.observations[k].suggestion == old.observations[k].suggestion
            && new.observations[k].created_at == old.observations[k].created_at,
        new.observations.filter(observation_filter(id, true)).len() == 0,
        new.observations.map_values(|o: Observation| consumed_for(o, id)) == new.observations,
{
    law_consumed_observations_are_gone(old, new, id);
    assert forall|k: int| 0 <= k < new.observations.len() implies
        #[trigger] consumed_for(new.observations[k], id) == new.observations[k] by {
        assert(new.observations[k] == consumed_for(old.observations[k], id));
    }
    assert(new.observations.map_values(|o: Observation| consumed_for(o, id)) =~= new.observations);
}

/// After consuming the observations of a skill, none of them is left unconsumed.
pub proof fn law_consumed_observations_are_gone(old: DbState, new: DbState, id: Seq<char>)
    requires
        consume_effect(old, new, id),
    ensures
        new.observations.filter(observation_filter(id, true)).len() == 0,
{
    let f = observation_filter(id, true);
    let s = new.observations.filter(f);
    if s.len() > 0 {
        new.observations.lemma_filter_pred(f, 0);
        assert(s.contains(s[0]));
        crate::order::lemma_filter_member(new.observations, f, s[0]);
        let k = choose|k: int| 0 <= k < new.observations.len() && new.observations[k] == s[0];
        assert(new.observations[k] == consumed_for(old.observations[k], id));
    }
}

/// Evolving again right after an evolution does nothing: once the skill's observations
/// are consumed, a plan gathered from the store has none pending, whatever `dry_run` is.
pub proof fn law_evolve_after_evolve_does_nothing(
    mid: DbState, new: DbState, id: Seq<char>, plan_observations: Seq<Observation>, dry_run: bool,
)
    requires
        consume_effect(mid, new, id),
        plan_observations.to_multiset() == new.observations.filter(observation_filter(id, true)).to_multiset(),
    ensures
        spec_evolve_action(plan_observations.len(), dry_run) == EvolveAction::Nothing,
{
    law_consumed_observations_are_gone(mid, new, id);
    broadcast use vstd::seq_lib::group_to_multiset_ensures;
    assert(plan_observations.len() == plan_observations.to_multiset().len());
    assert(new.observations.filter(observation_filter(id, true)).len()
        == new.observations.filter(observation_filter(id, true)).to_multiset().len());
}

/// Evolution only appends: the skill's content before evolving is a prefix of the content
/// after.
pub proof fn law_evolution_keeps_content(current: Seq<char>, failures: Seq<Seq<char>>, suggestions: Seq<Seq<char>>)
    ensures
        has_prefix(spec_evolved_content(current, failures, suggestions), current),
{
    let e = spec_evolved_content(current, failures, suggestions);
    assert(e.subrange(0, current.len() as int) =~= current);
}

/// The totals do not depend on the order skills are listed in: the sum of a counter over
/// the listed skills is the sum over the stored live skills.
pub proof fn law_totals_match_list(c: Counter, rows: Seq<SkillRow>, listed: Seq<Skill>)
    requires
        listed.to_multiset() == live_skills(rows).to_multiset(),
    ensures
        counter_sum(c, listed) == counter_sum(c, live_skills(rows)),
{
    lemma_counter_sum_permutation(c, listed, live_skills(rows));
}

proof fn lemma_split_no_sep(x: Seq<char>, c: char)
    requires
        !x.contains(c),
    ensures
        split_char(x, c) == seq![x],
    decreases x.len(),
{
    if x.len() > 0 {
        let y = x.drop_last();
        assert(!y.contains(c)) by {
            if y.contains(c) {
                let k = choose|k: int| 0 <= k < y.len() && y[k] == c;
                assert(x[k] == c);
            }
        }
        lemma_split_no_sep(y, c);
        assert(x.last() != c) by {
            assert(x[x.len() - 1] == x.last());
        }
        assert(y.push(x.last()) =~= x);
        assert(seq![y].update(0, y.push(x.last())) =~= seq![x]);
    } else {
        assert(x =~= Seq::<char>::empty());
    }
}

proof fn lemma_split_at_sep(a: Seq<char>, b: Seq<char>, c: char)
    ensures
        split_char(a + seq![c] + b, c) == split_char(a, c) + split_char(b, c),
    decreases b.len(),
{
    let s = a + seq![c] + b;
    if b.len() == 0 {
        assert(s.drop_last() =~= a);
        assert(split_char(a, c) + split_char(b, c) =~= split_char(a, c).push(Seq::<char>::empty()));
    } else {
        let b1 = b.drop_last();
        assert(s.drop_last() =~= a + seq![c] + b1);
        assert(s.last() == b.last());
        lemma_split_at_sep(a, b1, c);
        lemma_split_char_nonempty(b1, c);
        let l = split_char(a, c);
        let r = split_char(b1, c);
        if b.last() == c {
            assert((l + r).push(Seq::<char>::empty()) =~= l + r.push(Seq::<char>::empty()));
        } else {
            assert((l + r).update((l + r).len() - 1, (l + r).last().push(b.last()))
                =~= l + r.update(r.len() - 1, r.last().push(b.last())));
        }
    }
}

proof fn lemma_strip_end_keeps_first(s: Seq<char>, p: spec_fn(char) -> bool)
    requires
        s.len() > 0,
        !p(s[0]),
    ensures
        strip_end(s, p).len() > 0,
        strip_end(s, p)[0] == s[0],
    decreases s.len(),
{
    if p(s.last()) {
        assert(s.len() > 1);
        let t = s.drop_last();
        assert(t[0] == s[0]);
        lemma_strip_end_keeps_first(t, p);
    }
}

/// A character that reading a description back trims from its ends: whitespace or quotes.
pub open spec fn trimmed_away(c: char) -> bool {
    crate::text::spec_is_whitespace(c) || c == '"' || c == '\''
}

/// Three dashes start at position `j` of `f`.
pub open spec fn dashes_at(f: Seq<char>, j: int) -> bool {
    f[j] == '-' && f[j + 1] == '-' && f[j + 2] == '-'
}

/// The text between the opening `---` and the next one in default content.
pub open spec fn default_frontmatter(name: Seq<char>, description: Seq<char>) -> Seq<char> {
    "\nname: "@ + name + "\ndescription: "@ + description + "\n"@
}

proof fn lemma_frontmatter_has_no_dashes(name: Seq<char>, description: Seq<char>)
    requires
        !contains_seq(name, "---"@),
        !contains_seq(description, "---"@),
    ensures
        default_frontmatter(name, description).len() > 0,
        default_frontmatter(name, description).last() == '\n',
        forall|j: int| 0 <= j && j + 2 < default_frontmatter(name, description).len() ==>
            !#[trigger] dashes_at(default_frontmatter(name, description), j),
{
    reveal_strlit("\nname: ");
    reveal_strlit("\ndescription: ");
    reveal_strlit("\n");
    reveal_strlit("---");
    let f = default_frontmatter(name, description);
    let a = 7 + name.len();
    let b = a + 14;
    let l = b + description.len() + 1;
    assert(f.len() == l);
    assert(f.last() == '\n');
    assert forall|k: int| 0 <= k < l && f[k] == '-' implies (7 <= k < a && f[k] == name[k - 7])
        || (b <= k < l - 1 && f[k] == description[k - b]) by {}
    assert forall|j: int| 0 <= j && j + 2 < l implies !#[trigger] dashes_at(f, j) by {
        if f[j] == '-' && f[j + 1] == '-' && f[j + 2] == '-' {
            if 7 <= j < a {
                assert(j + 2 < a);
                assert(occurs_at(name, "---"@, j - 7)) by {
                    assert(name.subrange(j - 7, j - 4) =~= "---"@);
                }
            } else {
                assert(b <= j && j + 2 < l - 1);
                assert(occurs_at(description, "---"@, j - b)) by {
                    assert(description.subrange(j - b, j - b + 3) =~= "---"@);
                }
            }
        }
    }
}

proof fn lemma_default_layout(name: Seq<char>, description: Seq<char>)
    ensures
        default_head(name, description) == "---"@ + default_frontmatter(name, description) + "---\n\n"@,
{
    reveal_strlit("\nname: ");
    reveal_strlit("\ndescription: ");
    reveal_strlit("\n");
    reveal_strlit("---");
    reveal_strlit("---\n");
    reveal_strlit("name: ");
    reveal_strlit("description: ");
    assert(default_head(name, description) =~= "---"@ + default_frontmatter(name, description) + "---\n\n"@);
}

proof fn lemma_first_occurrence(s: Seq<char>, p: Seq<char>, l: int)
    requires
        occurs_at(s, p, l),
        forall|j: int| 0 <= j < l ==> !#[trigger] occurs_at(s, p, j),
    ensures
        find_first(s, p) == Some(l),
{
    assert(contains_seq(s, p));
    let i = choose|i: int| occurs_at(s, p, i) && forall|j: int| 0 <= j < i ==> !#[trigger] occurs_at(s, p, j);
    assert(occurs_at(s, p, i) && forall|j: int| 0 <= j < i ==> !#[trigger] occurs_at(s, p, j));
    if i > l {
        assert(!occurs_at(s, p, l));
    }
    if i < l {
        assert(!occurs_at(s, p, i));
    }
}

proof fn lemma_no_dashes_before(rest: Seq<char>, f: Seq<char>, j: int)
    requires
        f.len() > 0,
        f.last() == '\n',
        0 <= j < f.len(),
        j + 2 < f.len() ==> !dashes_at(f, j),
        rest.len() >= f.len() + 3,
        forall|k: int| 0 <= k < f.len() ==> #[trigger] rest[k] == f[k],
    ensures
        !occurs_at(rest, "---"@, j),
{
    reveal_strlit("---");
    let l = f.len() as int;
    if occurs_at(rest, "---"@, j) {
        let w = rest.subrange(j, j + 3);
        assert(w[0] == rest[j] && w[1] == rest[j + 1] && w[2] == rest[j + 2]);
        if j + 2 < l {
            assert(rest[j] == f[j] && rest[j + 1] == f[j + 1] && rest[j + 2] == f[j + 2]);
        } else {
            assert(rest[l - 1] == f[l - 1]);
        }
    }
}

proof fn lemma_first_dashes_after(rest: Seq<char>, f: Seq<char>)
    requires
        f.len() > 0,
        f.last() == '\n',
        forall|j: int| 0 <= j && j + 2 < f.len() ==> !#[trigger] dashes_at(f, j),
        rest.len() >= f.len() + 3,
        forall|k: int| 0 <= k < f.len() ==> #[trigger] rest[k] == f[k],
        dashes_at(rest, f.len() as int),
    ensures
        find_first(rest, "---"@) == Some(f.len() as int),
{
    reveal_strlit("---");
    let l = f.len() as int;
    assert(occurs_at(rest, "---"@, l)) by {
        assert(rest.subrange(l, l + 3) =~= "---"@);
    }
    assert forall|j: int| 0 <= j < l implies !#[trigger] occurs_at(rest, "---"@, j) by {
        if j + 2 < l {
            assert(!dashes_at(f, j));
        }
        lemma_no_dashes_before(rest, f, j);
    }
    lemma_first_occurrence(rest, "---"@, l);
}

proof fn lemma_rest_layout(name: Seq<char>, description: Seq<char>)
    ensures
        has_prefix(default_content(name, description), "---"@),
        default_content(name, description).len() >= default_frontmatter(name, description).len() + 6,
        forall|k: int| 0 <= k < default_frontmatter(name, description).len() ==>
            #[trigger] default_content(name, description)[k + 3] == default_frontmatter(name, description)[k],
        dashes_at(default_content(name, description), default_frontmatter(name, description).len() + 3 as int),
{
    reveal_strlit("---");
    reveal_strlit("---\n\n");
    let content = default_content(name, description);
    let f = default_frontmatter(name, description);
    let l = f.len() as int;
    lemma_default_layout(name, description);
    let head = default_head(name, description);
    assert(content.subrange(0, 3) =~= "---"@);
    assert forall|k: int| 0 <= k < l implies #[trigger] content[k + 3] == f[k] by {
        assert(content[k + 3] == head[k + 3]);
    }
    assert(content[l + 3] == head[l + 3] && content[l + 4] == head[l + 4] && content[l + 5] == head[l + 5]);
}

proof fn lemma_frontmatter_lines(name: Seq<char>, description: Seq<char>)
    requires
        !name.contains('\n'),
        !description.contains('\n'),
    ensures
        split_char(default_frontmatter(name, description), '\n')
            == seq![Seq::<char>::empty(), "name: "@ + name, "description: "@ + description, Seq::<char>::empty()],
{
    reveal_strlit("\nname: ");
    reveal_strlit("\ndescription: ");
    reveal_strlit("\n");
    reveal_strlit("name: ");
    reveal_strlit("description: ");
    let f = default_frontmatter(name, description);
    let line_a = "name: "@ + name;
    let line_b = "description: "@ + description;
    assert(!line_a.contains('\n')) by {
        if line_a.contains('\n') {
            let k = choose|k: int| 0 <= k < line_a.len() && line_a[k] == '\n';
            if k >= 6 { assert(name[k - 6] == '\n'); }
        }
    }
    assert(!line_b.contains('\n')) by {
        if line_b.contains('\n') {
            let k = choose|k: int| 0 <= k < line_b.len() && line_b[k] == '\n';
            if k >= 13 { assert(description[k - 13] == '\n'); }
        }
    }
    let e = Seq::<char>::empty();
    lemma_split_no_sep(e, '\n');
    lemma_split_no_sep(line_a, '\n');
    lemma_split_no_sep(line_b, '\n');
    let y = line_b + seq!['\n'] + e;
    let x = line_a + seq!['\n'] + y;
    assert(f =~= e + seq!['\n'] + x);
    lemma_split_at_sep(line_b, e, '\n');
    lemma_split_at_sep(line_a, y, '\n');
    lemma_split_at_sep(e, x, '\n');
    assert(seq![e] + (seq![line_a] + (seq![line_b] + seq![e])) =~= seq![e, line_a, line_b, e]);
}

proof fn lemma_name_line_gives_nothing(name: Seq<char>)
    ensures
        line_description(Seq::<char>::empty()) is None,
        line_description("name: "@ + name) is None,
{
    reveal_strlit("name: ");
    reveal_strlit("description:");
    let ws = strip_pred(StripSet::Whitespace);
    assert(strip_start(Seq::<char>::empty(), ws) == Seq::<char>::empty());
    assert(strip_end(Seq::<char>::empty(), ws) == Seq::<char>::empty());
    let line_a = "name: "@ + name;
    assert(strip_start(line_a, ws) == line_a);
    lemma_strip_end_keeps_first(line_a, ws);
    let t = strip_both(line_a, ws);
    assert(t[0] == 'n');
    if has_prefix(t, "description:"@) {
        assert(t.subrange(0, 12)[0] == t[0]);
    }
}

proof fn lemma_untrimmed(d: Seq<char>, p: spec_fn(char) -> bool)
    requires
        d.len() > 0 ==> !p(d[0]) && !p(d.last()),
    ensures
        strip_both(d, p) == d,
{
}

proof fn lemma_description_line(description: Seq<char>)
    requires
        description.len() > 0,
        !trimmed_away(description[0]),
        !trimmed_away(description.last()),
    ensures
        line_description("description: "@ + description) == Some(description),
{
    reveal_strlit("description: ");
    reveal_strlit("description:");
    let ws = strip_pred(StripSet::Whitespace);
    let line_b = "description: "@ + description;
    assert(line_b.last() == description.last());
    lemma_untrimmed(line_b, ws);
    let t = strip_both(line_b, ws);
    assert(t == line_b);
    assert(t.subrange(0, 12) =~= "description:"@);
    let after = t.subrange(12, t.len() as int);
    assert(after.drop_first() =~= description);
    assert(strip_start(after, ws) == strip_start(description, ws));
    lemma_untrimmed(description, ws);
    lemma_untrimmed(description, strip_pred(StripSet::Only('"')));
    lemma_untrimmed(description, strip_pred(StripSet::Only('\'')));
}

proof fn lemma_empty_description_line()
    ensures
        line_description("description: "@) == Some(Seq::<char>::empty()),
{
    reveal_strlit("description: ");
    reveal_strlit("description:");
    let ws = strip_pred(StripSet::Whitespace);
    let line_b = "description: "@;
    let e = Seq::<char>::empty();
    assert(strip_start(line_b, ws) == line_b);
    assert(line_b.drop_last() =~= "description:"@);
    assert(strip_end(line_b, ws) == strip_end(line_b.drop_last(), ws));
    let t = strip_both(line_b, ws);
    assert(t =~= "description:"@);
    assert(t.subrange(0, 12) =~= "description:"@);
    assert(has_prefix(t, "description:"@));
    assert(t.subrange(12, t.len() as int) =~= e);
    lemma_untrimmed(e, ws);
    lemma_untrimmed(e, strip_pred(StripSet::Only('"')));
    lemma_untrimmed(e, strip_pred(StripSet::Only('\'')));
}

proof fn lemma_default_frontmatter_found(name: Seq<char>, description: Seq<char>)
    requires
        !contains_seq(name, "---"@),
        !contains_seq(description, "---"@),
    ensures
        has_prefix(default_content(name, description), "---"@),
        ({
            let content = default_content(name, description);
            let rest = content.subrange(3, content.len() as int);
            let l = default_frontmatter(name, description).len() as int;
            find_first(rest, "---"@) == Some(l) && rest.subrange(0, l) == default_frontmatter(name, description)
        }),
{
    let content = default_content(name, description);
    let f = default_frontmatter(name, description);
    let l = f.len() as int;
    lemma_rest_layout(name, description);
    lemma_frontmatter_has_no_dashes(name, description);
    let rest = content.subrange(3, content.len() as int);
    assert forall|k: int| 0 <= k < l implies #[trigger] rest[k] == f[k] by {
        assert(rest[k] == content[k + 3]);
    }
    assert(rest[l] == content[l + 3] && rest[l + 1] == content[l + 4] && rest[l + 2] == content[l + 5]);
    lemma_first_dashes_after(rest, f);
    assert(rest.subrange(0, l) =~= f);
}

proof fn lemma_frontmatter_description(name: Seq<char>, description: Seq<char>)
    requires
        !name.contains('\n'),
        !description.contains('\n'),
        description.len() > 0 ==> !trimmed_away(description[0]) && !trimmed_away(description.last()),
    ensures
        description_in_lines(split_char(default_frontmatter(name, description), '\n')) == Some(description),
{
    lemma_frontmatter_lines(name, description);
    lemma_name_line_gives_nothing(name);
    let line_a = "name: "@ + name;
    let line_b = "description: "@ + description;
    if description.len() > 0 {
        lemma_description_line(description);
    } else {
        lemma_empty_description_line();
        assert(line_b =~= "description: "@);
    }
    let lines = seq![Seq::<char>::empty(), line_a, line_b, Seq::<char>::empty()];
    assert(lines.drop_first() =~= seq![line_a, line_b, Seq::<char>::empty()]);
    assert(lines.drop_first().drop_first() =~= seq![line_b, Seq::<char>::empty()]);
    assert(description_in_lines(lines.drop_first().drop_first()) == Some(description));
    assert(description_in_lines(lines.drop_first()) == Some(description));
    assert(description_in_lines(lines) == Some(description));
}

/// A skill file written with the default content gives back, when it is imported, the
/// description it was written with: for a name and a description on one line each, with
/// no `---` in them, and a description that does not start or end with whitespace or a
/// quote.
#[verifier::spinoff_prover]
pub proof fn law_default_description_reads_back(name: Seq<char>, description: Seq<char>)
    requires
        !name.contains('\n'),
        !description.contains('\n'),
        !contains_seq(name, "---"@),
        !contains_seq(description, "---"@),
        description.len() > 0 ==> !trimmed_away(description[0]) && !trimmed_away(description.last()),
    ensures
        spec_extract_description(default_content(name, description)) == Some(description),
{
    let content = default_content(name, description);
    let rest = content.subrange(3, content.len() as int);
    let f = default_frontmatter(name, description);
    lemma_default_frontmatter_found(name, description);
    lemma_frontmatter_description(name, description);
    assert(find_first(rest, "---"@) == Some(f.len() as int));
    assert(rest.subrange(0, f.len() as int) == f);
    assert(description_in_lines(split_char(rest.subrange(0, f.len() as int), '\n')) == Some(description));
}

/// A sanitized ASCII name is a well-formed one-segment skill path: nothing but lowercase
/// letters, digits, `-` and `_`.
pub proof fn law_sanitized_name_is_path_segment(name: Seq<char>)
    requires
        name.len() > 0,
        crate::text::all_ascii(name),
    ensures
        valid_skill_path(spec_sanitize_name(name)),
        !spec_sanitize_name(name).contains('/'),
{
    let m = name.map_values(|c: char| sanitize_char(c));
    assert(crate::text::all_ascii(m)) by {
        assert forall|i: int| 0 <= i < m.len() implies (#[trigger] m[i] as u32) < 128 by {
            assert((name[i] as u32) < 128);
        }
    }
    let r = spec_sanitize_name(name);
    assert(r == m.map_values(|c: char| crate::text::ascii_lower(c)));
    assert forall|i: int| 0 <= i < r.len() implies crate::tree::path_char_ok(#[trigger] r[i]) && r[i] != '/' by {
        assert(r[i] == crate::text::ascii_lower(m[i]));
        assert((m[i] as u32) < 128);
    }
    if r.contains('/') {
        let k = choose|k: int| 0 <= k < r.len() && r[k] == '/';
        assert(r[k] != '/');
    }
    assert(r[0] != '/');
    assert(r.last() == r[r.len() - 1]);
    if contains_seq(r, seq!['/', '/']) {
        let k = choose|k: int| occurs_at(r, seq!['/', '/'], k);
        assert(r.subrange(k, k + 2)[0] == r[k]);
    }
}

/// The paths of `ss` with the positions above each, in order, repeats included.
pub open spec fn node_candidates(ss: Seq<Skill>) -> Seq<Seq<char>>
    decreases ss.len(),
{
    if ss.len() == 0 {
        Seq::empty()
    } else {
        node_candidates(ss.drop_last()) + seq![ss.last().path@] + ancestors(ss.last().path@)
    }
}

proof fn lemma_node_candidates(ss: Seq<Skill>, q: Seq<char>)
    ensures
        node_candidates(ss).contains(q) <==> is_node(ss, q),
    decreases ss.len(),
{
    if ss.len() > 0 {
        let s0 = ss.drop_last();
        lemma_node_candidates(s0, q);
        let c0 = node_candidates(s0);
        let p = ss.last().path@;
        let c = node_candidates(ss);
        assert(c == c0 + seq![p] + ancestors(p));
        if c.contains(q) {
            let k = choose|k: int| 0 <= k < c.len() && c[k] == q;
            if k < c0.len() {
                assert(c0[k] == q);
                assert(c0.contains(q));
                let i = choose|i: int| 0 <= i < s0.len() && ((#[trigger] s0[i]).path@ == q || ancestors(s0[i].path@).contains(q));
                assert(ss[i] == s0[i]);
            } else if k == c0.len() {
                assert(ss[ss.len() - 1].path@ == q);
            } else {
                assert(ancestors(p)[k - c0.len() - 1] == q);
                assert(ancestors(p).contains(q));
                assert(ss[ss.len() - 1].path@ == p);
            }
        }
        if is_node(ss, q) {
            let i = choose|i: int| 0 <= i < ss.len() && ((#[trigger] ss[i]).path@ == q || ancestors(ss[i].path@).contains(q));
            if i < s0.len() {
                assert(s0[i] == ss[i]);
                assert(c0.contains(q));
                let k = choose|k: int| 0 <= k < c0.len() && c0[k] == q;
                assert(c[k] == q);
            } else if ss[i].path@ == q {
                assert(c[c0.len() as int] == q);
            } else {
                let k = choose|k: int| 0 <= k < ancestors(p).len() && ancestors(p)[k] == q;
                assert(c[c0.len() + 1 + k] == q);
            }
        }
    }
}

/// How many leading elements of `t` come at or before `x`.
pub open spec fn count_at_or_before(t: Seq<Seq<char>>, x: Seq<char>) -> nat
    decreases t.len(),
{
    if t.len() == 0 {
        0
    } else if lex_le(t.last(), x) {
        t.len()
    } else {
        count_at_or_before(t.drop_last(), x)
    }
}

proof fn lemma_count_at_or_before(t: Seq<Seq<char>>, x: Seq<char>)
    requires
        strictly_sorted(t),
    ensures
        count_at_or_before(t, x) <= t.len(),
        forall|i: int| 0 <= i < count_at_or_before(t, x) ==> lex_le(#[trigger] t[i], x),
        forall|i: int| count_at_or_before(t, x) <= i < t.len() ==> !lex_le(#[trigger] t[i], x),
    decreases t.len(),
{
    if t.len() > 0 {
        if lex_le(t.last(), x) {
            assert forall|i: int| 0 <= i < t.len() implies lex_le(#[trigger] t[i], x) by {
                if i < t.len() - 1 {
                    assert(lex_le(t[i], t[t.len() - 1]));
                    lemma_lex_trans(t[i], t.last(), x);
                }
            }
        } else {
            let t0 = t.drop_last();
            assert forall|i: int, j: int| 0 <= i < j < t0.len() implies lex_le(#[trigger] t0[i], #[trigger] t0[j]) && t0[i] != t0[j] by {
                assert(t0[i] == t[i] && t0[j] == t[j]);
            }
            lemma_count_at_or_before(t0, x);
            assert forall|i: int| 0 <= i < count_at_or_before(t, x) implies lex_le(#[trigger] t[i], x) by {
                assert(t[i] == t0[i]);
            }
            assert forall|i: int| count_at_or_before(t, x) <= i < t.len() implies !lex_le(#[trigger] t[i], x) by {
                if i < t.len() - 1 {
                    assert(t[i] == t0[i]);
                }
            }
        }
    }
}

proof fn lemma_strictly_sorted_exists(c: Seq<Seq<char>>)
    ensures
        exists|t: Seq<Seq<char>>| strictly_sorted(t) && forall|q: Seq<char>| #[trigger] t.contains(q) <==> c.contains(q),
    decreases c.len(),
{
    if c.len() == 0 {
        let t = Seq::<Seq<char>>::empty();
        assert(strictly_sorted(t) && forall|q: Seq<char>| #[trigger] t.contains(q) <==> c.contains(q));
    } else {
        let c0 = c.drop_last();
        let x = c.last();
        lemma_strictly_sorted_exists(c0);
        let t0 = choose|t: Seq<Seq<char>>| strictly_sorted(t) && forall|q: Seq<char>| #[trigger] t.contains(q) <==> c0.contains(q);
        assert forall|q: Seq<char>| #[trigger] c.contains(q) <==> c0.contains(q) || q == x by {
            if c.contains(q) {
                let k = choose|k: int| 0 <= k < c.len() && c[k] == q;
                if k < c0.len() {
                    assert(c0[k] == q);
                }
            }
            if c0.contains(q) {
                let k = choose|k: int| 0 <= k < c0.len() && c0[k] == q;
                assert(c[k] == q);
            }
            if q == x {
                assert(c[c.len() - 1] == q);
            }
        }
        if t0.contains(x) {
            assert(strictly_sorted(t0) && forall|q: Seq<char>| #[trigger] t0.contains(q) <==> c.contains(q));
        } else {
            lemma_count_at_or_before(t0, x);
            let k = count_at_or_before(t0, x) as int;
            let t = t0.take(k) + seq![x] + t0.skip(k);
            assert(t.len() == t0.len() + 1);
            assert forall|i: int| 0 <= i < t.len() implies #[trigger] t[i] == (if i < k { t0[i] } else if i == k { x } else { t0[i - 1] }) by {}
            assert forall|i: int| 0 <= i < k implies lex_le(#[trigger] t0[i], x) && t0[i] != x by {
                if t0[i] == x {
                    assert(t0.contains(x));
                }
            }
            assert forall|i: int| k <= i < t0.len() implies lex_le(x, #[trigger] t0[i]) && t0[i] != x by {
                lemma_lex_total(x, t0[i]);
                if t0[i] == x {
                    assert(t0.contains(x));
                }
            }
            assert forall|a: int, b: int| 0 <= a < b < t.len() implies lex_le(#[trigger] t[a], #[trigger] t[b]) && t[a] != t[b] by {
                if a < k && b < k {
                    assert(t[a] == t0[a] && t[b] == t0[b]);
                } else if a < k && b == k {
                    assert(t[a] == t0[a] && t[b] == x);
                } else if a < k {
                    assert(t[a] == t0[a] && t[b] == t0[b - 1]);
                    assert(a < b - 1);
                } else if a == k {
                    assert(t[a] == x && t[b] == t0[b - 1]);
                } else {
                    assert(t[a] == t0[a - 1] && t[b] == t0[b - 1]);
                }
            }
            assert forall|q: Seq<char>| #[trigger] t.contains(q) <==> c.contains(q) by {
                if t.contains(q) {
                    let i = choose|i: int| 0 <= i < t.len() && t[i] == q;
                    if i < k {
                        assert(t0[i] == q);
                        assert(t0.contains(q));
                    } else if i > k {
                        assert(t0[i - 1] == q);
                        assert(t0.contains(q));
                    }
                }
                if c.contains(q) {
                    if q == x {
                        assert(t[k] == q);
                    } else {
                        assert(t0.contains(q));
                        let i = choose|i: int| 0 <= i < t0.len() && t0[i] == q;
                        if i < k {
                            assert(t[i] == q);
                        } else {
                            assert(t[i + 1] == q);
                        }
                    }
                }
            }
            assert(strictly_sorted(t) && forall|q: Seq<char>| #[trigger] t.contains(q) <==> c.contains(q));
        }
    }
}

/// The positions of the tree are exactly the skills' paths and the positions above them.
pub proof fn lemma_tree_nodes(ss: Seq<Skill>)
    ensures
        strictly_sorted(tree_nodes(ss)),
        forall|q: Seq<char>| #[trigger] tree_nodes(ss).contains(q) <==> is_node(ss, q),
{
    let c = node_candidates(ss);
    lemma_strictly_sorted_exists(c);
    let t = choose|t: Seq<Seq<char>>| strictly_sorted(t) && forall|q: Seq<char>| #[trigger] t.contains(q) <==> c.contains(q);
    assert forall|q: Seq<char>| #[trigger] t.contains(q) <==> is_node(ss, q) by {
        lemma_node_candidates(ss, q);
    }
}

proof fn lemma_ancestor_shorter(p: Seq<char>, q: Seq<char>)
    requires
        ancestors(p).contains(q),
    ensures
        q.len() < p.len(),
    decreases p.len(),
{
    if p.len() > 0 {
        let r = ancestors(p.drop_last());
        if p.last() == '/' {
            if q != p.drop_last() {
                let k = choose|k: int| 0 <= k < ancestors(p).len() && ancestors(p)[k] == q;
                assert(ancestors(p) == r.push(p.drop_last()));
                assert(k < r.len());
                assert(r.contains(q));
                lemma_ancestor_shorter(p.drop_last(), q);
            }
        } else {
            lemma_ancestor_shorter(p.drop_last(), q);
        }
    }
}

proof fn lemma_path_within_max(ss: Seq<Skill>, i: int)
    requires
        0 <= i < ss.len(),
    ensures
        ss[i].path@.len() <= max_path_len(ss),
    decreases ss.len(),
{
    if i < ss.len() - 1 {
        lemma_path_within_max(ss.drop_last(), i);
        assert(ss.drop_last()[i] == ss[i]);
    }
}

proof fn lemma_node_within_max(ss: Seq<Skill>, q: Seq<char>)
    requires
        tree_nodes(ss).contains(q),
    ensures
        q.len() <= max_path_len(ss),
{
    lemma_tree_nodes(ss);
    assert(is_node(ss, q));
    let i = choose|i: int| 0 <= i < ss.len() && ((#[trigger] ss[i]).path@ == q || ancestors(ss[i].path@).contains(q));
    lemma_path_within_max(ss, i);
    if ss[i].path@ != q {
        lemma_ancestor_shorter(ss[i].path@, q);
    }
}

proof fn lemma_parent_shorter(c: Seq<char>, n: Seq<char>)
    requires
        parent_path(c) == Some(n),
    ensures
        n.len() < c.len(),
{
    lemma_rfind_some(c, '/');
}

proof fn lemma_render_fuel(ss: Seq<Skill>, nodes: Seq<Seq<char>>, ns: Seq<Seq<char>>, i: int, prefix: Seq<char>,
    depth: nat, max_depth: Option<usize>, show: bool, fuel: nat, bound: nat)
    requires
        forall|q: Seq<char>| #[trigger] nodes.contains(q) ==> q.len() <= bound,
        forall|k: int| 0 <= k < ns.len() ==> nodes.contains(#[trigger] ns[k]) && ns[k].len() + fuel > bound,
    ensures
        render_from(ss, nodes, ns, i, prefix, depth, max_depth, show, fuel)
            == render_from(ss, nodes, ns, i, prefix, depth, max_depth, show, fuel + 1),
    decreases fuel, ns.len() - i,
{
    if 0 <= i < ns.len() {
        let n = ns[i];
        let last = i == ns.len() - 1;
        let kids = nodes.filter(child_of(Some(n)));
        let kp = prefix + (if last { "    "@ } else { "\u{2502}   "@ });
        if !(max_depth matches Some(d) && depth >= d) {
            assert(nodes.contains(n));
            assert(fuel > 0);
            assert forall|k: int| 0 <= k < kids.len() implies nodes.contains(#[trigger] kids[k])
                && kids[k].len() + (fuel - 1) as nat > bound by {
                nodes.lemma_filter_pred(child_of(Some(n)), k);
                assert(kids.contains(kids[k]));
                crate::order::lemma_filter_member(nodes, child_of(Some(n)), kids[k]);
                lemma_parent_shorter(kids[k], n);
            }
            lemma_render_fuel(ss, nodes, kids, 0, kp, depth + 1, max_depth, show, (fuel - 1) as nat, bound);
        }
        lemma_render_fuel(ss, nodes, ns, i + 1, prefix, depth, max_depth, show, fuel, bound);
    }
}

/// The tree is drawn to every position: with more levels than the longest path has
/// characters, drawing with any more levels gives the same lines.
pub proof fn law_tree_fuel_suffices(ss: Seq<Skill>, max_depth: Option<usize>, show: bool, fuel: nat, extra: nat)
    requires
        fuel > max_path_len(ss),
    ensures
        tree_lines(ss, max_depth, show, fuel + extra) == tree_lines(ss, max_depth, show, fuel),
    decreases extra,
{
    if extra > 0 {
        law_tree_fuel_suffices(ss, max_depth, show, fuel, (extra - 1) as nat);
        if ss.len() > 0 {
            let nodes = tree_nodes(ss);
            let roots = nodes.filter(child_of(None));
            let f = (fuel + extra - 1) as nat;
            assert forall|q: Seq<char>| #[trigger] nodes.contains(q) implies q.len() <= max_path_len(ss) by {
                lemma_node_within_max(ss, q);
            }
            assert forall|k: int| 0 <= k < roots.len() implies nodes.contains(#[trigger] roots[k])
                && roots[k].len() + f > max_path_len(ss) by {
                nodes.lemma_filter_pred(child_of(None), k);
                assert(roots.contains(roots[k]));
                crate::order::lemma_filter_member(nodes, child_of(None), roots[k]);
            }
            lemma_render_fuel(ss, nodes, roots, 0, Seq::<char>::empty(), 1, max_depth, show, f, max_path_len(ss));
        }
    }
}

/// The character a sanitized ASCII path has in place of `c`.
pub open spec fn sanitized_path_char(c: char) -> char {
    if c == '/' { '/' } else { crate::text::ascii_lower(sanitize_char(c)) }
}

proof fn lemma_split_pieces_ascii(s: Seq<char>, c: char)
    requires
        crate::text::all_ascii(s),
    ensures
        forall|k: int| 0 <= k < split_char(s, c).len() ==> crate::text::all_ascii(#[trigger] split_char(s, c)[k]),
    decreases s.len(),
{
    if s.len() > 0 {
        let t = s.drop_last();
        assert(crate::text::all_ascii(t)) by {
            assert forall|i: int| 0 <= i < t.len() implies (#[trigger] t[i] as u32) < 128 by {
                assert(t[i] == s[i]);
            }
        }
        lemma_split_pieces_ascii(t, c);
        lemma_split_char_nonempty(t, c);
        let r = split_char(t, c);
        assert((s.last() as u32) < 128) by {
            assert(s.last() == s[s.len() - 1]);
        }
        if s.last() != c {
            let l = r.last().push(s.last());
            assert(crate::text::all_ascii(l)) by {
                assert(crate::text::all_ascii(r[r.len() - 1]));
                assert forall|i: int| 0 <= i < l.len() implies (#[trigger] l[i] as u32) < 128 by {
                    if i < l.len() - 1 {
                        assert(l[i] == r.last()[i]);
                    }
                }
            }
            assert forall|k: int| 0 <= k < split_char(s, c).len() implies crate::text::all_ascii(#[trigger] split_char(s, c)[k]) by {
                if k < r.len() - 1 {
                    assert(split_char(s, c)[k] == r[k]);
                }
            }
        } else {
            assert forall|k: int| 0 <= k < split_char(s, c).len() implies crate::text::all_ascii(#[trigger] split_char(s, c)[k]) by {
                if k < r.len() {
                    assert(split_char(s, c)[k] == r[k]);
                } else {
                    assert(split_char(s, c)[k] =~= Seq::<char>::empty());
                }
            }
        }
    }
}

proof fn lemma_sanitize_ascii_name(n: Seq<char>)
    requires
        crate::text::all_ascii(n),
    ensures
        spec_sanitize_name(n) == n.map_values(|c: char| crate::text::ascii_lower(sanitize_char(c))),
{
    let m = n.map_values(|c: char| sanitize_char(c));
    assert(crate::text::all_ascii(m)) by {
        assert forall|i: int| 0 <= i < m.len() implies (#[trigger] m[i] as u32) < 128 by {
            assert((n[i] as u32) < 128);
        }
    }
    assert(m.map_values(|c: char| crate::text::ascii_lower(c))
        =~= n.map_values(|c: char| crate::text::ascii_lower(sanitize_char(c))));
}

proof fn lemma_join_push(parts: Seq<Seq<char>>, x: Seq<char>, sep: Seq<char>)
    requires
        parts.len() >= 1,
    ensures
        join(parts.push(x), sep) == join(parts, sep) + sep + x,
{
    assert(parts.push(x).drop_last() =~= parts);
}

proof fn lemma_join_extend_last(parts: Seq<Seq<char>>, x: char, sep: Seq<char>)
    requires
        parts.len() >= 1,
    ensures
        join(parts.update(parts.len() - 1, parts.last().push(x)), sep) == join(parts, sep).push(x),
{
    let u = parts.update(parts.len() - 1, parts.last().push(x));
    if parts.len() == 1 {
        assert(u[0] == parts[0].push(x));
    } else {
        assert(u.drop_last() =~= parts.drop_last());
        assert(u.last() == parts.last().push(x));
        assert(join(u, sep) == join(parts.drop_last(), sep) + sep + parts.last().push(x));
        assert(join(parts.drop_last(), sep) + sep + parts.last().push(x) =~= (join(parts.drop_last(), sep) + sep + parts.last()).push(x));
    }
}

proof fn lemma_sanitize_ascii_path(s: Seq<char>)
    requires
        crate::text::all_ascii(s),
    ensures
        spec_sanitize_path(s) == s.map_values(|c: char| sanitized_path_char(c)),
    decreases s.len(),
{
    let f = |seg: Seq<char>| spec_sanitize_name(seg);
    if s.len() == 0 {
        assert(split_char(s, '/') == seq![Seq::<char>::empty()]);
        assert(split_char(s, '/').map_values(f) =~= seq![spec_sanitize_name(Seq::<char>::empty())]);
        lemma_sanitize_ascii_name(Seq::<char>::empty());
        assert(spec_sanitize_name(Seq::<char>::empty()) =~= Seq::<char>::empty());
        assert(s.map_values(|c: char| sanitized_path_char(c)) =~= Seq::<char>::empty());
    } else {
        let t = s.drop_last();
        let c = s.last();
        assert(crate::text::all_ascii(t)) by {
            assert forall|i: int| 0 <= i < t.len() implies (#[trigger] t[i] as u32) < 128 by {
                assert(t[i] == s[i]);
            }
        }
        lemma_sanitize_ascii_path(t);
        lemma_split_char_nonempty(t, '/');
        lemma_split_pieces_ascii(t, '/');
        let r = split_char(t, '/');
        let mr = r.map_values(f);
        assert(s.map_values(|c: char| sanitized_path_char(c)) =~= t.map_values(|c: char| sanitized_path_char(c)).push(sanitized_path_char(c)));
        if c == '/' {
            assert(split_char(s, '/') == r.push(Seq::<char>::empty()));
            assert(r.push(Seq::<char>::empty()).map_values(f) =~= mr.push(spec_sanitize_name(Seq::<char>::empty())));
            lemma_sanitize_ascii_name(Seq::<char>::empty());
            assert(spec_sanitize_name(Seq::<char>::empty()) =~= Seq::<char>::empty());
            lemma_join_push(mr, Seq::<char>::empty(), seq!['/']);
            assert(join(mr, seq!['/']) + seq!['/'] + Seq::<char>::empty() =~= join(mr, seq!['/']).push('/'));
        } else {
            let l = r.last();
            assert(crate::text::all_ascii(r[r.len() - 1]));
            assert((c as u32) < 128) by {
                assert(c == s[s.len() - 1]);
            }
            assert(crate::text::all_ascii(l.push(c))) by {
                assert forall|i: int| 0 <= i < l.push(c).len() implies (#[trigger] l.push(c)[i] as u32) < 128 by {
                    if i < l.len() {
                        assert(l.push(c)[i] == l[i]);
                    }
                }
            }
            assert(split_char(s, '/') == r.update(r.len() - 1, l.push(c)));
            lemma_sanitize_ascii_name(l);
            lemma_sanitize_ascii_name(l.push(c));
            assert(spec_sanitize_name(l.push(c)) =~= spec_sanitize_name(l).push(sanitized_path_char(c)));
            assert(r.update(r.len() - 1, l.push(c)).map_values(f)
                =~= mr.update(mr.len() - 1, mr.last().push(sanitized_path_char(c))));
            lemma_join_extend_last(mr, sanitized_path_char(c), seq!['/']);
        }
    }
}

/// Importing with an ASCII path whose segments are all non-empty gives a well-formed
/// skill path.
pub proof fn law_sanitized_path_is_valid(p: Seq<char>)
    requires
        crate::text::all_ascii(p),
        p.len() > 0,
        p[0] != '/',
        p.last() != '/',
        !contains_seq(p, seq!['/', '/']),
    ensures
        valid_skill_path(spec_sanitize_path(p)),
{
    lemma_sanitize_ascii_path(p);
    let r = spec_sanitize_path(p);
    assert forall|i: int| 0 <= i < r.len() implies crate::tree::path_char_ok(#[trigger] r[i])
        && (r[i] == '/' <==> p[i] == '/') by {
        assert(r[i] == sanitized_path_char(p[i]));
        assert((p[i] as u32) < 128);
    }
    assert(r[0] != '/');
    assert(r.last() == r[r.len() - 1]);
    assert(p.last() == p[p.len() - 1]);
    if contains_seq(r, seq!['/', '/']) {
        let k = choose|k: int| occurs_at(r, seq!['/', '/'], k);
        assert(r.subrange(k, k + 2)[0] == r[k] && r.subrange(k, k + 2)[1] == r[k + 1]);
        assert(p.subrange(k, k + 2) =~= seq!['/', '/']);
        assert(occurs_at(p, seq!['/', '/'], k));
    }
}

/// A character a sanitized ASCII name is made of: a lowercase letter, a digit, `-` or `_`.
pub open spec fn sanitized_name_char(c: char) -> bool {
    ('a' <= c && c <= 'z') || ('0' <= c && c <= '9') || c == '-' || c == '_'
}

proof fn lemma_sanitized_char_shape(c: char)
    requires
        (c as u32) < 128,
    ensures
        sanitized_name_char(crate::text::ascii_lower(sanitize_char(c))),
        sanitized_name_char(c) ==> crate::text::ascii_lower(sanitize_char(c)) == c,
{
}

/// Sanitizing an ASCII name keeps its length, leaves only lowercase letters, digits, `-`
/// and `_`, and sanitizing the result again changes nothing.
pub proof fn law_sanitized_name_shape(name: Seq<char>)
    requires
        crate::text::all_ascii(name),
    ensures
        spec_sanitize_name(name).len() == name.len(),
        forall|i: int| 0 <= i < name.len() ==> sanitized_name_char(#[trigger] spec_sanitize_name(name)[i]),
        spec_sanitize_name(spec_sanitize_name(name)) == spec_sanitize_name(name),
{
    lemma_sanitize_ascii_name(name);
    let r = spec_sanitize_name(name);
    assert forall|i: int| 0 <= i < name.len() implies sanitized_name_char(#[trigger] r[i]) by {
        assert((name[i] as u32) < 128);
        lemma_sanitized_char_shape(name[i]);
    }
    assert(crate::text::all_ascii(r)) by {
        assert forall|i: int| 0 <= i < r.len() implies (#[trigger] r[i] as u32) < 128 by {
            assert(sanitized_name_char(r[i]));
        }
    }
    lemma_sanitize_ascii_name(r);
    assert forall|i: int| 0 <= i < r.len() implies #[trigger] crate::text::ascii_lower(sanitize_char(r[i])) == r[i] by {
        assert(sanitized_name_char(r[i]));
        lemma_sanitized_char_shape(r[i]);
    }
    assert(r.map_values(|c: char| crate::text::ascii_lower(sanitize_char(c))) =~= r);
}

/// Sanitizing an ASCII path twice gives what sanitizing it once gives.
pub proof fn law_sanitized_path_is_idempotent(p: Seq<char>)
    requires
        crate::text::all_ascii(p),
    ensures
        spec_sanitize_path(spec_sanitize_path(p)) == spec_sanitize_path(p),
{
    lemma_sanitize_ascii_path(p);
    let r = spec_sanitize_path(p);
    assert forall|i: int| 0 <= i < r.len() implies (#[trigger] r[i] == '/' || sanitized_name_char(r[i])) by {
        assert(r[i] == sanitized_path_char(p[i]));
        assert((p[i] as u32) < 128);
        lemma_sanitized_char_shape(p[i]);
    }
    assert(crate::text::all_ascii(r)) by {
        assert forall|i: int| 0 <= i < r.len() implies (#[trigger] r[i] as u32) < 128 by {
            assert(r[i] == '/' || sanitized_name_char(r[i]));
        }
    }
    lemma_sanitize_ascii_path(r);
    assert forall|i: int| 0 <= i < r.len() implies #[trigger] sanitized_path_char(r[i]) == r[i] by {
        assert(r[i] == '/' || sanitized_name_char(r[i]));
        if r[i] != '/' {
            lemma_sanitized_char_shape(r[i]);
        }
    }
    assert(r.map_values(|c: char| sanitized_path_char(c)) =~= r);
}

proof fn lemma_live_paths_distinct(rows: Seq<SkillRow>)
    requires
        crate::db::rows_distinct(rows),
    ensures
        forall|i: int, j: int| 0 <= i < j < live_skills(rows).len()
            ==> (#[trigger] live_skills(rows)[i]).path@ != (#[trigger] live_skills(rows)[j]).path@,
    decreases rows.len(),
{
    if rows.len() > 0 {
        let t = rows.drop_last();
        assert(crate::db::rows_distinct(t)) by {
            assert forall|a: int, b: int| 0 <= a < t.len() && 0 <= b < t.len() && a != b implies
                (#[trigger] t[a]).skill.path@ != (#[trigger] t[b]).skill.path@ && t[a].skill.id@ != t[b].skill.id@ by {
                assert(t[a] == rows[a] && t[b] == rows[b]);
            }
        }
        lemma_live_paths_distinct(t);
        let l = live_skills(t);
        if !rows.last().archived {
            let m = live_skills(rows);
            assert(m == l.push(rows.last().skill));
            assert forall|i: int, j: int| 0 <= i < j < m.len() implies (#[trigger] m[i]).path@ != (#[trigger] m[j]).path@ by {
                if j < l.len() {
                    assert(m[i] == l[i] && m[j] == l[j]);
                } else {
                    assert(m[i] == l[i]);
                    assert(l.contains(l[i]));
                    crate::db::lemma_live_skill_row(t, l[i]);
                    let a = choose|a: int| 0 <= a < t.len() && !t[a].archived && (#[trigger] t[a]).skill == l[i];
                    assert(rows[a] == t[a]);
                    assert(rows[a].skill.path@ != rows[rows.len() - 1].skill.path@);
                }
            }
        }
    }
}

/// The skills listed in path order are in strictly increasing path order, and there are
/// as many as there are live skills, which is what `skill_count` counts.
pub proof fn law_listed_paths_strictly_increase(rows: Seq<SkillRow>, listed: Seq<Skill>)
    requires
        crate::db::rows_distinct(rows),
        sorted_by_le(listed, by_path()),
        listed.to_multiset() == live_skills(rows).to_multiset(),
    ensures
        listed.len() == live_skills(rows).len(),
        forall|i: int, j: int| 0 <= i < j < listed.len()
            ==> lex_le((#[trigger] listed[i]).path@, (#[trigger] listed[j]).path@) && listed[i].path@ != listed[j].path@,
{
    broadcast use vstd::seq_lib::group_to_multiset_ensures;
    let l = live_skills(rows);
    assert(listed.len() == listed.to_multiset().len());
    assert(l.len() == l.to_multiset().len());
    lemma_live_paths_distinct(rows);
    assert(l.no_duplicates()) by {
        assert forall|p: int, q: int| 0 <= p < l.len() && 0 <= q < l.len() && p != q implies l[p] != l[q] by {
            if p < q {
                assert(l[p].path@ != l[q].path@);
            } else {
                assert(l[q].path@ != l[p].path@);
            }
        }
    }
    l.lemma_multiset_has_no_duplicates();
    listed.lemma_multiset_has_no_duplicates_conv();
    assert forall|i: int, j: int| 0 <= i < j < listed.len() implies
        lex_le((#[trigger] listed[i]).path@, (#[trigger] listed[j]).path@) && listed[i].path@ != listed[j].path@ by {
        assert(by_path()(listed[i], listed[j]));
        if listed[i].path@ == listed[j].path@ {
            assert(listed[i] != listed[j]);
            assert(listed.contains(listed[i]) && listed.contains(listed[j]));
            assert(listed.to_multiset().count(listed[i]) > 0 && listed.to_multiset().count(listed[j]) > 0);
            assert(l.contains(listed[i]) && l.contains(listed[j]));
            let a = choose|a: int| 0 <= a < l.len() && l[a] == listed[i];
            let b = choose|b: int| 0 <= b < l.len() && l[b] == listed[j];
            assert(a != b);
            if a < b {
                assert(l[a].path@ != l[b].path@);
            } else {
                assert(l[b].path@ != l[a].path@);
            }
        }
    }
}

proof fn lemma_occurs_in_left(a: Seq<char>, b: Seq<char>, p: Seq<char>, i: int)
    requires
        occurs_at(a, p, i),
    ensures
        occurs_at(a + b, p, i),
{
    assert((a + b).subrange(i, i + p.len()) =~= a.subrange(i, i + p.len()));
}

proof fn lemma_occurs_in_right(a: Seq<char>, b: Seq<char>, p: Seq<char>, i: int)
    requires
        occurs_at(b, p, i),
    ensures
        occurs_at(a + b, p, i + a.len()),
{
    assert((a + b).subrange(i + a.len(), i + a.len() + p.len()) =~= b.subrange(i, i + p.len()));
}

proof fn lemma_bullets_hold_items(prefix: Seq<char>, items: Seq<Seq<char>>, k: int)
    requires
        0 <= k < items.len(),
    ensures
        contains_seq(crate::tree::bullets(prefix, items), prefix + items[k] + "\n"@),
        crate::tree::bullets(prefix, items).len() >= prefix.len() + items[k].len() + 1,
    decreases items.len(),
{
    reveal_strlit("\n");
    let t = items.drop_last();
    let line = prefix + items.last() + "\n"@;
    let b0 = crate::tree::bullets(prefix, t);
    assert(crate::tree::bullets(prefix, items) =~= b0 + line);
    if k == items.len() - 1 {
        assert(occurs_at(line, line, 0)) by {
            assert(line.subrange(0, line.len() as int) =~= line);
        }
        lemma_occurs_in_right(b0, line, line, 0);
    } else {
        assert(t[k] == items[k]);
        lemma_bullets_hold_items(prefix, t, k);
        let i = choose|i: int| occurs_at(b0, prefix + items[k] + "\n"@, i);
        lemma_occurs_in_left(b0, line, prefix + items[k] + "\n"@, i);
    }
}

/// Evolving writes down every finding: the content changes exactly when there is a
/// failure or a suggestion, it then only grows, and it holds `- FAILURE: ` with each
/// failure's context and `- SUGGESTION: ` with each suggestion, each on a line of its own.
pub proof fn law_evolution_writes_every_finding(current: Seq<char>, failures: Seq<Seq<char>>, suggestions: Seq<Seq<char>>)
    ensures
        (spec_evolved_content(current, failures, suggestions) == current) <==> (failures.len() == 0 && suggestions.len() == 0),
        failures.len() > 0 || suggestions.len() > 0 ==> spec_evolved_content(current, failures, suggestions).len() > current.len(),
        forall|k: int| 0 <= k < failures.len() ==> contains_seq(spec_evolved_content(current, failures, suggestions),
            "- FAILURE: "@ + #[trigger] failures[k] + "\n"@),
        forall|k: int| 0 <= k < suggestions.len() ==> contains_seq(spec_evolved_content(current, failures, suggestions),
            "- SUGGESTION: "@ + #[trigger] suggestions[k] + "\n"@),
{
    reveal_strlit("\n\n## Gotchas (auto-evolved)\n\n");
    let e = spec_evolved_content(current, failures, suggestions);
    if failures.len() > 0 || suggestions.len() > 0 {
        let head = current + "\n\n## Gotchas (auto-evolved)\n\n"@;
        let bf = crate::tree::bullets("- FAILURE: "@, failures);
        let bs = crate::tree::bullets("- SUGGESTION: "@, suggestions);
        assert(e == head + bf + bs);
        assert(e.len() > current.len());
        assert forall|k: int| 0 <= k < failures.len() implies contains_seq(e, "- FAILURE: "@ + #[trigger] failures[k] + "\n"@) by {
            lemma_bullets_hold_items("- FAILURE: "@, failures, k);
            let i = choose|i: int| occurs_at(bf, "- FAILURE: "@ + failures[k] + "\n"@, i);
            lemma_occurs_in_right(head, bf, "- FAILURE: "@ + failures[k] + "\n"@, i);
            lemma_occurs_in_left(head + bf, bs, "- FAILURE: "@ + failures[k] + "\n"@, i + head.len());
        }
        assert forall|k: int| 0 <= k < suggestions.len() implies contains_seq(e, "- SUGGESTION: "@ + #[trigger] suggestions[k] + "\n"@) by {
            lemma_bullets_hold_items("- SUGGESTION: "@, suggestions, k);
            let i = choose|i: int| occurs_at(bs, "- SUGGESTION: "@ + suggestions[k] + "\n"@, i);
            lemma_occurs_in_right(head + bf, bs, "- SUGGESTION: "@ + suggestions[k] + "\n"@, i);
        }
    }
}

/// The health totals show the number of skills and the sums of their uses, successes and
/// failures, each from its own counter; with no uses there is no success or failure line.
pub proof fn law_health_totals_show_sums(f: Seq<Skill>)
    ensures
        crate::observe::health_totals(f)[2] == crate::report::tl("  Skills:   "@ + crate::text::decimal(f.len())),
        crate::observe::health_totals(f)[3]
            == crate::report::tl("  Usage:    "@ + crate::text::decimal(counter_sum(Counter::Usage, f))),
        counter_sum(Counter::Usage, f) > 0 ==> crate::observe::health_totals(f).len() == 7
            && crate::observe::health_totals(f)[4] == seq![
                crate::report::PieceView::Text("  Success:  "@ + crate::text::decimal(counter_sum(Counter::Success, f)) + " ("@),
                crate::report::PieceView::Percent(counter_sum(Counter::Success, f) as u64, counter_sum(Counter::Usage, f) as u64),
                crate::report::PieceView::Text("%)"@),
            ]
            && crate::observe::health_totals(f)[5]
                == crate::report::tl("  Failure:  "@ + crate::text::decimal(counter_sum(Counter::Failure, f))),
        counter_sum(Counter::Usage, f) == 0 ==> crate::observe::health_totals(f).len() == 5,
{
}

/// Whatever the success total, the statistics show the failure total on their Failures
/// line (when anything was used), and the success total beside the rate.
pub proof fn law_stats_show_failure_total(sc: nat, oc: nat, tu: nat, ts: nat, tf: nat, other_ts: nat)
    requires
        tu > 0,
    ensures
        crate::observe::stats_head(sc, oc, tu, ts, tf)[6]
            == crate::report::tl("  Failures:     "@ + crate::text::decimal(tf)),
        crate::observe::stats_head(sc, oc, tu, ts, tf)[6] == crate::observe::stats_head(sc, oc, tu, other_ts, tf)[6],
        crate::observe::stats_head(sc, oc, tu, ts, tf)[2] == crate::report::tl("  Skills:       "@ + crate::text::decimal(sc)),
        crate::observe::stats_head(sc, oc, tu, ts, tf)[3] == crate::report::tl("  Observations: "@ + crate::text::decimal(oc)),
        crate::observe::stats_head(sc, oc, tu, ts, tf)[4] == crate::report::tl("  Total usage:  "@ + crate::text::decimal(tu)),
        crate::observe::stats_head(sc, oc, tu, ts, tf)[5][1] == crate::report::PieceView::Percent(ts as u64, tu as u64),
        crate::observe::stats_head(sc, oc, tu, ts, tf).len() == 8,
        crate::observe::stats_head(sc, oc, 0, ts, tf).len() == 6,
        crate::observe::stats_head(sc, oc, tu, ts, tf)[5][2]
            == crate::report::PieceView::Text("% ("@ + crate::text::decimal(ts) + "/"@ + crate::text::decimal(tu) + ")"@),
{
}

/// A recorded failure brings the hint to evolve exactly when three or more failures wait,
/// so more waiting failures never take it away; other outcomes never bring it.
pub proof fn law_failure_hint_from_three(path: Seq<char>, outcome: Seq<char>, id: Seq<char>, usage: nat, failures: nat, more: nat)
    ensures
        crate::db::counts_failure(outcome) ==> (crate::observe::record_lines(path, outcome, id, usage, failures).len() == 5
            <==> failures >= 3),
        !crate::db::counts_failure(outcome) ==> crate::observe::record_lines(path, outcome, id, usage, failures).len() == 3,
        crate::observe::record_lines(path, outcome, id, usage, failures).len() == 5
            ==> crate::observe::record_lines(path, outcome, id, usage, failures + more).len() == 5,
{
}

/// A template whose text was read gives the new skill that text, whether the template
/// names a live skill or a file.
pub proof fn law_read_template_is_used(name: Seq<char>, description: Seq<char>, t: crate::tree::TemplateRead)
    requires
        t.text is Some,
    ensures
        crate::tree::spec_grow_content(name, description, Some(t)) == Ok::<Seq<char>, Seq<char>>(t.text->0@),
{
}

proof fn lemma_rfind_some(s: Seq<char>, c: char)
    ensures
        rfind_char(s, c) matches Some(i) ==> 0 <= i < s.len() && s[i] == c
            && forall|j: int| i < j < s.len() ==> s[j] != c,
        rfind_char(s, c) is None ==> forall|j: int| 0 <= j < s.len() ==> s[j] != c,
    decreases s.len(),
{
    if s.len() > 0 {
        let t = s.drop_last();
        lemma_rfind_some(t, c);
        assert forall|j: int| 0 <= j < t.len() implies #[trigger] s[j] == t[j] by {}
    }
}

/// The position above a well-formed skill path is itself a well-formed skill path.
pub proof fn law_parent_of_valid_path_is_valid(p: Seq<char>)
    requires
        valid_skill_path(p),
        parent_path(p) is Some,
    ensures
        valid_skill_path(parent_path(p)->0),
{
    lemma_rfind_some(p, '/');
    let i = rfind_char(p, '/')->0;
    let q = p.subrange(0, i);
    assert(i > 0);
    assert(q[0] == p[0]);
    assert(q.last() == p[i - 1]);
    if p[i - 1] == '/' {
        assert(crate::text::occurs_at(p, seq!['/', '/'], i - 1)) by {
            assert(p.subrange(i - 1, i + 1) =~= seq!['/', '/']);
        }
    }
    assert forall|k: int| 0 <= k < q.len() implies crate::tree::path_char_ok(#[trigger] q[k]) by {
        assert(q[k] == p[k]);
    }
    if crate::text::contains_seq(q, seq!['/', '/']) {
        let k = choose|k: int| crate::text::occurs_at(q, seq!['/', '/'], k);
        assert(q.subrange(k, k + 2) == seq!['/', '/']);
        assert(p.subrange(k, k + 2) =~= q.subrange(k, k + 2));
        assert(crate::text::occurs_at(p, seq!['/', '/'], k));
    }
}

} // verus!
