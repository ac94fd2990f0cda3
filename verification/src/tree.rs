//! Skill paths in the tree, and the content of skill files.
use vstd::prelude::*;
use vstd::string::StringExecFns;
use vstd::utf8::{encode_utf8, is_char_boundary};

use crate::db::{
    by_created_at, by_version_desc, live_skill_at, observation_filter, version_filter, Database, Observation, Skill,
    VersionRecord,
};
use crate::error::GroveError;
use crate::order::{lemma_permuted_filter_member, sorted_by_le};
use crate::report::{
    byte_prefix, byte_prefix_text, count_text, lines_view, push_line, push_text, rate_line, tl, Line, PieceView,
};
use crate::text::{
    chars_of, contains_seq, decimal, lemma_split_char_nonempty, find, is_alphanumeric, spec_is_alphanumeric, split_char, split_on,
    string_from_chars,
};

verus! {

/// A character that may stand in a skill path.
pub open spec fn path_char_ok(c: char) -> bool {
    spec_is_alphanumeric(c) || c == '/' || c == '-' || c == '_'
}

/// A well-formed skill path: non-empty, made of letters, digits, `/`, `-` and `_`,
/// without a leading, trailing or doubled slash.
pub open spec fn valid_skill_path(p: Seq<char>) -> bool {
    &&& p.len() > 0
    &&& forall|i: int| 0 <= i < p.len() ==> path_char_ok(#[trigger] p[i])
    &&& p[0] != '/'
    &&& p.last() != '/'
    &&& !contains_seq(p, seq!['/', '/'])
}

/// Checks that `path` is a well-formed skill path.
pub fn validate_path(path: &str) -> (r: Result<(), GroveError>)
    ensures
        r is Ok <==> valid_skill_path(path@),
        r matches Err(e) ==> e matches GroveError::InvalidPath(p) && p@ == path@,
{
    let cs = chars_of(path);
    if cs.len() == 0 {
        return Err(GroveError::InvalidPath(path.to_owned()));
    }
    let mut i: usize = 0;
    while i < cs.len()
        invariant
            cs@ == path@,
            i <= cs.len(),
            forall|j: int| 0 <= j < i ==> path_char_ok(#[trigger] cs@[j]),
        decreases cs.len() - i,
    {
        let ch = cs[i];
        if !is_alphanumeric(ch) && ch != '/' && ch != '-' && ch != '_' {
            assert(!path_char_ok(path@[i as int]));
            return Err(GroveError::InvalidPath(path.to_owned()));
        }
        i = i + 1;
    }
    let slashes: [char; 2] = ['/', '/'];
    assert(slashes@ =~= seq!['/', '/']);
    if cs[0] == '/' || cs[cs.len() - 1] == '/' || find(&cs, &slashes).is_some() {
        return Err(GroveError::InvalidPath(path.to_owned()));
    }
    Ok(())
}

/// The last segment of a slash-separated path (the whole path when it has no slash).
pub open spec fn last_segment(p: Seq<char>) -> Seq<char> {
    split_char(p, '/').last()
}

/// Index of the last occurrence of `c` in `s`.
pub open spec fn rfind_char(s: Seq<char>, c: char) -> Option<int>
    decreases s.len(),
{
    if s.len() == 0 {
        None
    } else if s.last() == c {
        Some(s.len() - 1)
    } else {
        rfind_char(s.drop_last(), c)
    }
}

/// The path of the parent position: everything before the last slash, if there is one.
pub open spec fn parent_path(p: Seq<char>) -> Option<Seq<char>> {
    match rfind_char(p, '/') {
        Some(i) => Some(p.subrange(0, i)),
        None => None,
    }
}

/// The skill name that a path gives: its last segment.
pub fn skill_name_of(path: &str) -> (r: String)
    ensures
        r@ == last_segment(path@),
{
    let cs = chars_of(path);
    let parts = split_on(&cs, '/');
    proof { lemma_split_char_nonempty(cs@, '/'); }
    let last = &parts[parts.len() - 1];
    string_from_chars(last.as_slice())
}

/// The parent position of `path`: everything before its last slash.
pub fn parent_path_of(path: &str) -> (r: Option<String>)
    ensures
        r matches Some(s) ==> parent_path(path@) == Some(s@),
        r is None ==> parent_path(path@) is None,
{
    let cs = chars_of(path);
    let mut j: usize = cs.len();
    assert(path@.subrange(0, path@.len() as int) =~= path@);
    while j > 0 && cs[j - 1] != '/'
        invariant
            cs@ == path@,
            j <= cs.len(),
            rfind_char(path@, '/') == rfind_char(path@.subrange(0, j as int), '/'),
        decreases j,
    {
        assert(path@.subrange(0, j as int).drop_last() =~= path@.subrange(0, j - 1));
        j = j - 1;
    }
    proof {
        assert(path@.subrange(0, path@.len() as int) =~= path@);
    }
    if j == 0 {
        assert(path@.subrange(0, 0).len() == 0);
        None
    } else {
        let mut v: Vec<char> = Vec::new();
        let mut k: usize = 0;
        while k < j - 1
            invariant
                cs@ == path@,
                0 < j <= cs.len(),
                k <= j - 1,
                v@ == path@.subrange(0, k as int),
            decreases j - 1 - k,
        {
            v.push(cs[k]);
            assert(path@.subrange(0, k as int).push(path@[k as int]) =~= path@.subrange(0, k + 1));
            k = k + 1;
        }
        Some(string_from_chars(v.as_slice()))
    }
}

/// The frontmatter that opens a new skill's SKILL.md: its name and description.
pub open spec fn default_head(name: Seq<char>, description: Seq<char>) -> Seq<char> {
    "---\n"@ + "name: "@ + name + "\n"@ + "description: "@ + description + "\n"@ + "---\n\n"@
}

/// The body of a new skill's SKILL.md: a title, the description, and empty sections.
pub open spec fn default_body(name: Seq<char>, description: Seq<char>) -> Seq<char> {
    "# "@ + name + "\n\n"@
        + (if description.len() > 0 { description + "\n\n"@ } else { Seq::<char>::empty() })
        + "## When to use\n\n"@
        + "<!-- Describe when this skill should be triggered -->\n\n"@
        + "## Instructions\n\n"@
        + "<!-- Step-by-step instructions for the agent -->\n\n"@
        + "## Gotchas\n\n"@
        + "<!-- Accumulated failure patterns and edge cases -->\n"@
}

/// The SKILL.md written for a new skill that has no template.
pub open spec fn default_content(name: Seq<char>, description: Seq<char>) -> Seq<char> {
    default_head(name, description) + default_body(name, description)
}

/// Builds the SKILL.md written for a new skill that has no template.
pub fn default_skill_content(name: &str, description: &str) -> (r: String)
    ensures
        r@ == default_content(name@, description@),
{
    let mut content = String::new();
    content.append("---\n");
    content.append("name: ");
    content.append(name);
    content.append("\n");
    content.append("description: ");
    content.append(description);
    content.append("\n");
    content.append("---\n\n");
    let ghost head = content@;
    assert(head == default_head(name@, description@));
    content.append("# ");
    content.append(name);
    content.append("\n\n");
    let ghost before = content@;
    if !description.is_empty() {
        content.append(description);
        content.append("\n\n");
    }
    assert(content@ == before + (if description@.len() > 0 { description@ + "\n\n"@ } else { Seq::<char>::empty() }));
    content.append("## When to use\n\n");
    content.append("<!-- Describe when this skill should be triggered -->\n\n");
    content.append("## Instructions\n\n");
    content.append("<!-- Step-by-step instructions for the agent -->\n\n");
    content.append("## Gotchas\n\n");
    content.append("<!-- Accumulated failure patterns and edge cases -->\n");
    assert(content@ =~= head + default_body(name@, description@));
    content
}

/// The id of the live skill at the parent position of `path`, if there is one.
pub open spec fn spec_parent_id(rows: Seq<crate::db::SkillRow>, path: Seq<char>) -> Option<Seq<char>> {
    match parent_path(path) {
        Some(p) => match live_skill_at(rows, p) {
            Some(s) => Some(s.id@),
            None => None,
        },
        None => None,
    }
}

/// The id of the live skill one level up from `skill_path`.
pub fn find_parent_id(db: &Database, skill_path: &str) -> (r: Option<String>)
    requires
        db@.wf(),
    ensures
        r matches Some(x) ==> spec_parent_id(db@.rows, skill_path@) == Some(x@),
        r is None ==> spec_parent_id(db@.rows, skill_path@) is None,
{
    match parent_path_of(skill_path) {
        Some(p) => match db.get_skill_by_path(p.as_str()) {
            Some(parent) => Some(parent.id),
            None => None,
        },
        None => None,
    }
}

/// The first `n` bytes of `h` form whole characters.
pub open spec fn prefix_ok(h: Seq<char>, n: int) -> bool {
    is_char_boundary(encode_utf8(h), n)
}

/// The lines for each version: number, short hash, description, a marker on the current
/// one, then the creation time.
pub open spec fn version_lines(vs: Seq<VersionRecord>, current: u32) -> Seq<Seq<PieceView>>
    decreases vs.len(),
{
    if vs.len() == 0 {
        Seq::empty()
    } else {
        let v = vs.last();
        version_lines(vs.drop_last(), current)
            + seq![
                tl("  v"@ + decimal(v.version as nat) + " ["@ + byte_prefix_text(v.content_hash@, 8) + "] "@
                    + v.description@ + (if v.version == current { " <- current"@ } else { Seq::<char>::empty() })),
                tl("    "@ + v.created_at@),
            ]
    }
}

/// What `history` shows for a skill and its versions in the order listed.
pub open spec fn history_lines(path: Seq<char>, skill: Skill, vs: Seq<VersionRecord>) -> Seq<Seq<PieceView>> {
    seq![
        tl("--- History: "@ + path + " ---"@),
        tl("  current version: "@ + decimal(skill.version as nat)),
        tl(Seq::<char>::empty()),
    ] + version_lines(vs, skill.version)
        + (if vs.len() == 0 { seq![tl("  (no version history)"@)] } else { Seq::<Seq<PieceView>>::empty() })
}

/// Every version of skill `id` has whole characters in its first `n` hash bytes.
pub open spec fn version_hashes_ok(versions: Seq<VersionRecord>, id: Seq<char>, n: int) -> bool {
    forall|k: int| 0 <= k < versions.len() && (#[trigger] versions[k]).skill_id@ == id
        ==> prefix_ok(versions[k].content_hash@, n)
}

/// The version history of the live skill at `skill_path`, newest first.
pub fn history(db: &Database, skill_path: &str) -> (r: Result<Vec<Line>, GroveError>)
    requires
        db@.wf(),
        live_skill_at(db@.rows, skill_path@) matches Some(s) ==> version_hashes_ok(db@.versions, s.id@, 8),
    ensures
        live_skill_at(db@.rows, skill_path@) is None ==> (r matches Err(GroveError::SkillNotFound(p)) && p@ == skill_path@),
        live_skill_at(db@.rows, skill_path@) matches Some(s) ==> (r matches Ok(lines) && exists|vs: Seq<VersionRecord>|
            #![trigger vs.to_multiset()]
            sorted_by_le(vs, by_version_desc())
            && vs.to_multiset() == db@.versions.filter(version_filter(s.id@)).to_multiset()
            && lines_view(lines@) == history_lines(skill_path@, s, vs)),
{
    let skill = match db.get_skill_by_path(skill_path) {
        Some(s) => s,
        None => { return Err(GroveError::SkillNotFound(skill_path.to_owned())); },
    };
    let versions = db.get_versions(skill.id.as_str());
    let ghost vs = versions@;
    proof {
        let f = version_filter(skill.id@);
        assert forall|k: int| 0 <= k < vs.len() implies prefix_ok(#[trigger] vs[k].content_hash@, 8) by {
            lemma_permuted_filter_member(vs, db@.versions, f, k);
            let m = choose|m: int| 0 <= m < db@.versions.len() && db@.versions[m] == vs[k];
            assert(db@.versions[m].skill_id@ == skill.id@);
        }
    }
    let mut lines: Vec<Line> = Vec::new();
    let mut h = String::from_str("--- History: ");
    h.append(skill_path);
    h.append(" ---");
    push_text(&mut lines, h);
    let mut c = String::from_str("  current version: ");
    c.append(count_text(skill.version as u64).as_str());
    push_text(&mut lines, c);
    push_text(&mut lines, String::new());
    let ghost head = lines_view(lines@);
    let mut i: usize = 0;
    while i < versions.len()
        invariant
            vs == versions@,
            forall|k: int| 0 <= k < vs.len() ==> prefix_ok(#[trigger] vs[k].content_hash@, 8),
            i <= versions.len(),
            lines_view(lines@) == head + version_lines(vs.take(i as int), skill.version),
        decreases versions.len() - i,
    {
        let v = &versions[i];
        assert(vs.take(i + 1).drop_last() =~= vs.take(i as int));
        assert(vs.take(i + 1).last() == vs[i as int]);
        let mut l = String::from_str("  v");
        l.append(count_text(v.version as u64).as_str());
        l.append(" [");
        l.append(byte_prefix(v.content_hash.as_str(), 8).as_str());
        l.append("] ");
        l.append(v.description.as_str());
        if v.version == skill.version {
            l.append(" <- current");
        } else {
            assert(l@ =~= l@ + Seq::<char>::empty());
        }
        push_text(&mut lines, l);
        let mut t = String::from_str("    ");
        t.append(v.created_at.as_str());
        push_text(&mut lines, t);
        i = i + 1;
    }
    assert(vs.take(vs.len() as int) =~= vs);
    if versions.len() == 0 {
        push_text(&mut lines, String::from_str("  (no version history)"));
    }
    assert(lines_view(lines@) =~= history_lines(skill_path@, skill, vs));
    Ok(lines)
}

/// The text of an optional context, or `(no context)`.
pub open spec fn context_text(c: Option<String>) -> Seq<char> {
    match c {
        Some(x) => x@,
        None => "(no context)"@,
    }
}

fn context_string(c: &Option<String>) -> (r: String)
    ensures
        r@ == context_text(*c),
{
    match c {
        Some(x) => x.clone(),
        None => String::from_str("(no context)"),
    }
}

/// The date part of a timestamp: the text before its first `T`.
pub open spec fn date_part(c: Seq<char>) -> Seq<char> {
    split_char(c, 'T')[0]
}

fn date_string(c: &String) -> (r: String)
    ensures
        r@ == date_part(c@),
{
    let cs = chars_of(c.as_str());
    let parts = split_on(&cs, 'T');
    proof { lemma_split_char_nonempty(cs@, 'T'); }
    string_from_chars(parts[0].as_slice())
}

/// The lines `show` gives for each pending observation.
pub open spec fn pending_observation_lines(obs: Seq<Observation>) -> Seq<Seq<PieceView>>
    decreases obs.len(),
{
    if obs.len() == 0 {
        Seq::empty()
    } else {
        let o = obs.last();
        pending_observation_lines(obs.drop_last())
            + seq![tl("  ["@ + o.outcome@ + "] "@ + date_part(o.created_at@) + " \u{2014} "@ + context_text(o.context))]
            + match o.suggestion {
                Some(x) => seq![tl("    suggestion: "@ + x@)],
                None => Seq::<Seq<PieceView>>::empty(),
            }
    }
}

/// The pending-observations block of `show`: nothing when there are none.
pub open spec fn pending_block(obs: Seq<Observation>) -> Seq<Seq<PieceView>> {
    if obs.len() == 0 {
        Seq::empty()
    } else {
        seq![tl(Seq::<char>::empty()), tl("--- Pending observations ("@ + decimal(obs.len()) + ") ---"@)]
            + pending_observation_lines(obs)
    }
}

/// The metadata lines `show` gives for a skill, before its content.
pub open spec fn show_head(path: Seq<char>, s: Skill) -> Seq<Seq<PieceView>> {
    seq![
        tl("--- "@ + path + " ---"@),
        tl("  name:        "@ + s.name@),
        tl("  version:     "@ + decimal(s.version as nat)),
        tl("  source:      "@ + s.source@),
        tl("  description: "@ + s.description@),
        tl("  usage:       "@ + decimal(s.usage_count as nat) + " total, "@ + decimal(s.success_count as nat)
            + " success, "@ + decimal(s.failure_count as nat) + " failure"@),
    ]
        + (if s.usage_count > 0 {
            seq![seq![PieceView::Text("  success rate: "@), PieceView::Percent(s.success_count, s.usage_count),
                PieceView::Text("%"@)]]
        } else {
            Seq::<Seq<PieceView>>::empty()
        })
        + seq![tl("  created:     "@ + s.created_at@)]
        + match s.evolved_at {
            Some(e) => seq![tl("  evolved:     "@ + e@)],
            None => Seq::<Seq<PieceView>>::empty(),
        }
        + seq![tl("  id:          "@ + s.id@), tl("  hash:        "@ + byte_prefix_text(s.content_hash@, 12))]
}

/// What `show` gives: the metadata lines, then (after the skill's file content) the
/// pending observations.
pub struct ShowReport {
    pub head: Vec<Line>,
    pub pending: Vec<Line>,
}

/// A skill's metadata and its unconsumed observations, oldest first.
pub fn show(db: &Database, skill_path: &str) -> (r: Result<ShowReport, GroveError>)
    requires
        db@.wf(),
        live_skill_at(db@.rows, skill_path@) matches Some(s) ==> prefix_ok(s.content_hash@, 12),
    ensures
        live_skill_at(db@.rows, skill_path@) is None ==> (r matches Err(GroveError::SkillNotFound(p)) && p@ == skill_path@),
        live_skill_at(db@.rows, skill_path@) matches Some(s) ==> (r matches Ok(rep)
            && lines_view(rep.head@) == show_head(skill_path@, s)
            && exists|obs: Seq<Observation>| #![trigger obs.to_multiset()]
                sorted_by_le(obs, by_created_at())
                && obs.to_multiset() == db@.observations.filter(observation_filter(s.id@, true)).to_multiset()
                && lines_view(rep.pending@) == pending_block(obs)),
{
    let skill = match db.get_skill_by_path(skill_path) {
        Some(s) => s,
        None => { return Err(GroveError::SkillNotFound(skill_path.to_owned())); },
    };
    let mut head: Vec<Line> = Vec::new();
    let mut l = String::from_str("--- ");
    l.append(skill_path);
    l.append(" ---");
    push_text(&mut head, l);
    let mut l = String::from_str("  name:        ");
    l.append(skill.name.as_str());
    push_text(&mut head, l);
    let mut l = String::from_str("  version:     ");
    l.append(count_text(skill.version as u64).as_str());
    push_text(&mut head, l);
    let mut l = String::from_str("  source:      ");
    l.append(skill.source.as_str());
    push_text(&mut head, l);
    let mut l = String::from_str("  description: ");
    l.append(skill.description.as_str());
    push_text(&mut head, l);
    let mut l = String::from_str("  usage:       ");
    l.append(count_text(skill.usage_count).as_str());
    l.append(" total, ");
    l.append(count_text(skill.success_count).as_str());
    l.append(" success, ");
    l.append(count_text(skill.failure_count).as_str());
    l.append(" failure");
    push_text(&mut head, l);
    if skill.usage_count > 0 {
        let rl = rate_line(String::from_str("  success rate: "), skill.success_count, skill.usage_count,
            String::from_str("%"));
        push_line(&mut head, rl);
    }
    let mut l = String::from_str("  created:     ");
    l.append(skill.created_at.as_str());
    push_text(&mut head, l);
    match &skill.evolved_at {
        Some(e) => {
            let mut l = String::from_str("  evolved:     ");
            l.append(e.as_str());
            push_text(&mut head, l);
        },
        None => {},
    }
    let mut l = String::from_str("  id:          ");
    l.append(skill.id.as_str());
    push_text(&mut head, l);
    let mut l = String::from_str("  hash:        ");
    l.append(byte_prefix(skill.content_hash.as_str(), 12).as_str());
    push_text(&mut head, l);
    assert(lines_view(head@) =~= show_head(skill_path@, skill));

    let obs = db.get_observations(skill.id.as_str(), true);
    let ghost ov = obs@;
    let mut pending: Vec<Line> = Vec::new();
    if obs.len() > 0 {
        push_text(&mut pending, String::new());
        let mut l = String::from_str("--- Pending observations (");
        l.append(count_text(obs.len() as u64).as_str());
        l.append(") ---");
        push_text(&mut pending, l);
        let ghost top = lines_view(pending@);
        let mut i: usize = 0;
        while i < obs.len()
            invariant
                ov == obs@,
                i <= obs.len(),
                lines_view(pending@) == top + pending_observation_lines(ov.take(i as int)),
            decreases obs.len() - i,
        {
            let o = &obs[i];
            assert(ov.take(i + 1).drop_last() =~= ov.take(i as int));
            assert(ov.take(i + 1).last() == ov[i as int]);
            let mut l = String::from_str("  [");
            l.append(o.outcome.as_str());
            l.append("] ");
            l.append(date_string(&o.created_at).as_str());
            l.append(" \u{2014} ");
            l.append(context_string(&o.context).as_str());
            push_text(&mut pending, l);
            match &o.suggestion {
                Some(x) => {
                    let mut l = String::from_str("    suggestion: ");
                    l.append(x.as_str());
                    push_text(&mut pending, l);
                },
                None => {},
            }
            i = i + 1;
        }
        assert(ov.take(ov.len() as int) =~= ov);
    }
    assert(lines_view(pending@) =~= pending_block(ov));
    Ok(ShowReport { head, pending })
}

/// Checks that there is a live skill at `skill_path` to prune.
pub fn prune_check(db: &Database, skill_path: &str) -> (r: Result<(), GroveError>)
    requires
        db@.wf(),
    ensures
        r is Ok <==> live_skill_at(db@.rows, skill_path@) is Some,
        r matches Err(e) ==> e matches GroveError::SkillNotFound(p) && p@ == skill_path@,
{
    match db.get_skill_by_path(skill_path) {
        Some(_) => Ok(()),
        None => Err(GroveError::SkillNotFound(skill_path.to_owned())),
    }
}

/// Removes the live skill at `skill_path` from the tree: archived (kept, hidden) or
/// deleted.
pub fn prune(db: &mut Database, skill_path: &str, archive: bool) -> (r: Result<Vec<Line>, GroveError>)
    requires
        old(db)@.wf(),
    ensures
        final(db)@.wf(),
        live_skill_at(old(db)@.rows, skill_path@) is None ==> (r matches Err(GroveError::SkillNotFound(p))
            && p@ == skill_path@ && final(db)@ == old(db)@),
        live_skill_at(old(db)@.rows, skill_path@) is Some && archive ==> (r matches Ok(lines)
            && lines_view(lines@) == seq![tl("Archived skill: "@ + skill_path@ + " -> archive/"@ + skill_path@)]
            && exists|i: int| #[trigger] crate::db::live_at(old(db)@.rows, i, skill_path@)
                && final(db)@.rows == old(db)@.rows.update(i, crate::db::SkillRow { skill: old(db)@.rows[i].skill, archived: true })
                && final(db)@.observations == old(db)@.observations && final(db)@.versions == old(db)@.versions),
        live_skill_at(old(db)@.rows, skill_path@) is Some && !archive ==> (r matches Ok(lines)
            && lines_view(lines@) == seq![tl("Pruned skill: "@ + skill_path@)]
            && exists|i: int| 0 <= i < old(db)@.rows.len() && (#[trigger] old(db)@.rows[i]).skill.path@ == skill_path@
                && final(db)@.rows == old(db)@.rows.remove(i)
                && final(db)@.observations == old(db)@.observations && final(db)@.versions == old(db)@.versions),
{
    if db.get_skill_by_path(skill_path).is_none() {
        return Err(GroveError::SkillNotFound(skill_path.to_owned()));
    }
    let mut lines: Vec<Line> = Vec::new();
    if archive {
        db.archive_skill(skill_path);
        let mut l = String::from_str("Archived skill: ");
        l.append(skill_path);
        l.append(" -> archive/");
        l.append(skill_path);
        push_text(&mut lines, l);
    } else {
        proof {
            let c = choose|j: int| crate::db::live_at(db@.rows, j, skill_path@);
            assert(crate::db::path_taken(db@.rows, skill_path@));
        }
        db.delete_skill(skill_path);
        let mut l = String::from_str("Pruned skill: ");
        l.append(skill_path);
        push_text(&mut lines, l);
    }
    Ok(lines)
}

/// The commit message for growing a skill.
pub fn grow_commit_message(skill_path: &str) -> (r: String)
    ensures
        r@ == "grove: grow "@ + skill_path@,
{
    let mut m = String::from_str("grove: grow ");
    m.append(skill_path);
    m
}

/// The commit message for pruning a skill.
pub fn prune_commit_message(skill_path: &str) -> (r: String)
    ensures
        r@ == "grove: prune "@ + skill_path@,
{
    let mut m = String::from_str("grove: prune ");
    m.append(skill_path);
    m
}

/// What growing a skill at a path will record: its name and description.
pub struct GrowPlan {
    pub name: String,
    pub description: String,
}

/// The text of an optional description, empty when absent.
pub open spec fn desc_text(d: Option<&str>) -> Seq<char> {
    match d {
        Some(x) => x@,
        None => Seq::<char>::empty(),
    }
}

/// Checks a new skill path (well-formed, not live yet) and names the skill after its last
/// segment.
pub fn grow_plan(db: &Database, skill_path: &str, description: Option<&str>) -> (r: Result<GrowPlan, GroveError>)
    requires
        db@.wf(),
    ensures
        !valid_skill_path(skill_path@) ==> (r matches Err(GroveError::InvalidPath(p)) && p@ == skill_path@),
        valid_skill_path(skill_path@) && live_skill_at(db@.rows, skill_path@) is Some
            ==> (r matches Err(GroveError::SkillExists(p)) && p@ == skill_path@),
        valid_skill_path(skill_path@) && live_skill_at(db@.rows, skill_path@) is None ==> (r matches Ok(plan)
            && plan.name@ == last_segment(skill_path@) && plan.description@ == desc_text(description)),
{
    match validate_path(skill_path) {
        Ok(()) => {},
        Err(e) => { return Err(e); },
    }
    if db.get_skill_by_path(skill_path).is_some() {
        return Err(GroveError::SkillExists(skill_path.to_owned()));
    }
    let name = skill_name_of(skill_path);
    let description = match description {
        Some(d) => d.to_owned(),
        None => String::new(),
    };
    Ok(GrowPlan { name, description })
}

/// A template that a new skill is grown from, as read from disk.
pub struct TemplateRead {
    /// The template as given: a skill path or a file path.
    pub path: String,
    /// Whether a live skill has that path (then its SKILL.md was looked for).
    pub is_skill: bool,
    /// The file's text, when it exists.
    pub text: Option<String>,
}

/// Whether a template named for a new skill is a live skill (its SKILL.md is then the
/// template) rather than a file path.
pub fn template_is_skill(db: &Database, template_path: &str) -> (r: bool)
    requires
        db@.wf(),
    ensures
        r == live_skill_at(db@.rows, template_path@) is Some,
{
    db.get_skill_by_path(template_path).is_some()
}

/// The content a new skill starts with: the template's text when it was found; the
/// default content without a template, or when the template is a skill without a file;
/// an error when the template is neither a skill nor an existing file.
pub open spec fn spec_grow_content(name: Seq<char>, description: Seq<char>, template: Option<TemplateRead>)
    -> Result<Seq<char>, Seq<char>> {
    match template {
        None => Ok(default_content(name, description)),
        Some(t) => match t.text {
            Some(x) => Ok(x@),
            None => if t.is_skill { Ok(default_content(name, description)) } else { Err(t.path@) },
        },
    }
}

/// Chooses the content a new skill starts with.
pub fn grow_content(plan: &GrowPlan, template: Option<TemplateRead>) -> (r: Result<String, GroveError>)
    ensures
        spec_grow_content(plan.name@, plan.description@, template) matches Ok(c) ==> (r matches Ok(x) && x@ == c),
        spec_grow_content(plan.name@, plan.description@, template) matches Err(p)
            ==> (r matches Err(GroveError::SkillNotFound(q)) && q@ == p),
{
    match template {
        None => Ok(default_skill_content(plan.name.as_str(), plan.description.as_str())),
        Some(t) => match t.text {
            Some(x) => Ok(x),
            None => if t.is_skill {
                Ok(default_skill_content(plan.name.as_str(), plan.description.as_str()))
            } else {
                Err(GroveError::SkillNotFound(t.path))
            },
        },
    }
}

/// Records a grown skill: its content hash, its parent (the live skill one level up) and
/// a `native` source. Returns the lines to show.
pub fn grow_record(db: &mut Database, skill_path: &str, plan: &GrowPlan, content: &str) -> (r: Result<Vec<Line>, crate::db::DbError>)
    requires
        old(db)@.wf(),
    ensures
        final(db)@.wf(),
        exists|id: Seq<char>, ver_id: Seq<char>, now: Seq<char>, res: Result<String, crate::db::DbError>|
            crate::db::is_v4_uuid_text(id) && crate::db::is_v4_uuid_text(ver_id) && crate::db::is_utc_timestamp(now)
                && #[trigger] crate::db::insert_skill_effect(
                old(db)@, final(db)@, res, id, ver_id, now, plan.name@, skill_path@, plan.description@,
                spec_parent_id(old(db)@.rows, skill_path@), "native"@, crate::hash::spec_content_hash(content@))
            && (res matches Err(e) ==> (r matches Err(x) && x == e))
            && (res matches Ok(x) ==> (r matches Ok(lines) && lines_view(lines@) == seq![
                    tl("Grew skill: "@ + skill_path@),
                    tl("  id: "@ + x@),
                    tl("  version: 1"@),
                ] + match spec_parent_id(old(db)@.rows, skill_path@) {
                    Some(pid) => seq![tl("  parent: "@ + pid)],
                    None => Seq::<Seq<PieceView>>::empty(),
                })),
{
    let hash = crate::hash::content_hash(content);
    let parent_id = find_parent_id(db, skill_path);
    let parent_ref: Option<&str> = match &parent_id {
        Some(p) => Some(p.as_str()),
        None => None,
    };
    let res = db.insert_skill(plan.name.as_str(), skill_path, plan.description.as_str(), parent_ref, "native",
        hash.as_str());
    proof {
        reveal_strlit("native");
    }
    let id = match res {
        Ok(id) => id,
        Err(e) => { return Err(e); },
    };
    let mut lines: Vec<Line> = Vec::new();
    let mut l = String::from_str("Grew skill: ");
    l.append(skill_path);
    push_text(&mut lines, l);
    let mut l = String::from_str("  id: ");
    l.append(id.as_str());
    push_text(&mut lines, l);
    push_text(&mut lines, String::from_str("  version: 1"));
    match &parent_id {
        Some(pid) => {
            let mut l = String::from_str("  parent: ");
            l.append(pid.as_str());
            push_text(&mut lines, l);
        },
        None => {},
    }
    Ok(lines)
}

/// The texts of strings.
pub open spec fn texts(v: Seq<String>) -> Seq<Seq<char>> {
    v.map_values(|s: String| s@)
}

/// The contexts of failed observations, in order.
pub open spec fn failure_contexts(obs: Seq<Observation>) -> Seq<Seq<char>>
    decreases obs.len(),
{
    if obs.len() == 0 {
        Seq::empty()
    } else {
        let o = obs.last();
        failure_contexts(obs.drop_last()) + match o.context {
            Some(c) => if o.outcome@ == "failure"@ { seq![c@] } else { Seq::<Seq<char>>::empty() },
            None => Seq::<Seq<char>>::empty(),
        }
    }
}

/// The suggestions of observations, in order.
pub open spec fn suggestions_of(obs: Seq<Observation>) -> Seq<Seq<char>>
    decreases obs.len(),
{
    if obs.len() == 0 {
        Seq::empty()
    } else {
        suggestions_of(obs.drop_last()) + match obs.last().suggestion {
            Some(x) => seq![x@],
            None => Seq::<Seq<char>>::empty(),
        }
    }
}

/// The lines `evolve` shows for each observation.
pub open spec fn evolve_observation_lines(obs: Seq<Observation>) -> Seq<Seq<PieceView>>
    decreases obs.len(),
{
    if obs.len() == 0 {
        Seq::empty()
    } else {
        let o = obs.last();
        evolve_observation_lines(obs.drop_last())
            + seq![tl("  ["@ + o.outcome@ + "] "@ + context_text(o.context))]
            + match o.suggestion {
                Some(x) => seq![tl("    -> "@ + x@)],
                None => Seq::<Seq<PieceView>>::empty(),
            }
    }
}

/// What `evolve` shows before deciding: nothing to do, or the observations.
pub open spec fn evolve_head(path: Seq<char>, obs: Seq<Observation>) -> Seq<Seq<PieceView>> {
    if obs.len() == 0 {
        seq![tl("No unconsumed observations for "@ + path + ". Nothing to evolve."@)]
    } else {
        seq![
            tl("--- Evolve: "@ + path + " ---"@),
            tl("  "@ + decimal(obs.len()) + " unconsumed observations:"@),
            tl(Seq::<char>::empty()),
        ] + evolve_observation_lines(obs)
    }
}

/// What evolving a skill works from.
pub struct EvolvePlan {
    pub skill: Skill,
    pub observations: Vec<Observation>,
    pub failures: Vec<String>,
    pub suggestions: Vec<String>,
    pub lines: Vec<Line>,
}

/// Gathers the unconsumed observations of the live skill at `skill_path` (oldest first),
/// the contexts of its failures and its suggestions.
pub fn evolve_plan(db: &Database, skill_path: &str) -> (r: Result<EvolvePlan, GroveError>)
    requires
        db@.wf(),
    ensures
        live_skill_at(db@.rows, skill_path@) is None ==> (r matches Err(GroveError::SkillNotFound(p)) && p@ == skill_path@),
        live_skill_at(db@.rows, skill_path@) matches Some(s) ==> (r matches Ok(plan)
            && plan.skill == s
            && sorted_by_le(plan.observations@, by_created_at())
            && plan.observations@.to_multiset() == db@.observations.filter(observation_filter(s.id@, true)).to_multiset()
            && texts(plan.failures@) == failure_contexts(plan.observations@)
            && texts(plan.suggestions@) == suggestions_of(plan.observations@)
            && lines_view(plan.lines@) == evolve_head(skill_path@, plan.observations@)),
{
    let skill = match db.get_skill_by_path(skill_path) {
        Some(s) => s,
        None => { return Err(GroveError::SkillNotFound(skill_path.to_owned())); },
    };
    let observations = db.get_observations(skill.id.as_str(), true);
    let ghost ov = observations@;
    let mut lines: Vec<Line> = Vec::new();
    let mut failures: Vec<String> = Vec::new();
    let mut suggestions: Vec<String> = Vec::new();
    if observations.len() == 0 {
        let mut l = String::from_str("No unconsumed observations for ");
        l.append(skill_path);
        l.append(". Nothing to evolve.");
        push_text(&mut lines, l);
        assert(texts(failures@) =~= failure_contexts(ov));
        assert(texts(suggestions@) =~= suggestions_of(ov));
        return Ok(EvolvePlan { skill, observations, failures, suggestions, lines });
    }
    let mut l = String::from_str("--- Evolve: ");
    l.append(skill_path);
    l.append(" ---");
    push_text(&mut lines, l);
    let mut l = String::from_str("  ");
    l.append(count_text(observations.len() as u64).as_str());
    l.append(" unconsumed observations:");
    push_text(&mut lines, l);
    push_text(&mut lines, String::new());
    let ghost top = lines_view(lines@);
    let failure_word = String::from_str("failure");
    let mut i: usize = 0;
    while i < observations.len()
        invariant
            ov == observations@,
            failure_word@ == "failure"@,
            i <= observations.len(),
            lines_view(lines@) == top + evolve_observation_lines(ov.take(i as int)),
            texts(failures@) == failure_contexts(ov.take(i as int)),
            texts(suggestions@) == suggestions_of(ov.take(i as int)),
        decreases observations.len() - i,
    {
        let o = &observations[i];
        assert(ov.take(i + 1).drop_last() =~= ov.take(i as int));
        assert(ov.take(i + 1).last() == ov[i as int]);
        let mut l = String::from_str("  [");
        l.append(o.outcome.as_str());
        l.append("] ");
        l.append(context_string(&o.context).as_str());
        push_text(&mut lines, l);
        let ghost f0 = failures@;
        if o.outcome.eq(&failure_word) {
            match &o.context {
                Some(c) => { failures.push(c.clone()); },
                None => {},
            }
        }
        assert(texts(failures@) =~= failure_contexts(ov.take(i + 1)));
        match &o.suggestion {
            Some(x) => {
                suggestions.push(x.clone());
                let mut l = String::from_str("    -> ");
                l.append(x.as_str());
                push_text(&mut lines, l);
            },
            None => {},
        }
        assert(texts(suggestions@) =~= suggestions_of(ov.take(i + 1)));
        i = i + 1;
    }
    assert(ov.take(ov.len() as int) =~= ov);
    Ok(EvolvePlan { skill, observations, failures, suggestions, lines })
}

/// The recommendations a dry run shows.
pub open spec fn dry_run_text(failures: nat, suggestions: nat) -> Seq<Seq<PieceView>> {
    seq![
        tl(Seq::<char>::empty()),
        tl("(dry run \u{2014} no changes applied)"@),
        tl(Seq::<char>::empty()),
        tl("Recommended actions:"@),
    ]
        + (if failures > 0 {
            seq![tl("  - Add gotchas section addressing "@ + decimal(failures) + " failure(s)"@)]
        } else {
            Seq::<Seq<PieceView>>::empty()
        })
        + (if suggestions > 0 {
            seq![tl("  - Incorporate "@ + decimal(suggestions) + " suggestion(s) into SKILL.md"@)]
        } else {
            Seq::<Seq<PieceView>>::empty()
        })
        + seq![tl("  - Run without --dry-run to apply evolution"@)]
}

/// The recommendations a dry run shows for a plan.
pub fn dry_run_lines(plan: &EvolvePlan) -> (r: Vec<Line>)
    ensures
        lines_view(r@) == dry_run_text(plan.failures@.len(), plan.suggestions@.len()),
{
    let mut lines: Vec<Line> = Vec::new();
    push_text(&mut lines, String::new());
    push_text(&mut lines, String::from_str("(dry run \u{2014} no changes applied)"));
    push_text(&mut lines, String::new());
    push_text(&mut lines, String::from_str("Recommended actions:"));
    if plan.failures.len() > 0 {
        let mut l = String::from_str("  - Add gotchas section addressing ");
        l.append(count_text(plan.failures.len() as u64).as_str());
        l.append(" failure(s)");
        push_text(&mut lines, l);
    }
    if plan.suggestions.len() > 0 {
        let mut l = String::from_str("  - Incorporate ");
        l.append(count_text(plan.suggestions.len() as u64).as_str());
        l.append(" suggestion(s) into SKILL.md");
        push_text(&mut lines, l);
    }
    push_text(&mut lines, String::from_str("  - Run without --dry-run to apply evolution"));
    assert(lines_view(lines@) =~= dry_run_text(plan.failures@.len(), plan.suggestions@.len()));
    lines
}

/// What evolving does once its plan is known.
pub enum EvolveAction {
    /// No observations wait: nothing to evolve, the store and the file stay as they are.
    Nothing,
    /// A dry run: show the recommendations, change nothing.
    Preview,
    /// Rewrite the skill file and record the evolution.
    Apply,
}

/// The action for a plan with `pending` unconsumed observations.
pub open spec fn spec_evolve_action(pending: nat, dry_run: bool) -> EvolveAction {
    if pending == 0 {
        EvolveAction::Nothing
    } else if dry_run {
        EvolveAction::Preview
    } else {
        EvolveAction::Apply
    }
}

/// Decides what evolving does: nothing without pending observations, a preview on a dry
/// run, otherwise the evolution.
pub fn evolve_action(plan: &EvolvePlan, dry_run: bool) -> (r: EvolveAction)
    ensures
        r == spec_evolve_action(plan.observations@.len(), dry_run),
{
    if plan.observations.len() == 0 {
        EvolveAction::Nothing
    } else if dry_run {
        EvolveAction::Preview
    } else {
        EvolveAction::Apply
    }
}

/// Bullet lines: each item after `prefix`, ending with a line break.
pub open spec fn bullets(prefix: Seq<char>, items: Seq<Seq<char>>) -> Seq<char>
    decreases items.len(),
{
    if items.len() == 0 {
        Seq::empty()
    } else {
        bullets(prefix, items.drop_last()) + prefix + items.last() + "\n"@
    }
}

/// Skill content after evolution: a gotchas section listing failures, then suggestions,
/// appended when there is any of either.
pub open spec fn spec_evolved_content(current: Seq<char>, failures: Seq<Seq<char>>, suggestions: Seq<Seq<char>>) -> Seq<char> {
    if failures.len() > 0 || suggestions.len() > 0 {
        current + "\n\n## Gotchas (auto-evolved)\n\n"@ + bullets("- FAILURE: "@, failures)
            + bullets("- SUGGESTION: "@, suggestions)
    } else {
        current
    }
}

fn append_bullets(content: &mut String, prefix: &str, items: &Vec<String>)
    ensures
        final(content)@ == old(content)@ + bullets(prefix@, texts(items@)),
{
    let ghost c0 = content@;
    let mut i: usize = 0;
    while i < items.len()
        invariant
            i <= items.len(),
            content@ == c0 + bullets(prefix@, texts(items@.take(i as int))),
        decreases items.len() - i,
    {
        assert(texts(items@.take(i + 1)).drop_last() =~= texts(items@.take(i as int)));
        assert(texts(items@.take(i + 1)).last() == items@[i as int]@);
        content.append(prefix);
        content.append(items[i].as_str());
        content.append("\n");
        proof {
            let b = bullets(prefix@, texts(items@.take(i as int)));
            assert(c0 + b + prefix@ + items@[i as int]@ + "\n"@ =~= c0 + (b + prefix@ + items@[i as int]@ + "\n"@));
        }
        i = i + 1;
    }
    assert(items@.take(items.len() as int) =~= items@);
}

/// The skill content after evolution.
pub fn evolved_content(current: &str, failures: &Vec<String>, suggestions: &Vec<String>) -> (r: String)
    ensures
        r@ == spec_evolved_content(current@, texts(failures@), texts(suggestions@)),
{
    let mut content = current.to_owned();
    if failures.len() > 0 || suggestions.len() > 0 {
        content.append("\n\n## Gotchas (auto-evolved)\n\n");
        append_bullets(&mut content, "- FAILURE: ", failures);
        append_bullets(&mut content, "- SUGGESTION: ", suggestions);
    }
    content
}

/// The version description recorded for an evolution from `n` observations.
pub open spec fn evolution_description(n: nat) -> Seq<char> {
    "evolved from "@ + decimal(n) + " observations"@
}

/// What applying an evolution shows.
pub open spec fn evolution_summary(path: Seq<char>, version: nat, n: nat, failures: nat, suggestions: nat) -> Seq<Seq<PieceView>> {
    seq![
        tl(Seq::<char>::empty()),
        tl("Evolved "@ + path + " to v"@ + decimal(version)),
        tl("  processed "@ + decimal(n) + " observation(s)"@),
        tl("  "@ + decimal(failures) + " failure(s) added as gotchas"@),
        tl("  "@ + decimal(suggestions) + " suggestion(s) incorporated"@),
    ]
}

/// Records an evolution: the new content's hash as the next version of the skill, then
/// its observations consumed.
pub fn apply_evolution(db: &mut Database, skill_path: &str, plan: &EvolvePlan, new_content: &str) -> (r: Result<Vec<Line>, crate::db::DbError>)
    requires
        old(db)@.wf(),
        live_skill_at(old(db)@.rows, skill_path@) == Some(plan.skill),
        plan.skill.version < u32::MAX,
    ensures
        final(db)@.wf(),
        exists|ver_id: Seq<char>, now: Seq<char>, res: Result<bool, crate::db::DbError>, mid: crate::db::DbState|
            crate::db::is_v4_uuid_text(ver_id) && crate::db::is_utc_timestamp(now)
                && #[trigger] crate::db::update_content_effect(old(db)@, mid, res, ver_id, now,
                skill_path@, crate::hash::spec_content_hash(new_content@), evolution_description(plan.observations@.len()))
            && (res matches Err(e) ==> (r matches Err(x) && x == e
                && final(db)@ == mid))
            && (res is Ok ==> (r matches Ok(lines) && crate::db::consume_effect(mid, final(db)@, plan.skill.id@)
                && lines_view(lines@) == evolution_summary(skill_path@, (plan.skill.version + 1) as nat,
                    plan.observations@.len(), plan.failures@.len(), plan.suggestions@.len()))),
{
    let hash = crate::hash::content_hash(new_content);
    let mut desc = String::from_str("evolved from ");
    desc.append(count_text(plan.observations.len() as u64).as_str());
    desc.append(" observations");
    let res = db.update_skill_content(skill_path, hash.as_str(), desc.as_str());
    let ghost mid = db@;
    let ghost (wv, wn) = choose|v: Seq<char>, n: Seq<char>| crate::db::is_v4_uuid_text(v) && crate::db::is_utc_timestamp(n)
        && #[trigger] crate::db::update_content_effect(old(db)@, mid, res, v, n, skill_path@, hash@, desc@);
    assert(crate::db::update_content_effect(old(db)@, mid, res, wv, wn, skill_path@,
        crate::hash::spec_content_hash(new_content@), evolution_description(plan.observations@.len())));
    match res {
        Ok(_) => {},
        Err(e) => {
            assert(crate::db::is_v4_uuid_text(wv) && crate::db::is_utc_timestamp(wn));
            return Err(e);
        },
    }
    db.mark_observations_consumed(plan.skill.id.as_str());
    assert(crate::db::consume_effect(mid, db@, plan.skill.id@));
    let mut lines: Vec<Line> = Vec::new();
    push_text(&mut lines, String::new());
    let mut l = String::from_str("Evolved ");
    l.append(skill_path);
    l.append(" to v");
    l.append(count_text((plan.skill.version + 1) as u64).as_str());
    push_text(&mut lines, l);
    let mut l = String::from_str("  processed ");
    l.append(count_text(plan.observations.len() as u64).as_str());
    l.append(" observation(s)");
    push_text(&mut lines, l);
    let mut l = String::from_str("  ");
    l.append(count_text(plan.failures.len() as u64).as_str());
    l.append(" failure(s) added as gotchas");
    push_text(&mut lines, l);
    let mut l = String::from_str("  ");
    l.append(count_text(plan.suggestions.len() as u64).as_str());
    l.append(" suggestion(s) incorporated");
    push_text(&mut lines, l);
    assert(lines_view(lines@) =~= evolution_summary(skill_path@, (plan.skill.version + 1) as nat,
        plan.observations@.len(), plan.failures@.len(), plan.suggestions@.len()));
    Ok(lines)
}

/// The commit message for evolving a skill to `version + 1`.
pub fn evolve_commit_message(skill_path: &str, version: u32) -> (r: String)
    requires
        version < u32::MAX,
    ensures
        r@ == "grove: evolve "@ + skill_path@ + " (v"@ + decimal((version + 1) as nat) + ")"@,
{
    let mut m = String::from_str("grove: evolve ");
    m.append(skill_path);
    m.append(" (v");
    m.append(count_text((version + 1) as u64).as_str());
    m.append(")");
    m
}

} // verus!
