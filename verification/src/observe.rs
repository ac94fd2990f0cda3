//! Recording observations, and the health and statistics dashboards.
use vstd::prelude::*;
use vstd::string::StringExecFns;

use crate::db::{
    by_failure_rate_desc, by_path, by_usage_desc, counter_sum, used_filter, lemma_counter_sum_permutation, lemma_counter_sum_prefix, live_skills, observation_filter, Counter, Skill, STORE_MAX,
    counts_failure, insert_observation_effect, is_v4_uuid_text, live_skill_at,
    opt_str_text, Database, DbError, Observation,
};
use crate::error::{CommandError, GroveError};
use crate::order::{
    is_top_k,
    lemma_filter_permutation, lemma_lex_antisym, lemma_lex_total, lemma_lex_trans, lex_le, sort_by, sorted_by_le,
    take_prefix, text_le, total_preorder,
};
use crate::report::{count_text, left_aligned, lines_view, pad_right, push_line, push_text, tl, Line, Piece, PieceView};
use crate::text::{has_prefix, starts_with, chars_of};
use crate::text::decimal;

verus! {

/// An outcome that can be recorded.
pub open spec fn valid_outcome(o: Seq<char>) -> bool {
    o == "success"@ || o == "failure"@ || o == "partial"@
}

/// Checks an outcome.
pub fn check_outcome(outcome: &str) -> (r: Result<(), GroveError>)
    ensures
        r is Ok <==> valid_outcome(outcome@),
        r matches Err(e) ==> e matches GroveError::InvalidOutcome(o) && o@ == outcome@,
{
    let o = String::from_str(outcome);
    if o.eq(&String::from_str("success")) || o.eq(&String::from_str("failure")) || o.eq(&String::from_str("partial")) {
        Ok(())
    } else {
        Err(GroveError::InvalidOutcome(outcome.to_owned()))
    }
}

/// The unconsumed failed observations of skill `id`.
pub open spec fn unconsumed_failure_filter(id: Seq<char>) -> spec_fn(Observation) -> bool {
    |o: Observation| o.skill_id@ == id && !o.consumed && o.outcome@ == "failure"@
}

/// The number of unconsumed failures of skill `id`.
pub fn unconsumed_failures(db: &Database, skill_id: &String) -> (r: usize)
    ensures
        r == db@.observations.filter(unconsumed_failure_filter(skill_id@)).len(),
{
    let obs = db.all_observations();
    let ghost f = unconsumed_failure_filter(skill_id@);
    let failure = String::from_str("failure");
    let mut n: usize = 0;
    let mut i: usize = 0;
    while i < obs.len()
        invariant
            obs@ == db@.observations,
            f == unconsumed_failure_filter(skill_id@),
            failure@ == "failure"@,
            i <= obs.len(),
            n == obs@.take(i as int).filter(f).len(),
        decreases obs.len() - i,
    {
        assert(obs@.take(i + 1) =~= obs@.take(i as int).push(obs@[i as int]));
        proof {
            obs@.take(i as int).lemma_filter_push(obs@[i as int], f);
            obs@.take(i as int).lemma_filter_len(f);
        }
        let o = &obs[i];
        if o.skill_id.eq(skill_id) && !o.consumed && o.outcome.eq(&failure) {
            n = n + 1;
        }
        i = i + 1;
    }
    assert(obs@.take(obs.len() as int) =~= obs@);
    n
}

/// What recording shows: the outcome, the observation's short id, the new usage total,
/// and a hint to evolve once three or more failures wait.
pub open spec fn record_lines(path: Seq<char>, outcome: Seq<char>, id: Seq<char>, usage: nat, failures: nat) -> Seq<Seq<PieceView>> {
    seq![
        tl("Recorded ["@ + outcome + "] for "@ + path),
        tl("  observation: "@ + id.take(8)),
        tl("  total usage: "@ + decimal(usage)),
    ] + if counts_failure(outcome) && failures >= 3 {
        seq![
            tl(Seq::<char>::empty()),
            tl("  ! "@ + decimal(failures) + " failures accumulated \u{2014} consider running `grove evolve "@
                + path + "`"@),
        ]
    } else {
        Seq::<Seq<PieceView>>::empty()
    }
}

/// Records a use of the live skill at `skill_path` with an outcome (`success`, `failure`
/// or `partial`), and what was learned.
pub fn record(db: &mut Database, skill_path: &str, outcome: &str, context: Option<&str>, suggestion: Option<&str>)
    -> (r: Result<Vec<Line>, CommandError>)
    requires
        old(db)@.wf(),
    ensures
        final(db)@.wf(),
        !valid_outcome(outcome@) ==> (r matches Err(CommandError::Grove(GroveError::InvalidOutcome(o))) && o@ == outcome@ && final(db)@ == old(db)@),
        valid_outcome(outcome@) && live_skill_at(old(db)@.rows, skill_path@) is None
            ==> (r matches Err(CommandError::Grove(GroveError::SkillNotFound(p))) && p@ == skill_path@ && final(db)@ == old(db)@),
        valid_outcome(outcome@) ==> (live_skill_at(old(db)@.rows, skill_path@) matches Some(s) ==>
            exists|id: Seq<char>, now: Seq<char>, res: Result<String, DbError>|
                is_v4_uuid_text(id) && crate::db::is_utc_timestamp(now)
                && #[trigger] insert_observation_effect(old(db)@, final(db)@, res, id, now, s.id@,
                    outcome@, opt_str_text(context), opt_str_text(suggestion))
                && (res matches Err(e) ==> (r matches Err(CommandError::Store(x)) && x == e))
                && (res is Ok ==> (r matches Ok(lines) && lines_view(lines@) == record_lines(skill_path@, outcome@, id,
                    (s.usage_count + 1) as nat,
                    final(db)@.observations.filter(unconsumed_failure_filter(s.id@)).len())))),
{
    match check_outcome(outcome) {
        Ok(()) => {},
        Err(e) => { return Err(CommandError::Grove(e)); },
    }
    let skill = match db.get_skill_by_path(skill_path) {
        Some(s) => s,
        None => { return Err(CommandError::Grove(GroveError::SkillNotFound(skill_path.to_owned()))); },
    };
    let res = db.insert_observation(skill.id.as_str(), outcome, context, suggestion);
    let ghost (wid, wnow) = choose|i: Seq<char>, n: Seq<char>| is_v4_uuid_text(i) && crate::db::is_utc_timestamp(n)
        && #[trigger] insert_observation_effect(
        old(db)@, db@, res, i, n, skill.id@, outcome@, opt_str_text(context), opt_str_text(suggestion));
    let obs_id = match res {
        Ok(x) => x,
        Err(e) => { return Err(CommandError::Store(e)); },
    };
    let mut lines: Vec<Line> = Vec::new();
    let mut l = String::from_str("Recorded [");
    l.append(outcome);
    l.append("] for ");
    l.append(skill_path);
    push_text(&mut lines, l);
    let cs = crate::text::chars_of(obs_id.as_str());
    let short = crate::merge::slice_chars(&cs, 0, 8);
    assert(short@ =~= obs_id@.take(8));
    let mut l = String::from_str("  observation: ");
    crate::text::push_chars(&mut l, short.as_slice());
    push_text(&mut lines, l);
    let mut l = String::from_str("  total usage: ");
    l.append(count_text(skill.usage_count + 1).as_str());
    push_text(&mut lines, l);
    let is_failure = String::from_str(outcome).eq(&String::from_str("failure"));
    if is_failure {
        let n = unconsumed_failures(db, &skill.id);
        if n >= 3 {
            push_text(&mut lines, String::new());
            let mut l = String::from_str("  ! ");
            l.append(count_text(n as u64).as_str());
            l.append(" failures accumulated \u{2014} consider running `grove evolve ");
            l.append(skill_path);
            l.append("`");
            push_text(&mut lines, l);
        }
    }
    assert(lines_view(lines@) =~= record_lines(skill_path@, outcome@, wid, (skill.usage_count + 1) as nat,
        db@.observations.filter(unconsumed_failure_filter(skill.id@)).len()));
    Ok(lines)
}

/// Skills by usage, most used first; equal usage by path.
pub open spec fn by_usage_then_path() -> spec_fn(Skill, Skill) -> bool {
    |a: Skill, b: Skill| a.usage_count > b.usage_count
        || (a.usage_count == b.usage_count && lex_le(a.path@, b.path@))
}

/// The failure rate of `a` is above that of `b` (failures per use).
pub open spec fn rate_above(a: Skill, b: Skill) -> bool {
    a.failure_count * crate::db::rate_den(b) > b.failure_count * crate::db::rate_den(a)
}

/// The failure rates of `a` and `b` are equal.
pub open spec fn rate_same(a: Skill, b: Skill) -> bool {
    a.failure_count * crate::db::rate_den(b) == b.failure_count * crate::db::rate_den(a)
}

/// Skills by failure rate, highest first; equal rates by path.
pub open spec fn by_rate_then_path() -> spec_fn(Skill, Skill) -> bool {
    |a: Skill, b: Skill| rate_above(a, b) || (rate_same(a, b) && lex_le(a.path@, b.path@))
}

proof fn lemma_rate_order(fa: int, ua: int, fb: int, ub: int, fc: int, uc: int)
    by (nonlinear_arith)
    requires
        ua > 0,
        ub > 0,
        uc > 0,
        fa >= 0,
        fb >= 0,
        fc >= 0,
        fa * ub >= fb * ua,
        fb * uc >= fc * ub,
    ensures
        fa * uc >= fc * ua,
        (fa * ub > fb * ua || fb * uc > fc * ub) ==> fa * uc > fc * ua,
{
    assert(fa * ub * uc >= fb * ua * uc);
    assert(fb * uc * ua >= fc * ub * ua);
}

proof fn lemma_health_orders()
    ensures
        total_preorder(by_usage_then_path()),
        total_preorder(by_rate_then_path()),
{
    assert forall|a: Skill, b: Skill| #[trigger] by_usage_then_path()(a, b) || by_usage_then_path()(b, a) by {
        lemma_lex_total(a.path@, b.path@);
    }
    assert forall|a: Skill, b: Skill, c: Skill|
        #[trigger] by_usage_then_path()(a, b) && #[trigger] by_usage_then_path()(b, c) implies by_usage_then_path()(a, c) by {
        if a.usage_count == b.usage_count && b.usage_count == c.usage_count {
            lemma_lex_trans(a.path@, b.path@, c.path@);
        }
    }
    assert forall|a: Skill, b: Skill| #[trigger] by_rate_then_path()(a, b) || by_rate_then_path()(b, a) by {
        lemma_lex_total(a.path@, b.path@);
    }
    assert forall|a: Skill, b: Skill, c: Skill|
        #[trigger] by_rate_then_path()(a, b) && #[trigger] by_rate_then_path()(b, c) implies by_rate_then_path()(a, c) by {
        let (fa, ua) = (a.failure_count as int, crate::db::rate_den(a));
        let (fb, ub) = (b.failure_count as int, crate::db::rate_den(b));
        let (fc, uc) = (c.failure_count as int, crate::db::rate_den(c));
        lemma_rate_order(fa, ua, fb, ub, fc, uc);
        if rate_same(a, b) && rate_same(b, c) {
            lemma_lex_trans(a.path@, b.path@, c.path@);
        }
    }
}

fn usage_then_path_le(a: &Skill, b: &Skill) -> (r: bool)
    ensures
        r == by_usage_then_path()(*a, *b),
{
    a.usage_count > b.usage_count || (a.usage_count == b.usage_count && text_le(&a.path, &b.path))
}

fn rate_cross(a: &Skill, b: &Skill) -> (r: (u128, u128))
    ensures
        r.0 == a.failure_count * crate::db::rate_den(*b),
        r.1 == b.failure_count * crate::db::rate_den(*a),
{
    let da: u64 = if a.usage_count == 0 { 1 } else { a.usage_count };
    let db: u64 = if b.usage_count == 0 { 1 } else { b.usage_count };
    let fa = a.failure_count as u128;
    let fb = b.failure_count as u128;
    assert(fa * (db as u128) <= 0xffff_ffff_ffff_ffffu128 * 0xffff_ffff_ffff_ffffu128) by (nonlinear_arith)
        requires fa <= 0xffff_ffff_ffff_ffffu128, (db as u128) <= 0xffff_ffff_ffff_ffffu128;
    assert(fb * (da as u128) <= 0xffff_ffff_ffff_ffffu128 * 0xffff_ffff_ffff_ffffu128) by (nonlinear_arith)
        requires fb <= 0xffff_ffff_ffff_ffffu128, (da as u128) <= 0xffff_ffff_ffff_ffffu128;
    (fa * (db as u128), fb * (da as u128))
}

fn rate_then_path_le(a: &Skill, b: &Skill) -> (r: bool)
    ensures
        r == by_rate_then_path()(*a, *b),
{
    let (x, y) = rate_cross(a, b);
    x > y || (x == y && text_le(&a.path, &b.path))
}

/// The skills whose path starts with the subtree, or all of them.
pub open spec fn subtree_filter(subtree: Option<Seq<char>>) -> spec_fn(Skill) -> bool {
    |s: Skill| match subtree {
        Some(p) => has_prefix(s.path@, p),
        None => true,
    }
}

/// Used skills.
pub open spec fn used() -> spec_fn(Skill) -> bool {
    |s: Skill| s.usage_count > 0
}

/// Used skills that have failed.
pub open spec fn failing() -> spec_fn(Skill) -> bool {
    |s: Skill| s.usage_count > 0 && s.failure_count > 0
}

/// Skills never used.
pub open spec fn unused() -> spec_fn(Skill) -> bool {
    |s: Skill| s.usage_count == 0
}

/// The number of unconsumed observations of a skill.
pub open spec fn pending_count(obs: Seq<Observation>, s: Skill) -> nat {
    obs.filter(observation_filter(s.id@, true)).len()
}

/// A line of a most-used entry.
pub open spec fn most_used_line(s: Skill) -> Seq<PieceView> {
    seq![
        PieceView::Text("    "@ + pad_right(s.path@, 25) + " "@ + decimal(s.usage_count as nat) + "x  ("@),
        PieceView::Percent(s.success_count, s.usage_count),
        PieceView::Text("% success)"@),
    ]
}

/// A line of a struggling entry.
pub open spec fn struggling_line(s: Skill) -> Seq<PieceView> {
    seq![
        PieceView::Text("    "@ + pad_right(s.path@, 25) + " "@),
        PieceView::Percent(s.failure_count, s.usage_count),
        PieceView::Text("% failure ("@ + decimal(s.failure_count as nat) + "/"@ + decimal(s.usage_count as nat) + ")"@),
    ]
}

/// Lines built by `f` for each skill.
pub open spec fn each_line(ss: Seq<Skill>, f: spec_fn(Skill) -> Seq<PieceView>) -> Seq<Seq<PieceView>>
    decreases ss.len(),
{
    if ss.len() == 0 {
        Seq::empty()
    } else {
        each_line(ss.drop_last(), f).push(f(ss.last()))
    }
}

/// Pending-evolution lines for the skills with unconsumed observations.
pub open spec fn pending_lines(ss: Seq<Skill>, obs: Seq<Observation>) -> Seq<Seq<PieceView>>
    decreases ss.len(),
{
    if ss.len() == 0 {
        Seq::empty()
    } else {
        let s = ss.last();
        pending_lines(ss.drop_last(), obs) + if pending_count(obs, s) > 0 {
            seq![tl("    "@ + pad_right(s.path@, 25) + " "@ + decimal(pending_count(obs, s)) + " observation(s) to process"@)]
        } else {
            Seq::<Seq<PieceView>>::empty()
        }
    }
}

/// A titled block of lines, or nothing when there are no lines.
pub open spec fn block(title: Seq<char>, body: Seq<Seq<PieceView>>) -> Seq<Seq<PieceView>> {
    if body.len() == 0 {
        Seq::empty()
    } else {
        seq![tl(title)] + body + seq![tl(Seq::<char>::empty())]
    }
}

/// The health dashboard of the skills `f` (in path order), given the most used
/// (`top`, sorted) and the failing ones (`bad`, sorted).
pub open spec fn health_lines(f: Seq<Skill>, top: Seq<Skill>, bad: Seq<Skill>, obs: Seq<Observation>) -> Seq<Seq<PieceView>> {
    if f.len() == 0 {
        seq![tl("No skills found."@)]
    } else {
        health_totals(f)
            + block("  Most used:"@, each_line(top.take(if top.len() < 5 { top.len() as int } else { 5 }), |s: Skill| most_used_line(s)))
            + block("  Needs evolution (high failure rate):"@, each_line(bad.take(if bad.len() < 5 { bad.len() as int } else { 5 }), |s: Skill| struggling_line(s)))
            + never_used_block(f.filter(unused()))
            + block("  Pending evolution:"@, pending_lines(f, obs))
    }
}

/// The live skills in the subtree, in path order.
pub open spec fn health_skills(rows: Seq<crate::db::SkillRow>, subtree: Option<Seq<char>>) -> Seq<Skill> {
    live_skills(rows).filter(subtree_filter(subtree))
}

/// The sums the health dashboard shows fit in 64 bits.
pub open spec fn health_totals_fit(rows: Seq<crate::db::SkillRow>, subtree: Option<Seq<char>>) -> bool {
    &&& counter_sum(Counter::Usage, health_skills(rows, subtree)) <= u64::MAX
    &&& counter_sum(Counter::Success, health_skills(rows, subtree)) <= u64::MAX
    &&& counter_sum(Counter::Failure, health_skills(rows, subtree)) <= u64::MAX
}

/// The skills of `v` that satisfy `pred`, in order.
pub fn filter_skills<F: Fn(&Skill) -> bool>(v: &Vec<Skill>, pred: F, Ghost(p): Ghost<spec_fn(Skill) -> bool>) -> (r: Vec<Skill>)
    requires
        forall|a: &Skill| #[trigger] pred.requires((a,)),
        forall|a: &Skill, x: bool| #[trigger] pred.ensures((a,), x) ==> x == p(*a),
    ensures
        r@ == v@.filter(p),
{
    let mut r: Vec<Skill> = Vec::new();
    let mut i: usize = 0;
    while i < v.len()
        invariant
            forall|a: &Skill| #[trigger] pred.requires((a,)),
            forall|a: &Skill, x: bool| #[trigger] pred.ensures((a,), x) ==> x == p(*a),
            i <= v.len(),
            r@ == v@.take(i as int).filter(p),
        decreases v.len() - i,
    {
        assert(v@.take(i + 1) =~= v@.take(i as int).push(v@[i as int]));
        proof { v@.take(i as int).lemma_filter_push(v@[i as int], p); }
        if pred(&v[i]) {
            r.push(v[i].duplicate());
        }
        i = i + 1;
    }
    assert(v@.take(v.len() as int) =~= v@);
    r
}

fn push_each<F: Fn(&Skill) -> Line>(lines: &mut Vec<Line>, ss: &Vec<Skill>, k: usize, f: F, Ghost(sf): Ghost<spec_fn(Skill) -> Seq<PieceView>>)
    requires
        k <= ss@.len(),
        forall|a: &Skill| #[trigger] f.requires((a,)),
        forall|a: &Skill, l: Line| #[trigger] f.ensures((a,), l) ==> l@ == sf(*a),
    ensures
        lines_view(final(lines)@) == lines_view(old(lines)@) + each_line(ss@.take(k as int), sf),
{
    let ghost start = lines_view(lines@);
    let mut i: usize = 0;
    while i < k
        invariant
            k <= ss@.len(),
            forall|a: &Skill| #[trigger] f.requires((a,)),
            forall|a: &Skill, l: Line| #[trigger] f.ensures((a,), l) ==> l@ == sf(*a),
            i <= k,
            lines_view(lines@) == start + each_line(ss@.take(i as int), sf),
        decreases k - i,
    {
        assert(ss@.take(i + 1).drop_last() =~= ss@.take(i as int));
        assert(ss@.take(i + 1).last() == ss@[i as int]);
        let l = f(&ss[i]);
        push_line(lines, l);
        i = i + 1;
    }
}

fn most_used_entry(s: &Skill) -> (r: Line)
    ensures
        r@ == most_used_line(*s),
{
    let mut head = String::from_str("    ");
    head.append(left_aligned(s.path.as_str(), 25).as_str());
    head.append(" ");
    head.append(count_text(s.usage_count).as_str());
    head.append("x  (");
    crate::report::rate_line(head, s.success_count, s.usage_count, String::from_str("% success)"))
}

fn struggling_entry(s: &Skill) -> (r: Line)
    ensures
        r@ == struggling_line(*s),
{
    let mut head = String::from_str("    ");
    head.append(left_aligned(s.path.as_str(), 25).as_str());
    head.append(" ");
    let mut tail = String::from_str("% failure (");
    tail.append(count_text(s.failure_count).as_str());
    tail.append("/");
    tail.append(count_text(s.usage_count).as_str());
    tail.append(")");
    crate::report::rate_line(head, s.failure_count, s.usage_count, tail)
}

fn path_entry(s: &Skill) -> (r: Line)
    ensures
        r@ == tl("    "@ + s.path@),
{
    let mut l = String::from_str("    ");
    l.append(s.path.as_str());
    crate::report::text_line(l)
}

fn min_len(n: usize, k: usize) -> (r: usize)
    ensures
        r == (if n < k { n } else { k }),
{
    if n < k { n } else { k }
}

fn sum_counter(v: &Vec<Skill>, c: Counter) -> (r: u64)
    requires
        counter_sum(c, v@) <= u64::MAX,
    ensures
        r == counter_sum(c, v@),
{
    let mut acc: u64 = 0;
    let mut i: usize = 0;
    while i < v.len()
        invariant
            counter_sum(c, v@) <= u64::MAX,
            i <= v.len(),
            acc == counter_sum(c, v@.take(i as int)),
        decreases v.len() - i,
    {
        assert(v@.take(i + 1).drop_last() =~= v@.take(i as int));
        proof { lemma_counter_sum_prefix(c, v@, i + 1); }
        let x: u64 = match c {
            Counter::Usage => v[i].usage_count,
            Counter::Success => v[i].success_count,
            Counter::Failure => v[i].failure_count,
        };
        acc = acc + x;
        i = i + 1;
    }
    assert(v@.take(v.len() as int) =~= v@);
    acc
}

/// Appends lines.
pub fn append_lines(lines: &mut Vec<Line>, more: Vec<Line>)
    ensures
        lines_view(final(lines)@) == lines_view(old(lines)@) + lines_view(more@),
{
    let ghost before = lines_view(lines@);
    let mut more = more;
    let ghost mv = lines_view(more@);
    lines.append(&mut more);
    assert(lines_view(lines@) =~= before + mv);
}

/// The totals part of the dashboard.
pub open spec fn health_totals(f: Seq<Skill>) -> Seq<Seq<PieceView>> {
    let tu = counter_sum(Counter::Usage, f);
    let ts = counter_sum(Counter::Success, f);
    let tf = counter_sum(Counter::Failure, f);
    seq![
        tl("--- Grove Health ---"@),
        tl(Seq::<char>::empty()),
        tl("  Skills:   "@ + decimal(f.len())),
        tl("  Usage:    "@ + decimal(tu)),
    ] + (if tu > 0 {
        seq![
            seq![PieceView::Text("  Success:  "@ + decimal(ts) + " ("@), PieceView::Percent(ts as u64, tu as u64),
                PieceView::Text("%)"@)],
            tl("  Failure:  "@ + decimal(tf)),
        ]
    } else {
        Seq::<Seq<PieceView>>::empty()
    }) + seq![tl(Seq::<char>::empty())]
}

/// The never-used part of the dashboard.
pub open spec fn never_used_block(nu: Seq<Skill>) -> Seq<Seq<PieceView>> {
    if nu.len() > 0 {
        seq![tl("  Never used ("@ + decimal(nu.len()) + "):"@)]
            + each_line(nu.take(if nu.len() < 10 { nu.len() as int } else { 10 }), |s: Skill| tl("    "@ + s.path@))
            + (if nu.len() > 10 { seq![tl("    ... and "@ + decimal((nu.len() - 10) as nat) + " more"@)] } else { Seq::<Seq<PieceView>>::empty() })
            + seq![tl(Seq::<char>::empty())]
    } else {
        Seq::<Seq<PieceView>>::empty()
    }
}

fn totals_lines(filtered: &Vec<Skill>) -> (r: Vec<Line>)
    requires
        counter_sum(Counter::Usage, filtered@) <= u64::MAX,
        counter_sum(Counter::Success, filtered@) <= u64::MAX,
        counter_sum(Counter::Failure, filtered@) <= u64::MAX,
    ensures
        lines_view(r@) == health_totals(filtered@),
{
    let tu = sum_counter(filtered, Counter::Usage);
    let ts = sum_counter(filtered, Counter::Success);
    let tf = sum_counter(filtered, Counter::Failure);
    let mut lines: Vec<Line> = Vec::new();
    push_text(&mut lines, String::from_str("--- Grove Health ---"));
    push_text(&mut lines, String::new());
    let mut l = String::from_str("  Skills:   ");
    l.append(count_text(filtered.len() as u64).as_str());
    push_text(&mut lines, l);
    let mut l = String::from_str("  Usage:    ");
    l.append(count_text(tu).as_str());
    push_text(&mut lines, l);
    if tu > 0 {
        let mut head = String::from_str("  Success:  ");
        head.append(count_text(ts).as_str());
        head.append(" (");
        let rl = crate::report::rate_line(head, ts, tu, String::from_str("%)"));
        push_line(&mut lines, rl);
        let mut l = String::from_str("  Failure:  ");
        l.append(count_text(tf).as_str());
        push_text(&mut lines, l);
    }
    push_text(&mut lines, String::new());
    assert(lines_view(lines@) =~= health_totals(filtered@));
    lines
}

fn most_used_lines(top: &Vec<Skill>) -> (r: Vec<Line>)
    ensures
        lines_view(r@) == block("  Most used:"@, each_line(top@.take(if top@.len() < 5 { top@.len() as int } else { 5 }), |s: Skill| most_used_line(s))),
{
    let mut lines: Vec<Line> = Vec::new();
    if top.len() > 0 {
        push_text(&mut lines, String::from_str("  Most used:"));
        let k = min_len(top.len(), 5);
        push_each(&mut lines, top, k, |s: &Skill| -> (l: Line) ensures l@ == most_used_line(*s) { most_used_entry(s) }, Ghost(|s: Skill| most_used_line(s)));
        push_text(&mut lines, String::new());
    }
    lines
}

fn struggling_lines(bad: &Vec<Skill>) -> (r: Vec<Line>)
    ensures
        lines_view(r@) == block("  Needs evolution (high failure rate):"@, each_line(bad@.take(if bad@.len() < 5 { bad@.len() as int } else { 5 }), |s: Skill| struggling_line(s))),
{
    let mut lines: Vec<Line> = Vec::new();
    if bad.len() > 0 {
        push_text(&mut lines, String::from_str("  Needs evolution (high failure rate):"));
        let k = min_len(bad.len(), 5);
        push_each(&mut lines, bad, k, |s: &Skill| -> (l: Line) ensures l@ == struggling_line(*s) { struggling_entry(s) }, Ghost(|s: Skill| struggling_line(s)));
        push_text(&mut lines, String::new());
    }
    lines
}

fn never_used_lines(never: &Vec<Skill>) -> (r: Vec<Line>)
    ensures
        lines_view(r@) == never_used_block(never@),
{
    let mut lines: Vec<Line> = Vec::new();
    if never.len() > 0 {
        let mut l = String::from_str("  Never used (");
        l.append(count_text(never.len() as u64).as_str());
        l.append("):");
        push_text(&mut lines, l);
        let k = min_len(never.len(), 10);
        push_each(&mut lines, never, k, |s: &Skill| -> (l: Line) ensures l@ == tl("    "@ + s.path@) { path_entry(s) }, Ghost(|s: Skill| tl("    "@ + s.path@)));
        if never.len() > 10 {
            let mut l = String::from_str("    ... and ");
            l.append(count_text((never.len() - 10) as u64).as_str());
            l.append(" more");
            push_text(&mut lines, l);
        }
        push_text(&mut lines, String::new());
    }
    assert(lines_view(lines@) =~= never_used_block(never@));
    lines
}

fn pending_evolution_lines(db: &Database, filtered: &Vec<Skill>) -> (r: Vec<Line>)
    requires
        db@.wf(),
    ensures
        lines_view(r@) == block("  Pending evolution:"@, pending_lines(filtered@, db@.observations)),
{
    let ghost fv = filtered@;
    let mut pend: Vec<Line> = Vec::new();
    let mut i: usize = 0;
    while i < filtered.len()
        invariant
            fv == filtered@,
            db@.wf(),
            i <= filtered.len(),
            lines_view(pend@) == pending_lines(fv.take(i as int), db@.observations),
        decreases filtered.len() - i,
    {
        assert(fv.take(i + 1).drop_last() =~= fv.take(i as int));
        assert(fv.take(i + 1).last() == fv[i as int]);
        let s = &filtered[i];
        let obs = db.get_observations(s.id.as_str(), true);
        proof {
            broadcast use vstd::seq_lib::group_to_multiset_ensures;
            assert(obs@.len() == obs@.to_multiset().len());
            assert(db@.observations.filter(observation_filter(s.id@, true)).len()
                == db@.observations.filter(observation_filter(s.id@, true)).to_multiset().len());
        }
        if obs.len() > 0 {
            let mut l = String::from_str("    ");
            l.append(left_aligned(s.path.as_str(), 25).as_str());
            l.append(" ");
            l.append(count_text(obs.len() as u64).as_str());
            l.append(" observation(s) to process");
            push_text(&mut pend, l);
        }
        i = i + 1;
    }
    assert(fv.take(fv.len() as int) =~= fv);
    let mut lines: Vec<Line> = Vec::new();
    if pend.len() > 0 {
        push_text(&mut lines, String::from_str("  Pending evolution:"));
        append_lines(&mut lines, pend);
        push_text(&mut lines, String::new());
    }
    assert(lines_view(lines@) =~= block("  Pending evolution:"@, pending_lines(filtered@, db@.observations)));
    lines
}

fn subtree_skills(skills: &Vec<Skill>, subtree: Option<&str>) -> (r: Vec<Skill>)
    ensures
        r@ == skills@.filter(subtree_filter(opt_str_text(subtree))),
{
    let ghost sf = subtree_filter(opt_str_text(subtree));
    match subtree {
        Some(prefix) => {
            let pc = chars_of(prefix);
            filter_skills(skills, |s: &Skill| -> (b: bool) ensures b == subtree_filter(opt_str_text(subtree))(*s) {
                let sc = chars_of(s.path.as_str());
                starts_with(&sc, &pc)
            }, Ghost(sf))
        },
        None => {
            filter_skills(skills, |s: &Skill| -> (b: bool) ensures b == subtree_filter(opt_str_text(subtree))(*s) {
                true
            }, Ghost(sf))
        },
    }
}

/// The health dashboard of the live skills in a subtree (all of them without one): totals,
/// the five most used, the five with the highest failure rate, those never used and those
/// with observations waiting.
pub fn health(db: &Database, subtree: Option<&str>) -> (r: Vec<Line>)
    requires
        db@.wf(),
        health_totals_fit(db@.rows, opt_str_text(subtree)),
    ensures
        exists|l: Seq<Skill>, t: Seq<Skill>, b: Seq<Skill>|
            #![trigger l.to_multiset(), t.to_multiset(), b.to_multiset()]
            sorted_by_le(l, by_path()) && l.to_multiset() == live_skills(db@.rows).to_multiset()
            && sorted_by_le(t, by_usage_then_path())
            && t.to_multiset() == l.filter(subtree_filter(opt_str_text(subtree))).filter(used()).to_multiset()
            && sorted_by_le(b, by_rate_then_path())
            && b.to_multiset() == l.filter(subtree_filter(opt_str_text(subtree))).filter(failing()).to_multiset()
            && lines_view(r@) == health_lines(l.filter(subtree_filter(opt_str_text(subtree))), t, b, db@.observations),
{
    proof { lemma_health_orders(); }
    let skills = db.list_skills();
    let ghost sf = subtree_filter(opt_str_text(subtree));
    let filtered = subtree_skills(&skills, subtree);
    let ghost fv = filtered@;
    let used_list = filter_skills(&filtered, |s: &Skill| -> (b: bool) ensures b == used()(*s) { s.usage_count > 0 }, Ghost(used()));
    let top = sort_by(used_list, |a: &Skill, b: &Skill| -> (r: bool) ensures r == by_usage_then_path()(*a, *b) { usage_then_path_le(a, b) }, Ghost(by_usage_then_path()));
    let failing_list = filter_skills(&filtered, |s: &Skill| -> (b: bool) ensures b == failing()(*s) { s.usage_count > 0 && s.failure_count > 0 }, Ghost(failing()));
    let bad = sort_by(failing_list, |a: &Skill, b: &Skill| -> (r: bool) ensures r == by_rate_then_path()(*a, *b) { rate_then_path_le(a, b) }, Ghost(by_rate_then_path()));
    let ghost (tv, bv) = (top@, bad@);
    let mut lines: Vec<Line> = Vec::new();
    if filtered.len() == 0 {
        push_text(&mut lines, String::from_str("No skills found."));
        assert(lines_view(lines@) =~= health_lines(fv, tv, bv, db@.observations));
        return lines;
    }
    proof {
        lemma_filter_permutation(skills@, live_skills(db@.rows), sf);
        lemma_counter_sum_permutation(Counter::Usage, fv, live_skills(db@.rows).filter(sf));
        lemma_counter_sum_permutation(Counter::Success, fv, live_skills(db@.rows).filter(sf));
        lemma_counter_sum_permutation(Counter::Failure, fv, live_skills(db@.rows).filter(sf));
    }
    let part = totals_lines(&filtered);
    append_lines(&mut lines, part);
    let part = most_used_lines(&top);
    append_lines(&mut lines, part);
    let part = struggling_lines(&bad);
    append_lines(&mut lines, part);
    let never = filter_skills(&filtered, |s: &Skill| -> (b: bool) ensures b == unused()(*s) { s.usage_count == 0 }, Ghost(unused()));
    let part = never_used_lines(&never);
    append_lines(&mut lines, part);
    let part = pending_evolution_lines(db, &filtered);
    append_lines(&mut lines, part);
    assert(lines_view(lines@) =~= health_lines(fv, tv, bv, db@.observations));
    lines
}

/// A line of the top-skills list.
pub open spec fn top_line(s: Skill) -> Seq<PieceView> {
    tl("    "@ + pad_right(s.path@, 25) + " "@ + decimal(s.usage_count as nat) + "x (v"@ + decimal(s.version as nat) + ")"@)
}

/// A line of the needs-attention list.
pub open spec fn attention_line(s: Skill) -> Seq<PieceView> {
    seq![
        PieceView::Text("    "@ + pad_right(s.path@, 25) + " "@),
        PieceView::Percent(s.failure_count, s.usage_count),
        PieceView::Text("% failure rate"@),
    ]
}

/// Skills that have failed.
pub open spec fn has_failures() -> spec_fn(Skill) -> bool {
    |s: Skill| s.failure_count > 0
}

/// The counts and totals of the statistics overview.
pub open spec fn stats_head(sc: nat, oc: nat, tu: nat, ts: nat, tf: nat) -> Seq<Seq<PieceView>> {
    seq![
        tl("--- Grove Stats ---"@),
        tl(Seq::<char>::empty()),
        tl("  Skills:       "@ + decimal(sc)),
        tl("  Observations: "@ + decimal(oc)),
        tl("  Total usage:  "@ + decimal(tu)),
    ] + (if tu > 0 {
        seq![
            seq![PieceView::Text("  Success rate: "@), PieceView::Percent(ts as u64, tu as u64),
                PieceView::Text("% ("@ + decimal(ts) + "/"@ + decimal(tu) + ")"@)],
            tl("  Failures:     "@ + decimal(tf)),
        ]
    } else {
        Seq::<Seq<PieceView>>::empty()
    }) + seq![tl(Seq::<char>::empty())]
}

/// The skill lists of the statistics overview: the used ones among the top skills, and
/// those among the highest failure rates that have failed.
pub open spec fn stats_skill_lines(top: Seq<Skill>, bad: Seq<Skill>) -> Seq<Seq<PieceView>> {
    (if top.len() > 0 {
        seq![tl("  Top skills by usage:"@)] + each_line(top.filter(used()), |s: Skill| top_line(s)) + seq![tl(Seq::<char>::empty())]
    } else {
        Seq::<Seq<PieceView>>::empty()
    })
        + (if bad.filter(has_failures()).len() > 0 {
            seq![tl("  Needs attention:"@)] + each_line(bad.filter(has_failures()), |s: Skill| attention_line(s))
        } else {
            Seq::<Seq<PieceView>>::empty()
        })
}

/// The statistics overview, given the counts and totals, the top skills by usage and the
/// used skills with the highest failure rate.
pub open spec fn stats_lines(sc: nat, oc: nat, tu: nat, ts: nat, tf: nat, top: Seq<Skill>, bad: Seq<Skill>) -> Seq<Seq<PieceView>> {
    stats_head(sc, oc, tu, ts, tf) + stats_skill_lines(top, bad)
}

fn top_entry(s: &Skill) -> (r: Line)
    ensures
        r@ == top_line(*s),
{
    let mut l = String::from_str("    ");
    l.append(left_aligned(s.path.as_str(), 25).as_str());
    l.append(" ");
    l.append(count_text(s.usage_count).as_str());
    l.append("x (v");
    l.append(count_text(s.version as u64).as_str());
    l.append(")");
    crate::report::text_line(l)
}

fn attention_entry(s: &Skill) -> (r: Line)
    ensures
        r@ == attention_line(*s),
{
    let mut head = String::from_str("    ");
    head.append(left_aligned(s.path.as_str(), 25).as_str());
    head.append(" ");
    crate::report::rate_line(head, s.failure_count, s.usage_count, String::from_str("% failure rate"))
}

fn stats_head_lines(sc: u64, oc: u64, tu: u64, ts: u64, tf: u64) -> (r: Vec<Line>)
    ensures
        lines_view(r@) == stats_head(sc as nat, oc as nat, tu as nat, ts as nat, tf as nat),
{
    let mut lines: Vec<Line> = Vec::new();
    push_text(&mut lines, String::from_str("--- Grove Stats ---"));
    push_text(&mut lines, String::new());
    let mut l = String::from_str("  Skills:       ");
    l.append(count_text(sc).as_str());
    push_text(&mut lines, l);
    let mut l = String::from_str("  Observations: ");
    l.append(count_text(oc).as_str());
    push_text(&mut lines, l);
    let mut l = String::from_str("  Total usage:  ");
    l.append(count_text(tu).as_str());
    push_text(&mut lines, l);
    if tu > 0 {
        let mut tail = String::from_str("% (");
        tail.append(count_text(ts).as_str());
        tail.append("/");
        tail.append(count_text(tu).as_str());
        tail.append(")");
        let rl = crate::report::rate_line(String::from_str("  Success rate: "), ts, tu, tail);
        push_line(&mut lines, rl);
        let mut l = String::from_str("  Failures:     ");
        l.append(count_text(tf).as_str());
        push_text(&mut lines, l);
    }
    push_text(&mut lines, String::new());
    assert(lines_view(lines@) =~= stats_head(sc as nat, oc as nat, tu as nat, ts as nat, tf as nat));
    lines
}

fn stats_skill_entries(top: &Vec<Skill>, bad: &Vec<Skill>) -> (r: Vec<Line>)
    ensures
        lines_view(r@) == stats_skill_lines(top@, bad@),
{
    let mut lines: Vec<Line> = Vec::new();
    if top.len() > 0 {
        push_text(&mut lines, String::from_str("  Top skills by usage:"));
        let shown = filter_skills(top, |s: &Skill| -> (b: bool) ensures b == used()(*s) { s.usage_count > 0 }, Ghost(used()));
        push_each(&mut lines, &shown, shown.len(), |s: &Skill| -> (l: Line) ensures l@ == top_line(*s) { top_entry(s) }, Ghost(|s: Skill| top_line(s)));
        assert(shown@.take(shown@.len() as int) =~= shown@);
        push_text(&mut lines, String::new());
    }
    let needing = filter_skills(bad, |s: &Skill| -> (b: bool) ensures b == has_failures()(*s) { s.failure_count > 0 }, Ghost(has_failures()));
    if needing.len() > 0 {
        push_text(&mut lines, String::from_str("  Needs attention:"));
        push_each(&mut lines, &needing, needing.len(), |s: &Skill| -> (l: Line) ensures l@ == attention_line(*s) { attention_entry(s) }, Ghost(|s: Skill| attention_line(s)));
        assert(needing@.take(needing@.len() as int) =~= needing@);
    }
    assert(lines_view(lines@) =~= stats_skill_lines(top@, bad@));
    lines
}

/// The statistics overview: counts, totals, the five most used skills and the three with
/// the highest failure rate. Refused when a total exceeds the largest storable value.
pub fn stats(db: &Database) -> (r: Result<Vec<Line>, DbError>)
    requires
        db@.wf(),
    ensures
        counter_sum(Counter::Usage, live_skills(db@.rows)) > STORE_MAX
            || counter_sum(Counter::Success, live_skills(db@.rows)) > STORE_MAX
            || counter_sum(Counter::Failure, live_skills(db@.rows)) > STORE_MAX
            ==> (r matches Err(DbError::SumOverflow)),
        r matches Err(e) ==> e is SumOverflow,
        r is Ok <==> (counter_sum(Counter::Usage, live_skills(db@.rows)) <= STORE_MAX
            && counter_sum(Counter::Success, live_skills(db@.rows)) <= STORE_MAX
            && counter_sum(Counter::Failure, live_skills(db@.rows)) <= STORE_MAX),
        r is Ok ==> exists|top: Seq<Skill>, bad: Seq<Skill>| #![trigger is_top_k(top, live_skills(db@.rows), by_usage_desc(), 5), is_top_k(bad, live_skills(db@.rows).filter(used_filter()), by_failure_rate_desc(), 3)]
            is_top_k(top, live_skills(db@.rows), by_usage_desc(), 5)
            && is_top_k(bad, live_skills(db@.rows).filter(used_filter()), by_failure_rate_desc(), 3)
            && (r matches Ok(lines) && lines_view(lines@) == stats_lines(live_skills(db@.rows).len(), db@.observations.len(),
                counter_sum(Counter::Usage, live_skills(db@.rows)), counter_sum(Counter::Success, live_skills(db@.rows)),
                counter_sum(Counter::Failure, live_skills(db@.rows)), top, bad)),
{
    let sc = db.skill_count();
    let oc = db.observation_count();
    let tu = match db.total_usage() {
        Ok(n) => n,
        Err(e) => { return Err(e); },
    };
    let ts = match db.total_successes() {
        Ok(n) => n,
        Err(e) => { return Err(e); },
    };
    let tf = match db.total_failures() {
        Ok(n) => n,
        Err(e) => { return Err(e); },
    };
    let mut lines = stats_head_lines(sc, oc, tu, ts, tf);
    let top = db.top_skills(5);
    let bad = db.struggling_skills(3);
    let more = stats_skill_entries(&top, &bad);
    append_lines(&mut lines, more);
    assert(crate::db::query_limit(5) == 5) by (bit_vector);
    assert(crate::db::query_limit(3) == 3) by (bit_vector);
    Ok(lines)
}

} // verus!
