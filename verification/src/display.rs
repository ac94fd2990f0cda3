//! The skill list and the ASCII skill tree.
use vstd::prelude::*;
use vstd::string::{StringExecFns, StringSliceAdditionalSpecFns};
use vstd::utf8::encode_utf8;

use crate::db::{by_path, live_skills, Database, Skill};
use crate::observe::append_lines;
use crate::order::sorted_by_le;
use crate::report::{
    byte_prefix, byte_prefix_text, count_text, left_aligned, lines_view, pad_left, pad_right, push_line, push_text,
    right_aligned, tl, Line, Piece, PieceView,
};
use crate::text::decimal;
use crate::order::{lemma_push_contains, lemma_lex_antisym, lemma_lex_total, lemma_lex_trans, lex_le, sort_by, text_le, total_preorder};
use crate::tree::{parent_path, parent_path_of, prefix_ok, last_segment, skill_name_of, texts};

verus! {

/// The message shown for a grove without skills.
pub open spec fn empty_grove_text() -> Seq<char> {
    "(empty grove \u{2014} run `grove grow <path>` to plant skills)"@
}

/// The description column: `(no description)` when empty; cut to its first 27 bytes and
/// `...` when longer than 30 bytes.
pub open spec fn description_cell(d: Seq<char>) -> Seq<char> {
    if encode_utf8(d).len() > 30 {
        byte_prefix_text(d, 27) + "..."@
    } else if d.len() == 0 {
        "(no description)"@
    } else {
        d
    }
}

/// A line of the flat list.
pub open spec fn flat_line(s: Skill) -> Seq<PieceView> {
    tl(pad_right(s.path@, 30) + " v"@ + pad_right(decimal(s.version as nat), 3) + " "@
        + pad_left(decimal(s.usage_count as nat), 4) + "x  "@
        + (if s.description@.len() == 0 { "(no description)"@ } else { s.description@ }))
}

/// A row of the table.
pub open spec fn table_line(s: Skill) -> Seq<PieceView> {
    seq![
        PieceView::Text(pad_right(s.path@, 30) + " "@ + pad_left("v"@ + decimal(s.version as nat), 5) + " "@
            + pad_left(decimal(s.usage_count as nat), 6) + " "@),
        if s.usage_count > 0 {
            PieceView::PercentCell(s.success_count, s.usage_count, 5)
        } else {
            PieceView::Text(pad_left("-"@, 5))
        },
        PieceView::Text("  "@ + description_cell(s.description@)),
    ]
}

/// Lines built by `f` for each skill.
pub open spec fn lines_for(ss: Seq<Skill>, f: spec_fn(Skill) -> Seq<PieceView>) -> Seq<Seq<PieceView>>
    decreases ss.len(),
{
    if ss.len() == 0 {
        Seq::empty()
    } else {
        lines_for(ss.drop_last(), f).push(f(ss.last()))
    }
}

/// `n` copies of `c`.
pub open spec fn repeat(c: char, n: nat) -> Seq<char> {
    Seq::new(n, |i: int| c)
}

/// What `list` shows for the skills in path order.
pub open spec fn list_lines(ss: Seq<Skill>, flat: bool) -> Seq<Seq<PieceView>> {
    if ss.len() == 0 {
        seq![tl(empty_grove_text())]
    } else {
        (if flat {
            lines_for(ss, |s: Skill| flat_line(s))
        } else {
            seq![
                tl(pad_right("PATH"@, 30) + " "@ + pad_left("VER"@, 5) + " "@ + pad_left("USAGE"@, 6) + " "@
                    + pad_left("RATE"@, 5) + "  "@ + "DESCRIPTION"@),
                tl(repeat('-', 80)),
            ] + lines_for(ss, |s: Skill| table_line(s))
        }) + seq![tl(Seq::<char>::empty()), tl(decimal(ss.len()) + " skill(s)"@)]
    }
}

/// Every live skill with a description longer than 30 bytes has whole characters in
/// its first 27 bytes.
pub open spec fn descriptions_cut_ok(rows: Seq<crate::db::SkillRow>) -> bool {
    forall|i: int| 0 <= i < rows.len() && !rows[i].archived
        && encode_utf8((#[trigger] rows[i]).skill.description@).len() > 30
        ==> prefix_ok(rows[i].skill.description@, 27)
}

fn flat_entry(s: &Skill) -> (r: Line)
    ensures
        r@ == flat_line(*s),
{
    let mut l = left_aligned(s.path.as_str(), 30);
    l.append(" v");
    l.append(left_aligned(count_text(s.version as u64).as_str(), 3).as_str());
    l.append(" ");
    l.append(right_aligned(count_text(s.usage_count).as_str(), 4).as_str());
    l.append("x  ");
    if s.description.as_str().is_empty() {
        l.append("(no description)");
    } else {
        l.append(s.description.as_str());
    }
    crate::report::text_line(l)
}

fn description_string(d: &String) -> (r: String)
    requires
        encode_utf8(d@).len() > 30 ==> prefix_ok(d@, 27),
    ensures
        r@ == description_cell(d@),
{
    if d.as_str().as_bytes().len() > 30 {
        let mut r = byte_prefix(d.as_str(), 27);
        r.append("...");
        r
    } else if d.as_str().is_empty() {
        String::from_str("(no description)")
    } else {
        d.clone()
    }
}

fn table_entry(s: &Skill) -> (r: Line)
    requires
        encode_utf8(s.description@).len() > 30 ==> prefix_ok(s.description@, 27),
    ensures
        r@ == table_line(*s),
{
    let mut head = left_aligned(s.path.as_str(), 30);
    head.append(" ");
    let mut ver = String::from_str("v");
    ver.append(count_text(s.version as u64).as_str());
    head.append(right_aligned(ver.as_str(), 5).as_str());
    head.append(" ");
    head.append(right_aligned(count_text(s.usage_count).as_str(), 6).as_str());
    head.append(" ");
    let rate = if s.usage_count > 0 {
        Piece::PercentCell(s.success_count, s.usage_count, 5)
    } else {
        Piece::Text(right_aligned("-", 5))
    };
    let mut tail = String::from_str("  ");
    tail.append(description_string(&s.description).as_str());
    let mut pieces: Vec<Piece> = Vec::new();
    pieces.push(Piece::Text(head));
    pieces.push(rate);
    pieces.push(Piece::Text(tail));
    let r = Line { pieces };
    assert(r@ =~= table_line(*s));
    r
}

fn dashes(n: usize) -> (r: String)
    ensures
        r@ == repeat('-', n as nat),
{
    let mut r = String::new();
    let mut k: usize = 0;
    while k < n
        invariant
            k <= n,
            r@ == repeat('-', k as nat),
        decreases n - k,
    {
        crate::text::push_char(&mut r, '-');
        assert(repeat('-', (k + 1) as nat) =~= repeat('-', k as nat).push('-'));
        k = k + 1;
    }
    r
}

/// Lists the live skills in path order: flat, or as a table with rates.
pub fn list(db: &Database, flat: bool) -> (r: Vec<Line>)
    requires
        db@.wf(),
        !flat ==> descriptions_cut_ok(db@.rows),
    ensures
        exists|l: Seq<Skill>| #![trigger l.to_multiset()]
            sorted_by_le(l, by_path()) && l.to_multiset() == live_skills(db@.rows).to_multiset()
            && lines_view(r@) == list_lines(l, flat),
{
    let skills = db.list_skills();
    let ghost sv = skills@;
    let mut lines: Vec<Line> = Vec::new();
    if skills.len() == 0 {
        push_text(&mut lines, String::from_str("(empty grove \u{2014} run `grove grow <path>` to plant skills)"));
        assert(lines_view(lines@) =~= list_lines(sv, flat));
        return lines;
    }
    if !flat {
        proof {
            assert forall|k: int| 0 <= k < sv.len() && encode_utf8((#[trigger] sv[k]).description@).len() > 30
                implies prefix_ok(sv[k].description@, 27) by {
                broadcast use vstd::seq_lib::group_to_multiset_ensures;
                assert(sv.contains(sv[k]));
                assert(sv.to_multiset().count(sv[k]) > 0);
                assert(live_skills(db@.rows).contains(sv[k]));
                crate::db::lemma_live_skill_row(db@.rows, sv[k]);
            }
        }
        let mut h = left_aligned("PATH", 30);
        h.append(" ");
        h.append(right_aligned("VER", 5).as_str());
        h.append(" ");
        h.append(right_aligned("USAGE", 6).as_str());
        h.append(" ");
        h.append(right_aligned("RATE", 5).as_str());
        h.append("  ");
        h.append("DESCRIPTION");
        push_text(&mut lines, h);
        push_text(&mut lines, dashes(80));
    }
    let ghost top = lines_view(lines@);
    let mut i: usize = 0;
    while i < skills.len()
        invariant
            sv == skills@,
            i <= skills.len(),
            !flat ==> forall|k: int| 0 <= k < sv.len() && encode_utf8((#[trigger] sv[k]).description@).len() > 30
                ==> prefix_ok(sv[k].description@, 27),
            lines_view(lines@) == top + if flat {
                lines_for(sv.take(i as int), |s: Skill| flat_line(s))
            } else {
                lines_for(sv.take(i as int), |s: Skill| table_line(s))
            },
        decreases skills.len() - i,
    {
        assert(sv.take(i + 1).drop_last() =~= sv.take(i as int));
        assert(sv.take(i + 1).last() == sv[i as int]);
        if flat {
            let l = flat_entry(&skills[i]);
            push_line(&mut lines, l);
        } else {
            let l = table_entry(&skills[i]);
            push_line(&mut lines, l);
        }
        i = i + 1;
    }
    assert(sv.take(sv.len() as int) =~= sv);
    push_text(&mut lines, String::new());
    let mut l = count_text(skills.len() as u64);
    l.append(" skill(s)");
    push_text(&mut lines, l);
    assert(lines_view(lines@) =~= list_lines(sv, flat));
    lines
}

/// The paths before each slash of `p`, in order: the positions above `p` in the tree.
pub open spec fn ancestors(p: Seq<char>) -> Seq<Seq<char>>
    decreases p.len(),
{
    if p.len() == 0 {
        Seq::empty()
    } else {
        let r = ancestors(p.drop_last());
        if p.last() == '/' { r.push(p.drop_last()) } else { r }
    }
}

/// `q` is a position of the tree of skills `ss`: a skill's path or a position above one.
pub open spec fn is_node(ss: Seq<Skill>, q: Seq<char>) -> bool {
    exists|i: int| 0 <= i < ss.len() && ((#[trigger] ss[i]).path@ == q || ancestors(ss[i].path@).contains(q))
}

/// Strictly increasing in lexicographic order.
pub open spec fn strictly_sorted(s: Seq<Seq<char>>) -> bool {
    forall|i: int, j: int| 0 <= i < j < s.len() ==> lex_le(#[trigger] s[i], #[trigger] s[j]) && s[i] != s[j]
}

/// The positions of the tree, in lexicographic order.
pub open spec fn tree_nodes(ss: Seq<Skill>) -> Seq<Seq<char>> {
    choose|s: Seq<Seq<char>>| strictly_sorted(s) && forall|q: Seq<char>| #[trigger] s.contains(q) <==> is_node(ss, q)
}

/// The positions directly below `q`.
pub open spec fn child_of(q: Option<Seq<char>>) -> spec_fn(Seq<char>) -> bool {
    |n: Seq<char>| parent_path(n) == q
}

/// The skill at path `n`, if any.
pub open spec fn skill_at(ss: Seq<Skill>, n: Seq<char>) -> Option<Skill> {
    if exists|i: int| first_at(ss, n, i) {
        Some(ss[choose|i: int| first_at(ss, n, i)])
    } else {
        None
    }
}

/// The line of one position: prefix, connector, name, and with stats the skill's
/// version, uses and success rate.
pub open spec fn node_line(ss: Seq<Skill>, n: Seq<char>, prefix: Seq<char>, last: bool, show: bool) -> Seq<PieceView> {
    let head = prefix + (if last { "\u{2514}\u{2500}\u{2500} "@ } else { "\u{251c}\u{2500}\u{2500} "@ }) + last_segment(n);
    match skill_at(ss, n) {
        Some(s) => if !show {
            tl(head)
        } else if s.usage_count > 0 {
            seq![
                PieceView::Text(head + " (v"@ + decimal(s.version as nat) + ", "@ + decimal(s.usage_count as nat) + "x, "@),
                PieceView::Percent(s.success_count, s.usage_count),
                PieceView::Text("%)"@),
            ]
        } else {
            tl(head + " (v"@ + decimal(s.version as nat) + ")"@)
        },
        None => tl(head),
    }
}

/// The lines of the positions `ns[i..]` (siblings, in order) and of what lies below them,
/// down to `fuel` levels.
pub open spec fn render_from(ss: Seq<Skill>, nodes: Seq<Seq<char>>, ns: Seq<Seq<char>>, i: int, prefix: Seq<char>,
    depth: nat, max_depth: Option<usize>, show: bool, fuel: nat) -> Seq<Seq<PieceView>>
    decreases fuel, ns.len() - i,
{
    if i < 0 || i >= ns.len() {
        Seq::empty()
    } else {
        let n = ns[i];
        let last = i == ns.len() - 1;
        let below = if (max_depth matches Some(d) && depth >= d) || fuel == 0 {
            Seq::<Seq<PieceView>>::empty()
        } else {
            render_from(ss, nodes, nodes.filter(child_of(Some(n))), 0,
                prefix + (if last { "    "@ } else { "\u{2502}   "@ }), depth + 1, max_depth, show, (fuel - 1) as nat)
        };
        seq![node_line(ss, n, prefix, last, show)] + below
            + render_from(ss, nodes, ns, i + 1, prefix, depth, max_depth, show, fuel)
    }
}

/// The ASCII tree of the skills `ss`.
pub open spec fn tree_lines(ss: Seq<Skill>, max_depth: Option<usize>, show: bool, fuel: nat) -> Seq<Seq<PieceView>> {
    if ss.len() == 0 {
        seq![tl(empty_grove_text())]
    } else {
        let nodes = tree_nodes(ss);
        seq![tl("grove"@)] + render_from(ss, nodes, nodes.filter(child_of(None)), 0, Seq::<char>::empty(), 1, max_depth, show, fuel)
    }
}

proof fn lemma_strict_unique(a: Seq<Seq<char>>, b: Seq<Seq<char>>)
    requires
        strictly_sorted(a),
        strictly_sorted(b),
        forall|q: Seq<char>| #[trigger] a.contains(q) <==> b.contains(q),
    ensures
        a == b,
    decreases a.len(),
{
    if a.len() == 0 {
        if b.len() > 0 {
            assert(b.contains(b[0]));
            assert(a.contains(b[0]));
        }
        assert(a =~= b);
    } else if b.len() == 0 {
        assert(a.contains(a[0]));
    } else {
        assert(a.contains(a[0]));
        assert(b.contains(a[0]));
        assert(b.contains(b[0]));
        assert(a.contains(b[0]));
        let j = choose|j: int| 0 <= j < b.len() && b[j] == a[0];
        let i = choose|i: int| 0 <= i < a.len() && a[i] == b[0];
        if a[0] != b[0] {
            assert(j > 0 && i > 0);
            assert(lex_le(b[0], b[j]));
            assert(lex_le(a[0], a[i]));
            lemma_lex_antisym(a[0], b[0]);
        }
        let a1 = a.drop_first();
        let b1 = b.drop_first();
        assert forall|q: Seq<char>| #[trigger] a1.contains(q) <==> b1.contains(q) by {
            if a1.contains(q) {
                let k = choose|k: int| 0 <= k < a1.len() && a1[k] == q;
                assert(a[k + 1] == q && a[k + 1] != a[0]);
                assert(a.contains(q));
                assert(b.contains(q));
                let m = choose|m: int| 0 <= m < b.len() && b[m] == q;
                assert(m != 0);
                assert(b1[m - 1] == q);
            }
            if b1.contains(q) {
                let k = choose|k: int| 0 <= k < b1.len() && b1[k] == q;
                assert(b[k + 1] == q && b[k + 1] != b[0]);
                assert(b.contains(q));
                assert(a.contains(q));
                let m = choose|m: int| 0 <= m < a.len() && a[m] == q;
                assert(m != 0);
                assert(a1[m - 1] == q);
            }
        }
        lemma_strict_unique(a1, b1);
        assert(a =~= seq![a[0]] + a1);
        assert(b =~= seq![b[0]] + b1);
    }
}

fn ancestors_of(p: &String) -> (r: Vec<String>)
    ensures
        texts(r@) == ancestors(p@),
{
    let cs = crate::text::chars_of(p.as_str());
    let mut r: Vec<String> = Vec::new();
    let mut i: usize = 0;
    while i < cs.len()
        invariant
            cs@ == p@,
            i <= cs.len(),
            texts(r@) == ancestors(p@.take(i as int)),
        decreases cs.len() - i,
    {
        assert(p@.take(i + 1).drop_last() =~= p@.take(i as int));
        assert(p@.take(i + 1).last() == p@[i as int]);
        if cs[i] == '/' {
            let prefix = crate::merge::slice_chars(&cs, 0, i);
            assert(prefix@ =~= p@.take(i as int));
            r.push(crate::text::string_from_chars(prefix.as_slice()));
            assert(texts(r@) =~= ancestors(p@.take(i as int)).push(p@.take(i as int)));
        }
        i = i + 1;
    }
    assert(p@.take(cs.len() as int) =~= p@);
    r
}

fn collect_nodes(skills: &Vec<Skill>) -> (r: Vec<String>)
    ensures
        forall|q: Seq<char>| #[trigger] texts(r@).contains(q) <==> is_node(skills@, q),
{
    let mut r: Vec<String> = Vec::new();
    let mut k: usize = 0;
    while k < skills.len()
        invariant
            k <= skills.len(),
            forall|q: Seq<char>| #[trigger] texts(r@).contains(q) <==> exists|i: int| 0 <= i < k
                && ((#[trigger] skills@[i]).path@ == q || ancestors(skills@[i].path@).contains(q)),
        decreases skills.len() - k,
    {
        let ghost r0 = texts(r@);
        let p = &skills[k].path;
        r.push(p.clone());
        let anc = ancestors_of(p);
        let ghost r1 = texts(r@);
        assert(r1 =~= r0.push(p@));
        proof { lemma_push_contains(r0, p@); }
        let mut j: usize = 0;
        while j < anc.len()
            invariant
                j <= anc.len(),
                r1 == r0.push(p@),
                texts(anc@) == ancestors(p@),
                forall|q: Seq<char>| #[trigger] texts(r@).contains(q) <==> r1.contains(q) || texts(anc@).take(j as int).contains(q),
            decreases anc.len() - j,
        {
            let ghost before = texts(r@);
            r.push(anc[j].clone());
            assert(texts(r@) =~= before.push(anc@[j as int]@));
            assert(texts(anc@).take(j + 1) =~= texts(anc@).take(j as int).push(anc@[j as int]@));
            proof {
                lemma_push_contains(before, anc@[j as int]@);
                lemma_push_contains(texts(anc@).take(j as int), anc@[j as int]@);
            }
            j = j + 1;
        }
        assert(texts(anc@).take(anc.len() as int) =~= texts(anc@));
        assert forall|q: Seq<char>| #[trigger] texts(r@).contains(q) <==> exists|i: int| 0 <= i < k + 1
            && ((#[trigger] skills@[i]).path@ == q || ancestors(skills@[i].path@).contains(q)) by {
            if texts(r@).contains(q) {
                if r0.contains(q) {
                } else if q == p@ {
                    assert(skills@[k as int].path@ == q);
                } else {
                    assert(ancestors(skills@[k as int].path@).contains(q));
                }
            }
            if exists|i: int| 0 <= i < k + 1 && ((#[trigger] skills@[i]).path@ == q || ancestors(skills@[i].path@).contains(q)) {
                let i = choose|i: int| 0 <= i < k + 1 && ((#[trigger] skills@[i]).path@ == q || ancestors(skills@[i].path@).contains(q));
                if i < k {
                    assert(r0.contains(q));
                    assert(r1.contains(q)) by {
                        let m = choose|m: int| 0 <= m < r0.len() && r0[m] == q;
                        assert(r1[m] == q);
                    }
                } else if q == p@ {
                    assert(r1[r1.len() - 1] == q);
                } else {
                    assert(texts(anc@).contains(q));
                }
            }
        }
        k = k + 1;
    }
    r
}

/// Strings ordered by their text.
pub open spec fn by_text() -> spec_fn(String, String) -> bool {
    |a: String, b: String| lex_le(a@, b@)
}

fn sorted_nodes(skills: &Vec<Skill>) -> (r: Vec<String>)
    ensures
        texts(r@) == tree_nodes(skills@),
{
    assert(total_preorder(by_text())) by {
        assert forall|a: String, b: String| #[trigger] by_text()(a, b) || by_text()(b, a) by {
            lemma_lex_total(a@, b@);
        }
        assert forall|a: String, b: String, c: String| #[trigger] by_text()(a, b) && #[trigger] by_text()(b, c)
            implies by_text()(a, c) by {
            lemma_lex_trans(a@, b@, c@);
        }
    }
    let all = collect_nodes(skills);
    let ghost av = all@;
    let sorted = sort_by(all, |a: &String, b: &String| -> (r: bool) ensures r == by_text()(*a, *b) { text_le(a, b) }, Ghost(by_text()));
    let ghost sv = sorted@;
    proof {
        broadcast use vstd::seq_lib::group_to_multiset_ensures;
        assert forall|q: Seq<char>| #[trigger] texts(sv).contains(q) <==> texts(av).contains(q) by {
            if texts(sv).contains(q) {
                let i = choose|i: int| 0 <= i < texts(sv).len() && texts(sv)[i] == q;
                assert(sv.contains(sv[i]));
                assert(sv.to_multiset().count(sv[i]) > 0);
                assert(av.contains(sv[i]));
                let j = choose|j: int| 0 <= j < av.len() && av[j] == sv[i];
                assert(texts(av)[j] == q);
            }
            if texts(av).contains(q) {
                let i = choose|i: int| 0 <= i < texts(av).len() && texts(av)[i] == q;
                assert(av.contains(av[i]));
                assert(av.to_multiset().count(av[i]) > 0);
                assert(sv.contains(av[i]));
                let j = choose|j: int| 0 <= j < sv.len() && sv[j] == av[i];
                assert(texts(sv)[j] == q);
            }
        }
    }
    let mut r: Vec<String> = Vec::new();
    let mut i: usize = 0;
    while i < sorted.len()
        invariant
            sv == sorted@,
            crate::order::sorted_by_le(sv, by_text()),
            i <= sorted.len(),
            strictly_sorted(texts(r@)),
            r@.len() > 0 ==> i > 0 && r@.last()@ == sv[i - 1]@,
            forall|k: int| 0 <= k < r@.len() ==> exists|m: int| 0 <= m < i && (#[trigger] r@[k])@ == #[trigger] sv[m]@,
            forall|m: int| 0 <= m < i ==> #[trigger] texts(r@).contains(sv[m]@),
        decreases sorted.len() - i,
    {
        let keep = r.len() == 0 || !r[r.len() - 1].eq(&sorted[i]);
        if keep {
            let ghost r0 = r@;
            proof { lemma_push_contains(texts(r0), sv[i as int]@); }
            proof {
                assert forall|k: int| 0 <= k < r0.len() implies lex_le(#[trigger] r0[k]@, sv[i as int]@) && r0[k]@ != sv[i as int]@ by {
                    let m = choose|m: int| 0 <= m < i && (#[trigger] r0[k])@ == #[trigger] sv[m]@;
                    assert(by_text()(sv[m], sv[i as int]));
                    if r0[k]@ == sv[i as int]@ {
                        let last = r0[r0.len() - 1];
                        assert(by_text()(sv[m], sv[i - 1]) || m == i - 1);
                        assert(by_text()(sv[i - 1], sv[i as int]));
                        if k < r0.len() - 1 {
                            assert(lex_le(texts(r0)[k], texts(r0)[r0.len() - 1]));
                            assert(lex_le(sv[i - 1]@, sv[i as int]@));
                            lemma_lex_antisym(r0[k]@, last@);
                        }
                    }
                }
            }
            r.push(sorted[i].clone());
            proof {
                assert forall|a: int, b: int| 0 <= a < b < texts(r@).len() implies
                    lex_le(#[trigger] texts(r@)[a], #[trigger] texts(r@)[b]) && texts(r@)[a] != texts(r@)[b] by {
                    if b < r0.len() {
                        assert(texts(r0)[a] == texts(r@)[a] && texts(r0)[b] == texts(r@)[b]);
                    } else {
                        assert(r@[a] == r0[a]);
                    }
                }
                assert(texts(r@) =~= texts(r0).push(sv[i as int]@));
                assert forall|m: int| 0 <= m < i + 1 implies #[trigger] texts(r@).contains(sv[m]@) by {
                    if m < i {
                        assert(texts(r0).contains(sv[m]@));
                    }
                }
                assert forall|k: int| 0 <= k < r@.len() implies exists|m: int| 0 <= m < i + 1 && (#[trigger] r@[k])@ == #[trigger] sv[m]@ by {
                    if k < r0.len() {
                        assert(r@[k] == r0[k]);
                    } else {
                        assert(r@[k]@ == sv[i as int]@);
                    }
                }
            }
        } else {
            proof {
                assert forall|m: int| 0 <= m < i + 1 implies #[trigger] texts(r@).contains(sv[m]@) by {
                    if m == i {
                        assert(texts(r@)[r@.len() - 1] == sv[m]@);
                    }
                }
            }
        }
        i = i + 1;
    }
    proof {
        assert forall|q: Seq<char>| #[trigger] texts(r@).contains(q) <==> is_node(skills@, q) by {
            if texts(r@).contains(q) {
                let k = choose|k: int| 0 <= k < texts(r@).len() && texts(r@)[k] == q;
                let m = choose|m: int| 0 <= m < sv.len() && (#[trigger] r@[k])@ == #[trigger] sv[m]@;
                assert(texts(sv)[m] == q);
                assert(texts(sv).contains(q));
                assert(texts(av).contains(q));
            }
            if is_node(skills@, q) {
                assert(texts(av).contains(q));
                assert(texts(sv).contains(q));
                let m = choose|m: int| 0 <= m < texts(sv).len() && texts(sv)[m] == q;
                assert(texts(r@).contains(sv[m]@));
                assert(sv[m]@ == q);
            }
        }
        let t = tree_nodes(skills@);
        assert(strictly_sorted(t) && forall|q: Seq<char>| #[trigger] t.contains(q) <==> is_node(skills@, q));
        lemma_strict_unique(texts(r@), t);
    }
    r
}

fn filter_children(nodes: &Vec<String>, q: &Option<String>) -> (r: Vec<String>)
    ensures
        texts(r@) == texts(nodes@).filter(child_of(crate::db::opt_text(*q))),
{
    let ghost f = child_of(crate::db::opt_text(*q));
    let ghost tv = texts(nodes@);
    let mut r: Vec<String> = Vec::new();
    let mut i: usize = 0;
    while i < nodes.len()
        invariant
            f == child_of(crate::db::opt_text(*q)),
            tv == texts(nodes@),
            i <= nodes.len(),
            texts(r@) == tv.take(i as int).filter(f),
        decreases nodes.len() - i,
    {
        assert(tv.take(i + 1) =~= tv.take(i as int).push(tv[i as int]));
        proof { tv.take(i as int).lemma_filter_push(tv[i as int], f); }
        let p = parent_path_of(nodes[i].as_str());
        let same = match (&p, q) {
            (Some(a), Some(b)) => a.eq(b),
            (None, None) => true,
            _ => false,
        };
        if same {
            let ghost r0 = texts(r@);
            r.push(nodes[i].clone());
            assert(texts(r@) =~= r0.push(tv[i as int]));
        }
        i = i + 1;
    }
    assert(tv.take(nodes.len() as int) =~= tv);
    r
}

/// The index of the first skill with path `n`.
pub open spec fn first_at(ss: Seq<Skill>, n: Seq<char>, i: int) -> bool {
    0 <= i < ss.len() && ss[i].path@ == n && forall|j: int| 0 <= j < i ==> (#[trigger] ss[j]).path@ != n
}

fn skill_for<'a>(skills: &'a Vec<Skill>, n: &String) -> (r: Option<&'a Skill>)
    ensures
        r matches Some(s) ==> exists|i: int| first_at(skills@, n@, i) && skills@[i] == *s,
        r is None ==> forall|i: int| 0 <= i < skills@.len() ==> (#[trigger] skills@[i]).path@ != n@,
{
    let mut i: usize = 0;
    while i < skills.len()
        invariant
            i <= skills.len(),
            forall|j: int| 0 <= j < i ==> (#[trigger] skills@[j]).path@ != n@,
        decreases skills.len() - i,
    {
        if skills[i].path.eq(n) {
            assert(first_at(skills@, n@, i as int));
            return Some(&skills[i]);
        }
        i = i + 1;
    }
    None
}

proof fn lemma_skill_at_first(ss: Seq<Skill>, n: Seq<char>, i: int)
    requires
        first_at(ss, n, i),
    ensures
        skill_at(ss, n) == Some(ss[i]),
{
    let c = choose|c: int| first_at(ss, n, c);
    if c < i {
        assert(ss[c].path@ != n);
    }
    if c > i {
        assert(ss[i].path@ != n);
    }
}

proof fn lemma_skill_at_none(ss: Seq<Skill>, n: Seq<char>)
    requires
        forall|i: int| 0 <= i < ss.len() ==> (#[trigger] ss[i]).path@ != n,
    ensures
        skill_at(ss, n) is None,
{
}

fn connector_text(last: bool) -> (r: &'static str)
    ensures
        r@ == (if last { "\u{2514}\u{2500}\u{2500} "@ } else { "\u{251c}\u{2500}\u{2500} "@ }),
{
    if last { "\u{2514}\u{2500}\u{2500} " } else { "\u{251c}\u{2500}\u{2500} " }
}

fn node_entry(skills: &Vec<Skill>, n: &String, prefix: &String, last: bool, show: bool) -> (r: Line)
    ensures
        r@ == node_line(skills@, n@, prefix@, last, show),
{
    let mut head = prefix.clone();
    head.append(connector_text(last));
    head.append(skill_name_of(n.as_str()).as_str());
    let found = skill_for(skills, n);
    match found {
        Some(s) => {
            proof {
                let i = choose|i: int| first_at(skills@, n@, i) && skills@[i] == *s;
                lemma_skill_at_first(skills@, n@, i);
            }
            if !show {
                crate::report::text_line(head)
            } else if s.usage_count > 0 {
                head.append(" (v");
                head.append(count_text(s.version as u64).as_str());
                head.append(", ");
                head.append(count_text(s.usage_count).as_str());
                head.append("x, ");
                crate::report::rate_line(head, s.success_count, s.usage_count, String::from_str("%)"))
            } else {
                head.append(" (v");
                head.append(count_text(s.version as u64).as_str());
                head.append(")");
                crate::report::text_line(head)
            }
        },
        None => {
            proof { lemma_skill_at_none(skills@, n@); }
            crate::report::text_line(head)
        },
    }
}

fn render_nodes(
    skills: &Vec<Skill>,
    nodes: &Vec<String>,
    ns: &Vec<String>,
    prefix: &String,
    depth: usize,
    max_depth: Option<usize>,
    show: bool,
    fuel: usize,
    out: &mut Vec<Line>,
)
    requires
        depth as int + fuel as int <= usize::MAX,
    ensures
        lines_view(final(out)@) == lines_view(old(out)@) + render_from(skills@, texts(nodes@), texts(ns@), 0, prefix@,
            depth as nat, max_depth, show, fuel as nat),
    decreases fuel,
{
    let ghost start = lines_view(out@);
    let ghost nv = texts(ns@);
    let ghost all = texts(nodes@);
    let mut i: usize = 0;
    while i < ns.len()
        invariant
            depth as int + fuel as int <= usize::MAX,
            nv == texts(ns@),
            all == texts(nodes@),
            i <= ns.len(),
            start + render_from(skills@, all, nv, 0, prefix@, depth as nat, max_depth, show, fuel as nat)
                == lines_view(out@) + render_from(skills@, all, nv, i as int, prefix@, depth as nat, max_depth, show, fuel as nat),
        decreases ns.len() - i,
    {
        let last = i == ns.len() - 1;
        let ghost before = lines_view(out@);
        let l = node_entry(skills, &ns[i], prefix, last, show);
        push_line(out, l);
        let stop = match max_depth {
            Some(d) => depth >= d,
            None => false,
        };
        let ghost mid = lines_view(out@);
        if !stop && fuel > 0 {
            let kids = filter_children(nodes, &Some(ns[i].clone()));
            let mut child_prefix = prefix.clone();
            if last {
                child_prefix.append("    ");
            } else {
                child_prefix.append("\u{2502}   ");
            }
            render_nodes(skills, nodes, &kids, &child_prefix, depth + 1, max_depth, show, fuel - 1, out);
        }
        proof {
            let below = lines_view(out@).subrange(mid.len() as int, lines_view(out@).len() as int);
            assert(lines_view(out@) =~= before + seq![node_line(skills@, nv[i as int], prefix@, last, show)] + below);
            assert(render_from(skills@, all, nv, i as int, prefix@, depth as nat, max_depth, show, fuel as nat)
                =~= seq![node_line(skills@, nv[i as int], prefix@, last, show)] + below
                    + render_from(skills@, all, nv, i + 1, prefix@, depth as nat, max_depth, show, fuel as nat));
        }
        i = i + 1;
    }
}

/// The length of the longest skill path.
pub open spec fn max_path_len(ss: Seq<Skill>) -> nat
    decreases ss.len(),
{
    if ss.len() == 0 {
        0
    } else {
        let m = max_path_len(ss.drop_last());
        if ss.last().path@.len() > m { ss.last().path@.len() } else { m }
    }
}

/// How many levels the tree is drawn to: two more than the longest path has characters,
/// capped below the machine word's largest value. Whenever it exceeds the longest path,
/// every position is reached (`law_tree_fuel_suffices`).
pub open spec fn tree_fuel(ss: Seq<Skill>) -> nat {
    if max_path_len(ss) + 2 < usize::MAX { max_path_len(ss) + 2 } else { (usize::MAX - 1) as nat }
}

fn fuel_for(skills: &Vec<Skill>) -> (r: usize)
    ensures
        r == tree_fuel(skills@),
{
    let mut m: usize = 0;
    let mut i: usize = 0;
    while i < skills.len()
        invariant
            i <= skills.len(),
            m == max_path_len(skills@.take(i as int)),
        decreases skills.len() - i,
    {
        assert(skills@.take(i + 1).drop_last() =~= skills@.take(i as int));
        let n = crate::text::chars_of(skills[i].path.as_str()).len();
        if n > m {
            m = n;
        }
        i = i + 1;
    }
    assert(skills@.take(skills.len() as int) =~= skills@);
    if m < usize::MAX - 2 { m + 2 } else { usize::MAX - 1 }
}

/// Draws the live skills as an ASCII tree under `grove`: positions above skills appear
/// as plain names, siblings in name order, optionally cut at a depth and with stats.
pub fn tree(db: &Database, max_depth: Option<usize>, show_stats: bool) -> (r: Vec<Line>)
    requires
        db@.wf(),
    ensures
        exists|l: Seq<Skill>| #![trigger l.to_multiset()]
            sorted_by_le(l, by_path()) && l.to_multiset() == live_skills(db@.rows).to_multiset()
            && lines_view(r@) == tree_lines(l, max_depth, show_stats, tree_fuel(l)),
{
    let skills = db.list_skills();
    let mut lines: Vec<Line> = Vec::new();
    if skills.len() == 0 {
        push_text(&mut lines, String::from_str("(empty grove \u{2014} run `grove grow <path>` to plant skills)"));
        assert(lines_view(lines@) =~= tree_lines(skills@, max_depth, show_stats, tree_fuel(skills@)));
        return lines;
    }
    let nodes = sorted_nodes(&skills);
    let roots = filter_children(&nodes, &None);
    let fuel = fuel_for(&skills);
    push_text(&mut lines, String::from_str("grove"));
    render_nodes(&skills, &nodes, &roots, &String::new(), 1, max_depth, show_stats, fuel, &mut lines);
    assert(lines_view(lines@) =~= tree_lines(skills@, max_depth, show_stats, tree_fuel(skills@)));
    lines
}

} // verus!
