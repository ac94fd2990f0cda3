//! Importing outside skills: names, paths and frontmatter.
use vstd::prelude::*;
use vstd::string::StringExecFns;

use crate::db::{
    insert_skill_effect, is_v4_uuid_text, live_skill_at, opt_str_text, Database, DbError,
};
use crate::error::GroveError;
use crate::report::{count_text, lines_view, push_text, text_line, tl, Line};
use crate::text::{decimal, has_suffix, push_chars,
    chars_of, find, find_first, has_prefix, join, join_with, lemma_split_char_nonempty,
    push_char, spec_is_alphanumeric, spec_is_whitespace, spec_to_lowercase, split_char,
    split_on, starts_with, string_from_chars, strip, strip_both, strip_pred, to_lowercase,
    is_alphanumeric, StripSet,
};

verus! {

/// The character that stands for `c` in a sanitized name.
pub open spec fn sanitize_char(c: char) -> char {
    if spec_is_alphanumeric(c) || c == '-' || c == '_' { c } else { '-' }
}

/// A name with every character other than letters, digits, `-` and `_` replaced by `-`,
/// then lowercased.
pub open spec fn spec_sanitize_name(name: Seq<char>) -> Seq<char> {
    spec_to_lowercase(name.map_values(|c: char| sanitize_char(c)))
}

/// Every segment of a slash-separated path sanitized.
pub open spec fn spec_sanitize_path(path: Seq<char>) -> Seq<char> {
    join(split_char(path, '/').map_values(|seg: Seq<char>| spec_sanitize_name(seg)), seq!['/'])
}

/// Sanitizes a name for use as a skill path segment.
pub fn sanitize_name(name: &str) -> (r: String)
    ensures
        r@ == spec_sanitize_name(name@),
{
    let cs = chars_of(name);
    let mut mapped = String::new();
    let mut i: usize = 0;
    while i < cs.len()
        invariant
            cs@ == name@,
            i <= cs.len(),
            mapped@ == name@.take(i as int).map_values(|c: char| sanitize_char(c)),
        decreases cs.len() - i,
    {
        let c = cs[i];
        let keep = is_alphanumeric(c) || c == '-' || c == '_';
        if keep {
            push_char(&mut mapped, c);
        } else {
            push_char(&mut mapped, '-');
        }
        assert(name@.take(i + 1).map_values(|c: char| sanitize_char(c))
            =~= name@.take(i as int).map_values(|c: char| sanitize_char(c)).push(sanitize_char(c)));
        i = i + 1;
    }
    assert(name@.take(cs.len() as int) =~= name@);
    to_lowercase(mapped.as_str())
}

/// Sanitizes every segment of a slash-separated path.
pub fn sanitize_path(path: &str) -> (r: String)
    ensures
        r@ == spec_sanitize_path(path@),
{
    let cs = chars_of(path);
    let parts = split_on(&cs, '/');
    let ghost pieces = split_char(path@, '/');
    let mut out: Vec<Vec<char>> = Vec::new();
    let mut i: usize = 0;
    while i < parts.len()
        invariant
            cs@ == path@,
            pieces == split_char(path@, '/'),
            parts@.len() == pieces.len(),
            forall|k: int| 0 <= k < parts@.len() ==> #[trigger] parts@[k]@ == pieces[k],
            i <= parts.len(),
            out@.len() == i,
            forall|k: int| 0 <= k < i ==> #[trigger] out@[k]@ == spec_sanitize_name(pieces[k]),
        decreases parts.len() - i,
    {
        let seg = string_from_chars(parts[i].as_slice());
        let clean = sanitize_name(seg.as_str());
        out.push(chars_of(clean.as_str()));
        i = i + 1;
    }
    let sep: [char; 1] = ['/'];
    let joined = join_with(&out, &sep);
    assert(out@.map_values(|v: Vec<char>| v@) =~= pieces.map_values(|seg: Seq<char>| spec_sanitize_name(seg)));
    assert(sep@ =~= seq!['/']);
    string_from_chars(joined.as_slice())
}

/// The value that one frontmatter line gives, if its trimmed text starts with
/// `description:`: the rest trimmed, then stripped of double quotes, then of single quotes.
pub open spec fn line_description(line: Seq<char>) -> Option<Seq<char>> {
    let t = strip_both(line, strip_pred(StripSet::Whitespace));
    if has_prefix(t, "description:"@) {
        let v = strip_both(t.subrange(12, t.len() as int), strip_pred(StripSet::Whitespace));
        Some(strip_both(strip_both(v, strip_pred(StripSet::Only('"'))), strip_pred(StripSet::Only('\''))))
    } else {
        None
    }
}

/// The value given by the first line that has one.
pub open spec fn description_in_lines(lines: Seq<Seq<char>>) -> Option<Seq<char>>
    decreases lines.len(),
{
    if lines.len() == 0 {
        None
    } else {
        match line_description(lines[0]) {
            Some(v) => Some(v),
            None => description_in_lines(lines.drop_first()),
        }
    }
}

/// The description from YAML frontmatter: the text must start with `---`, the frontmatter
/// runs to the next `---`, and its first `description:` line gives the value.
pub open spec fn spec_extract_description(content: Seq<char>) -> Option<Seq<char>> {
    if !has_prefix(content, "---"@) {
        None
    } else {
        let rest = content.subrange(3, content.len() as int);
        match find_first(rest, "---"@) {
            None => None,
            Some(end) => description_in_lines(split_char(rest.subrange(0, end), '\n')),
        }
    }
}

/// The characters of `v` from `a` up to `b`.
pub fn slice_chars(v: &[char], a: usize, b: usize) -> (r: Vec<char>)
    requires
        a <= b <= v@.len(),
    ensures
        r@ == v@.subrange(a as int, b as int),
{
    let mut r: Vec<char> = Vec::new();
    let mut k: usize = a;
    while k < b
        invariant
            a <= k <= b <= v@.len(),
            r@ == v@.subrange(a as int, k as int),
        decreases b - k,
    {
        r.push(v[k]);
        assert(v@.subrange(a as int, k as int).push(v@[k as int]) =~= v@.subrange(a as int, k + 1));
        k = k + 1;
    }
    r
}

fn description_of_line(line: &[char]) -> (r: Option<Vec<char>>)
    ensures
        r matches Some(v) ==> line_description(line@) == Some(v@),
        r is None ==> line_description(line@) is None,
{
    let key = chars_of("description:");
    assert(key@.len() == 12) by {
        reveal_strlit("description:");
    }
    let t = strip(line, &StripSet::Whitespace);
    if starts_with(&t, &key) {
        let after = slice_chars(&t, 12, t.len());
        let v = strip(after.as_slice(), &StripSet::Whitespace);
        let v = strip(v.as_slice(), &StripSet::Only('"'));
        let v = strip(v.as_slice(), &StripSet::Only('\''));
        Some(v)
    } else {
        None
    }
}

fn description_from_frontmatter(front: &[char]) -> (r: Option<Vec<char>>)
    ensures
        r matches Some(v) ==> description_in_lines(split_char(front@, '\n')) == Some(v@),
        r is None ==> description_in_lines(split_char(front@, '\n')) is None,
{
    let lines = split_on(front, '\n');
    let ghost lv = split_char(front@, '\n');
    let mut i: usize = 0;
    assert(lv.skip(0) =~= lv);
    while i < lines.len()
        invariant
            lv == split_char(front@, '\n'),
            lines@.len() == lv.len(),
            forall|j: int| 0 <= j < lines@.len() ==> #[trigger] lines@[j]@ == lv[j],
            i <= lines.len(),
            description_in_lines(lv) == description_in_lines(lv.skip(i as int)),
        decreases lines.len() - i,
    {
        assert(lv.skip(i as int)[0] == lv[i as int]);
        assert(lv.skip(i as int).drop_first() =~= lv.skip(i + 1));
        match description_of_line(lines[i].as_slice()) {
            Some(v) => { return Some(v); },
            None => {},
        }
        i = i + 1;
    }
    assert(lv.skip(lines.len() as int).len() == 0);
    None
}

/// Extracts the description from the frontmatter of a skill file.
pub fn extract_description(content: &str) -> (r: Option<String>)
    ensures
        r matches Some(s) ==> spec_extract_description(content@) == Some(s@),
        r is None ==> spec_extract_description(content@) is None,
{
    let cs = chars_of(content);
    let dashes = chars_of("---");
    if !starts_with(&cs, &dashes) {
        return None;
    }
    assert(dashes@.len() == 3) by {
        reveal_strlit("---");
    }
    let rest = slice_chars(&cs, 3, cs.len());
    let end = match find(&rest, &dashes) {
        Some(e) => e,
        None => { return None; },
    };
    let front = slice_chars(&rest, 0, end);
    match description_from_frontmatter(&front) {
        Some(v) => Some(string_from_chars(v.as_slice())),
        None => None,
    }
}

/// Where an imported file goes in the tree.
pub struct MergeTarget {
    pub path: String,
    pub name: String,
}

/// A file that merging picks up: `SKILL.md` or any `.md` file.
pub open spec fn is_skill_file(filename: Seq<char>) -> bool {
    filename == "SKILL.md"@ || has_suffix(filename, ".md"@)
}

/// `s` with backslashes turned into slashes.
pub open spec fn forward_slashes(s: Seq<char>) -> Seq<char> {
    s.map_values(|c: char| if c == '\\' { '/' } else { c })
}

/// The text of an optional string, or `d` when absent.
pub open spec fn or_text(o: Option<&str>, d: Seq<char>) -> Seq<char> {
    match o {
        Some(x) => x@,
        None => d,
    }
}

/// The tree path of an imported file before sanitizing: a `SKILL.md` takes its directory
/// (or, at the top, the name of the skills directory); another `.md` file takes its
/// directory and its name without extension.
pub open spec fn raw_merge_path(filename: Seq<char>, relative: Seq<char>, stem: Option<&str>, dir_name: Option<&str>) -> Seq<char> {
    let rel = forward_slashes(relative);
    if filename == "SKILL.md"@ {
        if rel.len() == 0 { or_text(dir_name, "imported"@) } else { rel }
    } else {
        let name = or_text(stem, "imported"@);
        if rel.len() == 0 { name } else { rel + "/"@ + name }
    }
}

/// A path placed under `prefix`, when there is one.
pub open spec fn under_prefix(prefix: Seq<char>, p: Seq<char>) -> Seq<char> {
    if prefix.len() == 0 { p } else { prefix + "/"@ + p }
}

fn slashes_forward(s: &str) -> (r: String)
    ensures
        r@ == forward_slashes(s@),
{
    let cs = chars_of(s);
    let mut r = String::new();
    let mut i: usize = 0;
    while i < cs.len()
        invariant
            cs@ == s@,
            i <= cs.len(),
            r@ == forward_slashes(s@.take(i as int)),
        decreases cs.len() - i,
    {
        if cs[i] == '\\' {
            push_char(&mut r, '/');
        } else {
            push_char(&mut r, cs[i]);
        }
        assert(forward_slashes(s@.take(i + 1)) =~= forward_slashes(s@.take(i as int)).push(
            if s@[i as int] == '\\' { '/' } else { s@[i as int] }));
        i = i + 1;
    }
    assert(s@.take(cs.len() as int) =~= s@);
    r
}

fn place_under(prefix: &str, p: &str) -> (r: String)
    ensures
        r@ == under_prefix(prefix@, p@),
{
    if prefix.is_empty() {
        p.to_owned()
    } else {
        let mut r = prefix.to_owned();
        r.append("/");
        r.append(p);
        r
    }
}

/// Where a file found while walking an imported skills directory goes, if it is a skill
/// file: its sanitized path under the prefix, and the name that path ends with.
pub fn merge_target(filename: &str, relative: &str, stem: Option<&str>, dir_name: Option<&str>, prefix: &str)
    -> (r: Option<MergeTarget>)
    ensures
        !is_skill_file(filename@) ==> r is None,
        is_skill_file(filename@) ==> (r matches Some(t)
            && t.path@ == under_prefix(prefix@, spec_sanitize_path(raw_merge_path(filename@, relative@, stem, dir_name)))
            && t.name@ == crate::tree::last_segment(t.path@)),
{
    let fc = chars_of(filename);
    let skill_md = String::from_str("SKILL.md");
    let is_skill_md = String::from_str(filename).eq(&skill_md);
    let md = chars_of(".md");
    let ends_md = crate::text::ends_with(&fc, &md);
    if !is_skill_md && !ends_md {
        return None;
    }
    let rel = slashes_forward(relative);
    let raw = if is_skill_md {
        if rel.as_str().is_empty() {
            match dir_name {
                Some(d) => d.to_owned(),
                None => String::from_str("imported"),
            }
        } else {
            rel
        }
    } else {
        let name = match stem {
            Some(x) => x.to_owned(),
            None => String::from_str("imported"),
        };
        if rel.as_str().is_empty() {
            name
        } else {
            let mut p = rel;
            p.append("/");
            p.append(name.as_str());
            p
        }
    };
    let clean = sanitize_path(raw.as_str());
    let path = place_under(prefix, clean.as_str());
    let name = crate::tree::skill_name_of(path.as_str());
    Some(MergeTarget { path, name })
}

/// Where a single imported file goes: its sanitized stem, under the prefix.
pub fn single_file_target(stem: &str, prefix: &str) -> (r: MergeTarget)
    ensures
        r.name@ == spec_sanitize_name(stem@),
        r.path@ == under_prefix(prefix@, spec_sanitize_name(stem@)),
{
    let name = sanitize_name(stem);
    let path = place_under(prefix, name.as_str());
    MergeTarget { path, name }
}

/// The line shown for an imported file whose path already has a live skill, if it does.
pub fn merge_skip(db: &Database, skill_path: &str) -> (r: Option<Line>)
    requires
        db@.wf(),
    ensures
        live_skill_at(db@.rows, skill_path@) is Some ==> (r matches Some(l) && l@ == tl("  skip: "@ + skill_path@ + " (already exists)"@)),
        live_skill_at(db@.rows, skill_path@) is None ==> r is None,
{
    if db.get_skill_by_path(skill_path).is_some() {
        let mut l = String::from_str("  skip: ");
        l.append(skill_path);
        l.append(" (already exists)");
        Some(text_line(l))
    } else {
        None
    }
}

/// The description an imported file is recorded with: the frontmatter's, or empty.
pub open spec fn imported_description(content: Seq<char>) -> Seq<char> {
    match spec_extract_description(content) {
        Some(d) => d,
        None => Seq::<char>::empty(),
    }
}

/// Records an imported skill file: its frontmatter description, its content hash, its
/// parent and a `merged` source. Returns the line to show.
pub fn merge_record(db: &mut Database, skill_path: &str, skill_name: &str, content: &str) -> (r: Result<Line, DbError>)
    requires
        old(db)@.wf(),
    ensures
        final(db)@.wf(),
        exists|id: Seq<char>, ver_id: Seq<char>, now: Seq<char>, res: Result<String, DbError>|
            is_v4_uuid_text(id) && is_v4_uuid_text(ver_id) && crate::db::is_utc_timestamp(now)
                && #[trigger] insert_skill_effect(old(db)@, final(db)@, res, id,
                ver_id, now, skill_name@, skill_path@, imported_description(content@),
                crate::tree::spec_parent_id(old(db)@.rows, skill_path@), "merged"@, crate::hash::spec_content_hash(content@))
            && (res matches Err(e) ==> (r matches Err(x) && x == e))
            && (res matches Ok(x) ==> (r matches Ok(l) && l@ == tl("  merge: "@ + skill_path@ + " ("@ + x@.take(8) + ")"@))),
{
    let description = match extract_description(content) {
        Some(d) => d,
        None => String::new(),
    };
    assert(description@ == imported_description(content@));
    let hash = crate::hash::content_hash(content);
    let parent_id = crate::tree::find_parent_id(db, skill_path);
    let parent_ref: Option<&str> = match &parent_id {
        Some(p) => Some(p.as_str()),
        None => None,
    };
    let res = db.insert_skill(skill_name, skill_path, description.as_str(), parent_ref, "merged", hash.as_str());
    let ghost (wid, wv, wn) = choose|i: Seq<char>, v: Seq<char>, n: Seq<char>| is_v4_uuid_text(i) && is_v4_uuid_text(v)
        && crate::db::is_utc_timestamp(n)
        && #[trigger] insert_skill_effect(old(db)@, db@, res, i, v, n, skill_name@, skill_path@, description@,
            opt_str_text(parent_ref), "merged"@, hash@);
    assert(opt_str_text(parent_ref) == crate::tree::spec_parent_id(old(db)@.rows, skill_path@));
    assert(insert_skill_effect(old(db)@, db@, res, wid, wv, wn, skill_name@, skill_path@, imported_description(content@),
        crate::tree::spec_parent_id(old(db)@.rows, skill_path@), "merged"@, crate::hash::spec_content_hash(content@)));
    let id = match res {
        Ok(id) => id,
        Err(e) => { return Err(e); },
    };
    let cs = chars_of(id.as_str());
    let short = slice_chars(&cs, 0, 8);
    let mut l = String::from_str("  merge: ");
    l.append(skill_path);
    l.append(" (");
    push_chars(&mut l, short.as_slice());
    l.append(")");
    assert(short@ =~= id@.take(8));
    Ok(text_line(l))
}

/// What merging shows at the end.
pub fn merge_summary(merged: u64, skipped: u64) -> (r: Vec<Line>)
    ensures
        lines_view(r@) == seq![tl(Seq::<char>::empty()), tl("Merged "@ + decimal(merged as nat) + " skill(s), skipped "@
            + decimal(skipped as nat) + " (already exist)"@)],
{
    let mut lines: Vec<Line> = Vec::new();
    push_text(&mut lines, String::new());
    let mut l = String::from_str("Merged ");
    l.append(count_text(merged).as_str());
    l.append(" skill(s), skipped ");
    l.append(count_text(skipped).as_str());
    l.append(" (already exist)");
    push_text(&mut lines, l);
    lines
}

/// The commit to make after merging `merged` skills from a source: none when nothing was
/// merged.
pub fn merge_commit_message(merged: u64, source: &str) -> (r: Option<String>)
    ensures
        merged == 0 ==> r is None,
        merged > 0 ==> (r matches Some(m) && m@ == "grove: merge "@ + decimal(merged as nat) + " skill(s) from "@ + source@),
{
    if merged == 0 {
        return None;
    }
    let mut m = String::from_str("grove: merge ");
    m.append(count_text(merged).as_str());
    m.append(" skill(s) from ");
    m.append(source);
    Some(m)
}

} // verus!
