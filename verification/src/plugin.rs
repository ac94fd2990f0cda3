//! The agent plugin that `sync` writes from the tree.
use vstd::prelude::*;
use vstd::string::StringExecFns;

use crate::db::Skill;
use crate::text::{chars_of, push_char, push_chars, string_from_chars};

verus! {

/// What `serde_json::to_string_pretty` writes for a JSON object with the given keys and
/// string values (serde_json writes an object's members with their keys in sorted order).
pub uninterp spec fn spec_pretty_json_object(entries: Seq<(Seq<char>, Seq<char>)>) -> Seq<char>;

#[verifier::external_type_specification]
#[verifier::external_body]
pub struct ExJsonError(serde_json::Error);

/// `serde_json::to_string_pretty` of an object of three string members: the text is named
/// by `spec_pretty_json_object`; it does not fail, since a `serde_json::Value` whose keys
/// are strings always serializes and writing to memory does not fail.
#[verifier::external_body]
fn pretty_json_object(k0: &str, v0: &str, k1: &str, v1: &str, k2: &str, v2: &str) -> (r: Result<String, serde_json::Error>)
    ensures
        r is Ok,
        r is Ok ==> r->Ok_0@ == spec_pretty_json_object(seq![(k0@, v0@), (k1@, v1@), (k2@, v2@)]),
{
    let mut m = serde_json::Map::new();
    m.insert(k0.to_string(), serde_json::Value::String(v0.to_string()));
    m.insert(k1.to_string(), serde_json::Value::String(v1.to_string()));
    m.insert(k2.to_string(), serde_json::Value::String(v2.to_string()));
    serde_json::to_string_pretty(&serde_json::Value::Object(m))
}

/// The members of the plugin manifest.
pub open spec fn manifest_entries() -> Seq<(Seq<char>, Seq<char>)> {
    seq![
        ("name"@, "grove-skills"@),
        ("description"@, "Skills managed by Grove \u{2014} the self-evolving skill tree"@),
        ("version"@, "0.1.0"@),
    ]
}

/// The text of the plugin manifest file, `plugin.json`.
pub fn plugin_manifest() -> (r: String)
    ensures
        r@ == spec_pretty_json_object(manifest_entries()),
{
    let res = pretty_json_object("name", "grove-skills", "description",
        "Skills managed by Grove \u{2014} the self-evolving skill tree", "version", "0.1.0");
    match res {
        Ok(s) => s,
        Err(_) => String::new(),
    }
}

/// `s` with every `a` replaced by `b`.
pub open spec fn replace_char(s: Seq<char>, a: char, b: char) -> Seq<char> {
    s.map_values(|c: char| if c == a { b } else { c })
}

/// The file name a skill is synced to: its path with slashes turned into hyphens when it
/// has any, else its name; then `.md`.
pub open spec fn sync_file_name(path: Seq<char>, name: Seq<char>) -> Seq<char> {
    if path.contains('/') {
        replace_char(path, '/', '-') + ".md"@
    } else {
        name + ".md"@
    }
}

/// The file name `skill` is synced to.
pub fn sync_target_name(skill: &Skill) -> (r: String)
    ensures
        r@ == sync_file_name(skill.path@, skill.name@),
{
    let cs = chars_of(skill.path.as_str());
    let mut has_slash = false;
    let mut replaced: Vec<char> = Vec::new();
    let mut i: usize = 0;
    while i < cs.len()
        invariant
            cs@ == skill.path@,
            i <= cs.len(),
            has_slash == cs@.take(i as int).contains('/'),
            replaced@ == replace_char(cs@.take(i as int), '/', '-'),
        decreases cs.len() - i,
    {
        assert(cs@.take(i + 1) =~= cs@.take(i as int).push(cs@[i as int]));
        if cs[i] == '/' {
            has_slash = true;
            replaced.push('-');
            assert(cs@.take(i + 1)[i as int] == '/');
        } else {
            replaced.push(cs[i]);
            assert(cs@.take(i + 1).contains('/') ==> cs@.take(i as int).contains('/')) by {
                if cs@.take(i + 1).contains('/') {
                    let k = choose|k: int| 0 <= k < i + 1 && #[trigger] cs@.take(i + 1)[k] == '/';
                    assert(k < i);
                    assert(cs@.take(i as int)[k] == '/');
                }
            }
        }
        assert(replaced@ =~= replace_char(cs@.take(i + 1), '/', '-'));
        i = i + 1;
    }
    assert(cs@.take(cs.len() as int) =~= cs@);
    if has_slash {
        let mut r = string_from_chars(replaced.as_slice());
        r.append(".md");
        r
    } else {
        let mut r = skill.name.clone();
        r.append(".md");
        r
    }
}

} // verus!
