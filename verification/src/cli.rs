//! The command line: the commands of the grove and where the grove lives.
use vstd::prelude::*;
use vstd::string::StringExecFns;

use crate::text::has_suffix;

verus! {

#[verifier::external_type_specification]
#[verifier::external_body]
pub struct ExPathBuf(std::path::PathBuf);

/// The command line: an optional grove location and a command.
pub struct Cli {
    /// Path to the grove (default: ~/.grove).
    pub grove: Option<std::path::PathBuf>,
    pub command: Command,
}

/// The commands of the grove.
pub enum Command {
    /// Plant a new grove (initialize skill tree).
    Init { path: Option<std::path::PathBuf> },
    /// Visualize the skill tree.
    Tree { depth: Option<usize>, stats: bool },
    /// Grow a new skill at a position in the tree.
    Grow { path: String, description: Option<String>, from: Option<String> },
    /// Display a skill's content and metadata.
    Show { path: String },
    /// List all skills.
    List { flat: bool },
    /// Record a usage observation for a skill.
    Observe { path: String, outcome: String, context: Option<String>, suggestion: Option<String> },
    /// Merge external skills into the grove tree.
    Merge { source: std::path::PathBuf, into: Option<String> },
    /// Usage and health dashboard.
    Health { path: Option<String> },
    /// Overall grove statistics.
    Stats,
    /// Prune (remove/archive) a skill.
    Prune { path: String, archive: bool },
    /// Show version history of a skill's evolution.
    History { path: String },
    /// Trigger evolution of a skill based on observations.
    Evolve { path: String, dry_run: bool },
    /// Generate the plugin manifest from the grove tree.
    Sync { output: Option<String> },
}

/// Where the grove lives.
pub enum GrovePath {
    /// The path given with `--grove`.
    Given,
    /// A path written as text.
    Text(String),
}

/// `.grove` joined onto a directory path, as `Path::join` does with `/` separators.
pub open spec fn join_grove_dir(dir: Seq<char>) -> Seq<char> {
    if dir.len() == 0 {
        ".grove"@
    } else if has_suffix(dir, "/"@) {
        dir + ".grove"@
    } else {
        dir + "/.grove"@
    }
}

/// The grove location: the `--grove` flag, else `GROVE_PATH`, else `.grove` in the home
/// directory, else in the current directory.
pub open spec fn spec_grove_path(given: bool, env_grove_path: Option<String>, home: Option<String>) -> Option<Seq<char>> {
    if given {
        None
    } else {
        match env_grove_path {
            Some(p) => Some(p@),
            None => match home {
                Some(h) => Some(join_grove_dir(h@)),
                None => Some("./.grove"@),
            },
        }
    }
}

impl Cli {
    /// Where the grove lives, given the `GROVE_PATH` and `HOME` variables.
    pub fn grove_path(&self, env_grove_path: Option<String>, home: Option<String>) -> (r: GrovePath)
        ensures
            self.grove is Some ==> r is Given,
            self.grove is None ==> (r matches GrovePath::Text(t)
                && Some(t@) == spec_grove_path(false, env_grove_path, home)),
    {
        if self.grove.is_some() {
            return GrovePath::Given;
        }
        match env_grove_path {
            Some(p) => GrovePath::Text(p),
            None => match home {
                Some(h) => {
                    let hc = crate::text::chars_of(h.as_str());
                    let slash = crate::text::chars_of("/");
                    if hc.len() == 0 {
                        GrovePath::Text(String::from_str(".grove"))
                    } else if crate::text::ends_with(&hc, &slash) {
                        let mut r = h.clone();
                        r.append(".grove");
                        GrovePath::Text(r)
                    } else {
                        let mut r = h.clone();
                        r.append("/.grove");
                        GrovePath::Text(r)
                    }
                },
                None => GrovePath::Text(String::from_str("./.grove")),
            },
        }
    }
}

} // verus!
