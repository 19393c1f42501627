//! The filter policy: which paths are noise that a scan leaves out, and which
//! entries are user content that a ranking puts first.

use crate::lexical::{
    contains, ends_with, find_from, folded, has_suffix, last_component, last_component_index,
    occurs_at, occurs_in,
};
use vstd::prelude::*;
use vstd::slice::slice_subrange;
use vstd::string::StringSliceAdditionalSpecFns;

verus! {

/// How a pattern is held against a path.
#[derive(Clone, Copy, Debug, PartialEq, Eq, Structural)]
pub enum PatternKind {
    /// The path ends with the pattern's text.
    Suffix,
    /// The pattern's text stands somewhere in the path.
    Substring,
}

/// One entry of the noise table.
#[derive(Clone, Copy, Debug)]
pub struct Pattern {
    pub kind: PatternKind,
    pub text: &'static str,
}

/// The weight of an entry whose name marks it as user content.
pub const PRIORITY_ELEVATED: u32 = 10;

/// The weight of every other entry.
pub const PRIORITY_BASELINE: u32 = 1;

/// The noise table, in the order in which it is tried: for each low-value
/// directory name the path that ends in it and the path that leads through it.
/// Dependency trees come first, then version-control metadata, interpreter
/// and build caches, IDE state, and build output.
pub open spec fn noise_patterns() -> Seq<Pattern> {
    seq![
        Pattern { kind: PatternKind::Suffix, text: "/node_modules" },
        Pattern { kind: PatternKind::Substring, text: "/node_modules/" },
        Pattern { kind: PatternKind::Suffix, text: "/bower_components" },
        Pattern { kind: PatternKind::Substring, text: "/bower_components/" },
        Pattern { kind: PatternKind::Suffix, text: "/.git" },
        Pattern { kind: PatternKind::Substring, text: "/.git/" },
        Pattern { kind: PatternKind::Suffix, text: "/.svn" },
        Pattern { kind: PatternKind::Substring, text: "/.svn/" },
        Pattern { kind: PatternKind::Suffix, text: "/.hg" },
        Pattern { kind: PatternKind::Substring, text: "/.hg/" },
        Pattern { kind: PatternKind::Suffix, text: "/__pycache__" },
        Pattern { kind: PatternKind::Substring, text: "/__pycache__/" },
        Pattern { kind: PatternKind::Suffix, text: "/.cache" },
        Pattern { kind: PatternKind::Substring, text: "/.cache/" },
        Pattern { kind: PatternKind::Suffix, text: "/.gradle" },
        Pattern { kind: PatternKind::Substring, text: "/.gradle/" },
        Pattern { kind: PatternKind::Suffix, text: "/.idea" },
        Pattern { kind: PatternKind::Substring, text: "/.idea/" },
        Pattern { kind: PatternKind::Suffix, text: "/.vscode" },
        Pattern { kind: PatternKind::Substring, text: "/.vscode/" },
        Pattern { kind: PatternKind::Suffix, text: "/target" },
        Pattern { kind: PatternKind::Substring, text: "/target/" },
        Pattern { kind: PatternKind::Suffix, text: "/build" },
        Pattern { kind: PatternKind::Substring, text: "/build/" },
        Pattern { kind: PatternKind::Suffix, text: "/dist" },
        Pattern { kind: PatternKind::Substring, text: "/dist/" },
    ]
}

/// The names that mark user content, in lower case.
pub open spec fn content_names() -> Seq<&'static str> {
    seq!["downloads", "documents", "desktop", "pictures", "movies", "music", "videos"]
}

/// Whether `pattern` matches the path with bytes `path`.
pub open spec fn pattern_matches(path: Seq<u8>, pattern: Pattern) -> bool {
    match pattern.kind {
        PatternKind::Suffix => ends_with(path, pattern.text.spec_bytes()),
        PatternKind::Substring => occurs_in(path, pattern.text.spec_bytes()),
    }
}

/// Whether some entry of the noise table matches `path`.
pub open spec fn is_noise(path: Seq<u8>) -> bool {
    exists|i: int|
        0 <= i < noise_patterns().len() && pattern_matches(path, #[trigger] noise_patterns()[i])
}

/// Whether the last component of `path`, folded to lower case, holds one of
/// the content names.
pub open spec fn is_user_content(path: Seq<u8>) -> bool {
    exists|i: int|
        0 <= i < content_names().len() && occurs_in(
            folded(last_component(path), true),
            (#[trigger] content_names()[i]).spec_bytes(),
        )
}

/// The weight of the entry at `path`.
pub open spec fn priority_of(path: Seq<u8>) -> u32 {
    if is_user_content(path) {
        PRIORITY_ELEVATED
    } else {
        PRIORITY_BASELINE
    }
}

/// The noise table.
pub fn noise_table() -> (table: Vec<Pattern>)
    ensures
        table@ == noise_patterns(),
{
    let mut table: Vec<Pattern> = Vec::new();
    table.push(Pattern { kind: PatternKind::Suffix, text: "/node_modules" });
    table.push(Pattern { kind: PatternKind::Substring, text: "/node_modules/" });
    table.push(Pattern { kind: PatternKind::Suffix, text: "/bower_components" });
    table.push(Pattern { kind: PatternKind::Substring, text: "/bower_components/" });
    table.push(Pattern { kind: PatternKind::Suffix, text: "/.git" });
    table.push(Pattern { kind: PatternKind::Substring, text: "/.git/" });
    table.push(Pattern { kind: PatternKind::Suffix, text: "/.svn" });
    table.push(Pattern { kind: PatternKind::Substring, text: "/.svn/" });
    table.push(Pattern { kind: PatternKind::Suffix, text: "/.hg" });
    table.push(Pattern { kind: PatternKind::Substring, text: "/.hg/" });
    table.push(Pattern { kind: PatternKind::Suffix, text: "/__pycache__" });
    table.push(Pattern { kind: PatternKind::Substring, text: "/__pycache__/" });
    table.push(Pattern { kind: PatternKind::Suffix, text: "/.cache" });
    table.push(Pattern { kind: PatternKind::Substring, text: "/.cache/" });
    table.push(Pattern { kind: PatternKind::Suffix, text: "/.gradle" });
    table.push(Pattern { kind: PatternKind::Substring, text: "/.gradle/" });
    table.push(Pattern { kind: PatternKind::Suffix, text: "/.idea" });
    table.push(Pattern { kind: PatternKind::Substring, text: "/.idea/" });
    table.push(Pattern { kind: PatternKind::Suffix, text: "/.vscode" });
    table.push(Pattern { kind: PatternKind::Substring, text: "/.vscode/" });
    table.push(Pattern { kind: PatternKind::Suffix, text: "/target" });
    table.push(Pattern { kind: PatternKind::Substring, text: "/target/" });
    table.push(Pattern { kind: PatternKind::Suffix, text: "/build" });
    table.push(Pattern { kind: PatternKind::Substring, text: "/build/" });
    table.push(Pattern { kind: PatternKind::Suffix, text: "/dist" });
    table.push(Pattern { kind: PatternKind::Substring, text: "/dist/" });
    assert(table@ =~= noise_patterns());
    table
}

/// The content names.
pub fn content_table() -> (table: Vec<&'static str>)
    ensures
        table@ == content_names(),
{
    let mut table: Vec<&'static str> = Vec::new();
    table.push("downloads");
    table.push("documents");
    table.push("desktop");
    table.push("pictures");
    table.push("movies");
    table.push("music");
    table.push("videos");
    assert(table@ =~= content_names());
    table
}

/// Whether `pattern` matches the path with bytes `path`.
pub fn matches_pattern(path: &[u8], pattern: &Pattern) -> (matched: bool)
    ensures
        matched == pattern_matches(path@, *pattern),
{
    match pattern.kind {
        PatternKind::Suffix => has_suffix(path, pattern.text.as_bytes()),
        PatternKind::Substring => contains(path, pattern.text.as_bytes()),
    }
}

/// Whether the noise table matches `path`, whatever the policy.
pub fn matches_noise(path: &str) -> (noise: bool)
    ensures
        noise == is_noise(path.spec_bytes()),
{
    let bytes = path.as_bytes();
    let table = noise_table();
    let mut i: usize = 0;
    while i < table.len()
        invariant
            i <= table.len(),
            table@ == noise_patterns(),
            bytes@ == path.spec_bytes(),
            forall|k: int| 0 <= k < i ==> !pattern_matches(bytes@, #[trigger] noise_patterns()[k]),
        decreases table.len() - i,
    {
        if matches_pattern(bytes, &table[i]) {
            return true;
        }
        i += 1;
    }
    false
}

/// The weight of the entry at `path`: elevated where the last component names
/// user content, baseline otherwise.
pub fn priority(path: &str) -> (weight: u32)
    ensures
        weight == priority_of(path.spec_bytes()),
{
    let bytes = path.as_bytes();
    let start = last_component_index(bytes);
    let name = slice_subrange(bytes, start, bytes.len());
    let table = content_table();
    let mut i: usize = 0;
    while i < table.len()
        invariant
            i <= table.len(),
            table@ == content_names(),
            name@ == last_component(path.spec_bytes()),
            forall|k: int|
                0 <= k < i ==> !occurs_in(
                    folded(name@, true),
                    (#[trigger] content_names()[k]).spec_bytes(),
                ),
        decreases table.len() - i,
    {
        let needle = table[i].as_bytes();
        if find_from(name, needle, 0, true) {
            return PRIORITY_ELEVATED;
        }
        proof {
            if occurs_in(folded(name@, true), needle@) {
                let at = choose|at: int| occurs_at(folded(name@, true), needle@, at);
                assert(0 <= at && occurs_at(folded(name@, true), needle@, at));
            }
        }
        i += 1;
    }
    PRIORITY_BASELINE
}

/// The smart filter: the noise table behind a switch.
#[derive(Clone, Copy, Debug)]
pub struct FilterPolicy {
    pub enabled: bool,
}

impl FilterPolicy {
    /// Whether this policy leaves out the path with bytes `path`.
    pub open spec fn skips(self, path: Seq<u8>) -> bool {
        self.enabled && is_noise(path)
    }

    /// A policy that filters when `enabled` is set.
    pub fn new(enabled: bool) -> (policy: FilterPolicy)
        ensures
            policy.enabled == enabled,
    {
        FilterPolicy { enabled }
    }

    /// Whether `path` is left out: the policy is enabled and the noise table
    /// matches. The match is on the text of the path alone, so a file whose
    /// name matches is left out like a directory.
    pub fn should_skip(&self, path: &str) -> (skip: bool)
        ensures
            skip == self.skips(path.spec_bytes()),
    {
        self.enabled && matches_noise(path)
    }
}

impl Default for FilterPolicy {
    /// The policy of a caller that says nothing: filtering is on.
    fn default() -> (policy: FilterPolicy)
        ensures
            policy.enabled,
    {
        FilterPolicy { enabled: true }
    }
}

/// The decision on a path depends on the policy and the path alone: whatever
/// two calls return for one policy and one path, they return the same.
pub proof fn lemma_skip_is_a_function(policy: FilterPolicy, path: Seq<u8>, first: bool, second: bool)
    requires
        first == policy.skips(path),
        second == policy.skips(path),
    ensures
        first == second,
{
}

/// A disabled policy leaves out nothing.
pub proof fn lemma_disabled_skips_nothing(policy: FilterPolicy, path: Seq<u8>)
    requires
        !policy.enabled,
    ensures
        !policy.skips(path),
{
}

} // verus!
