//! What is known of the files that a decision looks at.

use crate::path;
use crate::path::{paths_equal, PathStyle};
use crate::text::text_eq;
use vstd::prelude::*;

verus! {

/// What stands at a path.
#[derive(Debug, Clone, Copy, PartialEq, Eq, Structural)]
pub enum EntryKind {
    Missing,
    File,
    Other,
}

/// What was found at one path.
#[derive(Debug, Clone)]
pub struct PathFact {
    pub path: String,
    pub kind: EntryKind,
}

/// What was found at the paths that were looked at. A path that was not looked at counts as
/// missing.
#[derive(Debug, Clone)]
pub struct FileFacts {
    pub entries: Vec<PathFact>,
}

/// The kind that the first entry for `path` gives.
pub open spec fn lookup(entries: Seq<PathFact>, path: Seq<char>) -> EntryKind
    decreases entries.len(),
{
    if entries.len() == 0 {
        EntryKind::Missing
    } else if entries[0].path@ == path {
        entries[0].kind
    } else {
        lookup(entries.drop_first(), path)
    }
}

impl View for FileFacts {
    type V = spec_fn(Seq<char>) -> EntryKind;

    open spec fn view(&self) -> spec_fn(Seq<char>) -> EntryKind {
        |path: Seq<char>| lookup(self.entries@, path)
    }
}

impl FileFacts {
    /// What stands at `path`.
    pub fn kind(&self, path: &str) -> (r: EntryKind)
        ensures
            r == (self@)(path@),
    {
        let mut i: usize = 0;
        assert(self.entries@.skip(0) =~= self.entries@);
        while i < self.entries.len()
            invariant
                i <= self.entries.len(),
                lookup(self.entries@, path@) == lookup(self.entries@.skip(i as int), path@),
            decreases self.entries.len() - i,
        {
            let ghost rest = self.entries@.skip(i as int);
            assert(rest[0] == self.entries@[i as int]);
            if text_eq(self.entries[i].path.as_str(), path) {
                return self.entries[i].kind;
            }
            assert(rest.drop_first() =~= self.entries@.skip(i + 1));
            i = i + 1;
        }
        EntryKind::Missing
    }

    /// Whether anything stands at `path`.
    pub fn has_entry(&self, path: &str) -> (r: bool)
        ensures
            r == ((self@)(path@) != EntryKind::Missing),
    {
        self.kind(path) != EntryKind::Missing
    }
}

/// Two paths refer to the same file when their canonical forms agree; where one of them has
/// no canonical form, the paths themselves are compared.
pub open spec fn same_file(
    style: PathStyle,
    left: Seq<char>,
    right: Seq<char>,
    left_canonical: Option<Seq<char>>,
    right_canonical: Option<Seq<char>>,
) -> bool {
    match (left_canonical, right_canonical) {
        (Some(l), Some(r)) => path::same_path(style, l, r),
        _ => path::same_path(style, left, right),
    }
}

/// Whether two paths refer to the same file, given the canonical forms that the file system
/// gave for them.
pub fn paths_refer_to_same_file(
    style: PathStyle,
    left: &str,
    right: &str,
    left_canonical: &Option<String>,
    right_canonical: &Option<String>,
) -> (r: bool)
    ensures
        r == same_file(
            style,
            left@,
            right@,
            left_canonical.deep_view(),
            right_canonical.deep_view(),
        ),
{
    match (left_canonical, right_canonical) {
        (Some(l), Some(r)) => paths_equal(style, l.as_str(), r.as_str()),
        _ => paths_equal(style, left, right),
    }
}

/// What stands at a path is what the first entry for it says; a path without an entry is missing.
pub proof fn the_first_entry_for_a_path_counts(
    before: Seq<PathFact>,
    fact: PathFact,
    after: Seq<PathFact>,
    path: Seq<char>,
)
    requires
        forall|i: int| 0 <= i < before.len() ==> (#[trigger] before[i]).path@ != path,
    ensures
        lookup(before, path) == EntryKind::Missing,
        fact.path@ == path ==> lookup(before + seq![fact] + after, path) == fact.kind,
    decreases before.len(),
{
    let all = before + seq![fact] + after;
    if before.len() > 0 {
        let rest = before.drop_first();
        assert forall|i: int| 0 <= i < rest.len() implies (#[trigger] rest[i]).path@ != path by {
            assert(rest[i] == before[i + 1]);
        }
        assert(before[0].path@ != path);
        the_first_entry_for_a_path_counts(rest, fact, after, path);
        assert(all.drop_first() =~= rest + seq![fact] + after);
        assert(all[0] == before[0]);
    } else {
        assert(all[0] == fact);
    }
}

/// Two paths whose canonical forms are known are the same file where those are the same path,
/// whatever the paths look like; where one has no canonical form, the paths themselves decide.
pub proof fn canonical_forms_decide(
    style: PathStyle,
    left: Seq<char>,
    right: Seq<char>,
    left_canonical: Option<Seq<char>>,
    right_canonical: Option<Seq<char>>,
)
    ensures
        left_canonical is Some && right_canonical is Some ==> (same_file(
            style,
            left,
            right,
            left_canonical,
            right_canonical,
        ) <==> path::same_path(style, left_canonical->0, right_canonical->0)),
        left_canonical is None || right_canonical is None ==> (same_file(
            style,
            left,
            right,
            left_canonical,
            right_canonical,
        ) <==> path::same_path(style, left, right)),
        same_file(style, left, right, left_canonical, right_canonical) == same_file(
            style,
            right,
            left,
            right_canonical,
            left_canonical,
        ),
        same_file(style, left, left, left_canonical, left_canonical),
{
}

} // verus!
