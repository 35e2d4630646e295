//! What the walk below a source directory does with each entry it meets.
use vstd::prelude::*;

use crate::pathname::{components, path_components, Component, ComponentView};
use crate::text::{chars_eq, chars_of, string_views};

verus! {

/// The kind of file an entry is, as its metadata (without following links) reports it.
#[derive(Debug, Clone, Copy, PartialEq, Eq, Structural)]
pub enum EntryKind {
    Dir,
    File,
    Symlink,
    Other,
}

/// The kinds of I/O failure the walk tells apart.
#[derive(Debug, Clone, Copy, PartialEq, Eq, Structural)]
pub enum FailureKind {
    PermissionDenied,
    Other,
}

/// What the walk does with an entry.
#[derive(Debug, Clone, Copy, PartialEq, Eq, Structural)]
pub enum EntryStep {
    /// Leave it out of the archive.
    Skip,
    /// Add it as a directory and walk below it.
    AddDir,
    /// Add it as a regular file.
    AddFile,
    /// Add the link itself, not its target.
    AddSymlink,
}

/// Whether the relative path `rel` (its names below the source) has a component that one
/// of the `exclude` entries names, compared as paths.
pub open spec fn excluded(rel: Seq<Seq<char>>, exclude: Seq<Seq<char>>) -> bool {
    exists|i: int, j: int|
        0 <= i < exclude.len() && 0 <= j < rel.len() && #[trigger] path_components(exclude[i])
            == seq![ComponentView::Normal(#[trigger] rel[j])]
}

/// What the walk does with an entry at `rel` below the source, of kind `kind`.
pub open spec fn entry_step(rel: Seq<Seq<char>>, exclude: Seq<Seq<char>>, kind: EntryKind) -> EntryStep {
    if excluded(rel, exclude) {
        EntryStep::Skip
    } else {
        match kind {
            EntryKind::Dir => EntryStep::AddDir,
            EntryKind::File => EntryStep::AddFile,
            EntryKind::Symlink => EntryStep::AddSymlink,
            EntryKind::Other => EntryStep::Skip,
        }
    }
}

/// Whether a failure to read, stat or open something below a source is passed over rather
/// than ending the run: only a denied permission is.
pub open spec fn passed_over(kind: FailureKind) -> bool {
    kind == FailureKind::PermissionDenied
}

/// Whether `name` is the one normal component of the path whose components are `cs`.
fn names_single_component(cs: &Vec<Component>, name: &Vec<char>) -> (r: bool)
    ensures
        r == (crate::pathname::views(cs@) == seq![ComponentView::Normal(name@)]),
{
    if cs.len() != 1 {
        return false;
    }
    match &cs[0] {
        Component::Normal(v) => {
            let eq = chars_eq(v, name);
            if !eq {
                assert(crate::pathname::views(cs@)[0] != ComponentView::Normal(name@));
            } else {
                assert(crate::pathname::views(cs@) =~= seq![ComponentView::Normal(name@)]);
            }
            eq
        },
        _ => {
            assert(crate::pathname::views(cs@)[0] != ComponentView::Normal(name@));
            false
        },
    }
}

/// Whether the relative path with the names `rel` has a component that an `exclude` entry
/// names.
pub fn is_excluded(rel: &Vec<String>, exclude: &Vec<String>) -> (r: bool)
    ensures
        r == excluded(string_views(rel@), string_views(exclude@)),
{
    let ghost rv = string_views(rel@);
    let ghost ev = string_views(exclude@);
    let ne = exclude.len();
    let nr = rel.len();
    for i in 0..ne
        invariant
            ne == exclude.len(),
            nr == rel.len(),
            rv == string_views(rel@),
            ev == string_views(exclude@),
            forall|a: int, b: int|
                0 <= a < i && 0 <= b < nr ==> path_components(ev[a]) != seq![
                    ComponentView::Normal(rv[b]),
                ],
    {
        let ex = chars_of(exclude[i].as_str());
        let cs = components(&ex);
        for j in 0..nr
            invariant
                ne == exclude.len(),
                nr == rel.len(),
                i < ne,
                rv == string_views(rel@),
                ev == string_views(exclude@),
                crate::pathname::views(cs@) == path_components(ev[i as int]),
                forall|a: int, b: int|
                    0 <= a < i && 0 <= b < nr ==> path_components(ev[a]) != seq![
                        ComponentView::Normal(rv[b]),
                    ],
                forall|b: int|
                    0 <= b < j ==> path_components(ev[i as int]) != seq![
                        ComponentView::Normal(rv[b]),
                    ],
        {
            let name = chars_of(rel[j].as_str());
            if names_single_component(&cs, &name) {
                assert(path_components(ev[i as int]) == seq![ComponentView::Normal(rv[j as int])]);
                return true;
            }
        }
    }
    false
}

/// What the walk does with an entry at `rel` below the source, of kind `kind`.
pub fn decide_entry(rel: &Vec<String>, exclude: &Vec<String>, kind: EntryKind) -> (s: EntryStep)
    ensures
        s == entry_step(string_views(rel@), string_views(exclude@), kind),
{
    if is_excluded(rel, exclude) {
        EntryStep::Skip
    } else {
        match kind {
            EntryKind::Dir => EntryStep::AddDir,
            EntryKind::File => EntryStep::AddFile,
            EntryKind::Symlink => EntryStep::AddSymlink,
            EntryKind::Other => EntryStep::Skip,
        }
    }
}

/// Whether a failure of the given kind below a source is passed over.
pub fn is_passed_over(kind: FailureKind) -> (r: bool)
    ensures
        r == passed_over(kind),
{
    match kind {
        FailureKind::PermissionDenied => true,
        FailureKind::Other => false,
    }
}

/// No excluded entry is ever added to the archive, whatever its kind.
pub proof fn lemma_excluded_never_added(rel: Seq<Seq<char>>, exclude: Seq<Seq<char>>, kind: EntryKind)
    requires
        excluded(rel, exclude),
    ensures
        entry_step(rel, exclude, kind) == EntryStep::Skip,
{
}

/// Exclusion applies below: an entry under an excluded directory is excluded too.
pub proof fn lemma_exclusion_inherited(rel: Seq<Seq<char>>, name: Seq<char>, exclude: Seq<Seq<char>>)
    requires
        excluded(rel, exclude),
    ensures
        excluded(rel.push(name), exclude),
{
    let (i, j) = choose|i: int, j: int|
        0 <= i < exclude.len() && 0 <= j < rel.len() && #[trigger] path_components(exclude[i])
            == seq![ComponentView::Normal(#[trigger] rel[j])];
    assert(rel.push(name)[j] == rel[j]);
}

} // verus!
