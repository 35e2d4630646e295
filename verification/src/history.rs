//! Whole backup runs: the states a run passes through when the operations it asks for have
//! given outcomes, and what holds of every such history.
use vstd::prelude::*;

use crate::backup::{
    final_path, in_walk, lemma_step_keeps_configuration, lemma_step_keeps_invariant, next, run_inv, FrameView, OpView, OutcomeView,
    RunView, StageView, StateFile,
};
use crate::pathname::{below_root, child_path, component_texts, joined};
use crate::walk::{excluded, EntryKind, FailureKind};

verus! {

/// The states a run passes through from `v` when the operations it asks for have the outcomes
/// `os`, in order: `v` first, then the state after each outcome.
pub open spec fn states(v: RunView, os: Seq<OutcomeView>) -> Seq<RunView>
    decreases os.len(),
{
    if os.len() == 0 {
        seq![v]
    } else {
        let s = states(v, os.drop_last());
        s.push(next(s.last(), os.last()).0)
    }
}

/// Each state of a history follows from the one before by the outcome between them.
pub proof fn lemma_states_step(v: RunView, os: Seq<OutcomeView>)
    ensures
        states(v, os).len() == os.len() + 1,
        states(v, os)[0] == v,
        forall|i: int|
            0 < i < states(v, os).len() ==> #[trigger] states(v, os)[i] == next(
                states(v, os)[i - 1],
                os[i - 1],
            ).0,
    decreases os.len(),
{
    if os.len() > 0 {
        let p = os.drop_last();
        lemma_states_step(v, p);
        let s = states(v, os);
        assert forall|i: int| 0 < i < s.len() implies #[trigger] s[i] == next(s[i - 1], os[i - 1]).0 by {
            if i < s.len() - 1 {
                assert(states(v, p)[i] == next(states(v, p)[i - 1], p[i - 1]).0);
            }
        }
    }
}

/// Every state of a history that starts from a state meeting `run_inv` meets it.
pub proof fn lemma_states_keep_invariant(v: RunView, os: Seq<OutcomeView>)
    requires
        run_inv(v),
    ensures
        forall|i: int| 0 <= i < states(v, os).len() ==> run_inv(#[trigger] states(v, os)[i]),
{
    lemma_states_step(v, os);
    let s = states(v, os);
    assert forall|i: int| 0 <= i < s.len() implies run_inv(#[trigger] s[i]) by {
        lemma_invariant_at(v, os, i);
    }
}

proof fn lemma_invariant_at(v: RunView, os: Seq<OutcomeView>, i: int)
    requires
        run_inv(v),
        0 <= i < states(v, os).len(),
    ensures
        run_inv(states(v, os)[i]),
    decreases i,
{
    lemma_states_step(v, os);
    if i > 0 {
        lemma_invariant_at(v, os, i - 1);
        lemma_step_keeps_invariant(states(v, os)[i - 1], os[i - 1]);
    }
}

/// Once a run has ended, every later state of its history is the same.
pub proof fn lemma_finished_stays_in_history(v: RunView, os: Seq<OutcomeView>, i: int, j: int)
    requires
        0 <= i <= j < states(v, os).len(),
        states(v, os)[i].stage is Finished,
    ensures
        states(v, os)[j] == states(v, os)[i],
    decreases j - i,
{
    lemma_states_step(v, os);
    if i < j {
        lemma_finished_stays_in_history(v, os, i, j - 1);
        assert(states(v, os)[j] == next(states(v, os)[j - 1], os[j - 1]).0);
    }
}

/// Whether `o` reports that a plain operation succeeded.
pub open spec fn succeeded(o: OutcomeView) -> bool {
    o is Done
}

/// The steps that come before the last-backup file is renamed into place at position `k` of
/// the history, given that the destination listing was read at position `l`: the three
/// layers of the archive were finished, the archive was synced and renamed into place under
/// the run's archive name, the destination directory synced, the listing read, every
/// deletion it called for done, and the state directory and the last-backup file's
/// temporary copy created, written and synced, each succeeding, in that order and one right
/// after the other.
pub open spec fn archive_done_before(s: Seq<RunView>, os: Seq<OutcomeView>, l: int, k: int) -> bool {
    let d = s[k].deletions.len() as int;
    &&& 6 <= l
    &&& k == l + d + 5
    &&& s[l - 6].stage is AwaitFinishTar && succeeded(os[l - 6])
    &&& s[l - 5].stage is AwaitFinishCompression && succeeded(os[l - 5])
    &&& s[l - 4].stage is AwaitFinishEncryption && succeeded(os[l - 4])
    &&& s[l - 3].stage is AwaitSync && succeeded(os[l - 3])
    &&& s[l - 2].stage is AwaitRename && succeeded(os[l - 2])
    &&& final_path(s[l - 2]) == final_path(s[k])
    &&& s[l - 1].stage is AwaitSyncDir && succeeded(os[l - 1])
    &&& s[l].stage is AwaitListing && os[l] is Listing
    &&& s[l + 1].deletions == s[k].deletions
    &&& forall|m: int|
        0 <= m < d ==> #[trigger] s[l + 1 + m].stage == (StageView::AwaitRemove { index: m })
            && succeeded(os[l + 1 + m])
    &&& s[l + d + 1].stage is AwaitStateDir && succeeded(os[l + d + 1])
    &&& s[l + d + 2].stage == (StageView::AwaitStateOpen { file: StateFile::LastBackup })
        && succeeded(os[l + d + 2])
    &&& s[l + d + 3].stage == (StageView::AwaitStateWrite { file: StateFile::LastBackup })
        && succeeded(os[l + d + 3])
    &&& s[l + d + 4].stage == (StageView::AwaitStateSync { file: StateFile::LastBackup })
        && succeeded(os[l + d + 4])
}

/// What one step back from a state in the part of the run that ends the archive and records
/// the backup shows: which state and which outcome led to it.
pub open spec fn step_back_facts(u: RunView, o: OutcomeView) -> bool {
    let w = after(u, o);
    &&& w.stage is AwaitFinishCompression ==> u.stage is AwaitFinishTar && succeeded(o)
    &&& w.stage is AwaitFinishEncryption ==> u.stage is AwaitFinishCompression && succeeded(o)
    &&& w.stage is AwaitSync ==> u.stage is AwaitFinishEncryption && succeeded(o)
    &&& w.stage is AwaitRename ==> u.stage is AwaitSync && succeeded(o)
    &&& w.stage is AwaitSyncDir ==> u.stage is AwaitRename && succeeded(o)
    &&& w.stage is AwaitListing ==> u.stage is AwaitSyncDir && succeeded(o)
    &&& w.stage is AwaitRemove ==> (w.stage->AwaitRemove_index == 0 && u.stage is AwaitListing
        && o is Listing) || (w.stage->AwaitRemove_index > 0 && u.stage == (StageView::AwaitRemove {
        index: w.stage->AwaitRemove_index - 1,
    }) && succeeded(o) && u.deletions == w.deletions)
    &&& w.stage is AwaitStateDir ==> (u.stage is AwaitListing && o is Listing
        && w.deletions.len() == 0) || (w.deletions.len() > 0 && u.stage == (
    StageView::AwaitRemove { index: w.deletions.len() - 1 }) && succeeded(o) && u.deletions
        == w.deletions)
    &&& w.stage == (StageView::AwaitStateOpen { file: StateFile::LastBackup })
        ==> u.stage is AwaitStateDir && succeeded(o)
    &&& w.stage matches StageView::AwaitStateWrite { file } ==> u.stage == (
    StageView::AwaitStateOpen { file: file }) && succeeded(o)
    &&& w.stage matches StageView::AwaitStateSync { file } ==> u.stage == (
    StageView::AwaitStateWrite { file: file }) && succeeded(o)
    &&& w.stage matches StageView::AwaitStateRename { file } ==> u.stage == (
    StageView::AwaitStateSync { file: file }) && succeeded(o)
    &&& !(u.stage is Finished) && !(u.stage is AwaitClock) ==> w.ts == u.ts
        && w.destination == u.destination
    &&& !(u.stage is AwaitListing) ==> w.deletions == u.deletions
}

proof fn lemma_step_back(u: RunView, o: OutcomeView)
    requires
        run_inv(u),
    ensures
        step_back_facts(u, o),
{
    reveal(after);
}


/// The state after the outcome `o` at `u`.
#[verifier::opaque]
pub open spec fn after(u: RunView, o: OutcomeView) -> RunView {
    next(u, o).0
}

/// Whether `u` meets `run_inv`, under a name that keeps its definition out of sight.
#[verifier::opaque]
pub open spec fn sound(u: RunView) -> bool {
    run_inv(u)
}

/// Whether `s` is the history of a run started afresh whose operations had the outcomes `os`.
pub open spec fn fresh_history(s: Seq<RunView>, os: Seq<OutcomeView>) -> bool {
    &&& s.len() == os.len() + 1
    &&& s[0].stage is AwaitClock
    &&& forall|i: int| 0 < i < s.len() ==> #[trigger] s[i] == after(s[i - 1], os[i - 1])
    &&& forall|i: int| 0 <= i < s.len() ==> sound(#[trigger] s[i])
}

proof fn lemma_fresh_history(v: RunView, os: Seq<OutcomeView>)
    requires
        run_inv(v),
        v.stage is AwaitClock,
    ensures
        fresh_history(states(v, os), os),
{
    lemma_states_step(v, os);
    lemma_states_keep_invariant(v, os);
    let s = states(v, os);
    reveal(after);
    reveal(sound);
    assert forall|i: int| 0 < i < s.len() implies #[trigger] s[i] == after(s[i - 1], os[i - 1]) by {
        assert(s[i] == next(s[i - 1], os[i - 1]).0);
    }
    assert forall|i: int| 0 <= i < s.len() implies sound(#[trigger] s[i]) by {
        assert(run_inv(s[i]));
    }
}

/// Stepping back from position `j` of a history to the state and outcome before it.
proof fn lemma_back(s: Seq<RunView>, os: Seq<OutcomeView>, j: int)
    requires
        fresh_history(s, os),
        0 <= j < s.len(),
        !(s[j].stage is AwaitClock),
    ensures
        j > 0,
        s[j] == after(s[j - 1], os[j - 1]),
        sound(s[j - 1]),
        step_back_facts(s[j - 1], os[j - 1]),
{
    assert(s[j] == after(s[j - 1], os[j - 1]));
    assert(sound(s[j - 1]));
    reveal(sound);
    lemma_step_back(s[j - 1], os[j - 1]);
}

/// The archive was finished, synced and renamed, and the directory synced, just before the
/// listing at `l`.
proof fn lemma_listing_back(s: Seq<RunView>, os: Seq<OutcomeView>, l: int)
    requires
        fresh_history(s, os),
        0 <= l < s.len(),
        s[l].stage is AwaitListing,
    ensures
        6 <= l,
        s[l - 6].stage is AwaitFinishTar && succeeded(os[l - 6]),
        s[l - 5].stage is AwaitFinishCompression && succeeded(os[l - 5]),
        s[l - 4].stage is AwaitFinishEncryption && succeeded(os[l - 4]),
        s[l - 3].stage is AwaitSync && succeeded(os[l - 3]),
        s[l - 2].stage is AwaitRename && succeeded(os[l - 2]),
        s[l - 1].stage is AwaitSyncDir && succeeded(os[l - 1]),
        s[l - 2].ts == s[l].ts && s[l - 2].destination == s[l].destination,
{
    lemma_back(s, os, l);
    lemma_back(s, os, l - 1);
    lemma_back(s, os, l - 2);
    lemma_back(s, os, l - 3);
    lemma_back(s, os, l - 4);
    lemma_back(s, os, l - 5);
}

/// The deletions before position `p`, where the run removes deletion `m`, were each done,
/// one after the other, right after the listing.
proof fn lemma_removals_back(s: Seq<RunView>, os: Seq<OutcomeView>, p: int, m: int)
    requires
        fresh_history(s, os),
        0 <= p < s.len(),
        s[p].stage == (StageView::AwaitRemove { index: m }),
    ensures
        p - m - 1 >= 0,
        s[p - m - 1].stage is AwaitListing,
        os[p - m - 1] is Listing,
        s[p - m].deletions == s[p].deletions,
        forall|i: int| 0 <= i <= m ==> #[trigger] s[p - m + i].stage == (StageView::AwaitRemove {
            index: i,
        }),
        forall|i: int| 0 <= i < m ==> succeeded(#[trigger] os[p - m + i]),
        s[p - m - 1].ts == s[p].ts && s[p - m - 1].destination == s[p].destination,
    decreases m,
{
    lemma_back(s, os, p);
    if m > 0 {
        lemma_removals_back(s, os, p - 1, m - 1);
        assert forall|i: int| 0 <= i <= m implies #[trigger] s[p - m + i].stage == (
        StageView::AwaitRemove { index: i }) by {
            if i < m {
                assert(s[(p - 1) - (m - 1) + i] == s[p - m + i]);
            }
        }
        assert forall|i: int| 0 <= i < m implies succeeded(#[trigger] os[p - m + i]) by {
            if i < m - 1 {
                assert(os[(p - 1) - (m - 1) + i] == os[p - m + i]);
            }
        }
    }
}

/// In a run started afresh, the last-backup file is renamed into place (the run asks for
/// that rename exactly on entering `AwaitStateRename` for it) only after the archive was
/// finished, synced and renamed into place under the run's archive name, the destination
/// directory synced, and rotation listed the directory and deleted every archive it chose,
/// each succeeding. Since the first failure ends the run for good
/// (`lemma_finished_stays_in_history`), a failure at any of these steps leaves the
/// last-backup file as it was.
pub proof fn lemma_last_backup_after_archive(v: RunView, os: Seq<OutcomeView>, k: int)
    requires
        run_inv(v),
        v.stage is AwaitClock,
        0 <= k < states(v, os).len(),
        states(v, os)[k].stage == (StageView::AwaitStateRename { file: StateFile::LastBackup }),
    ensures
        exists|l: int| archive_done_before(states(v, os), os, l, k),
{
    lemma_fresh_history(v, os);
    let s = states(v, os);
    let d = s[k].deletions.len() as int;
    lemma_back(s, os, k);
    assert(s[k - 1].stage == (StageView::AwaitStateSync { file: StateFile::LastBackup }));
    lemma_back(s, os, k - 1);
    assert(s[k - 2].stage == (StageView::AwaitStateWrite { file: StateFile::LastBackup }));
    lemma_back(s, os, k - 2);
    assert(s[k - 3].stage == (StageView::AwaitStateOpen { file: StateFile::LastBackup }));
    lemma_back(s, os, k - 3);
    let q = k - 4;
    assert(s[q].stage is AwaitStateDir);
    assert(s[q].deletions == s[k].deletions);
    assert(s[q].ts == s[k].ts && s[q].destination == s[k].destination);
    lemma_back(s, os, q);
    let l = q - d - 1;
    if d == 0 {
        assert(s[q - 1].stage is AwaitListing);
        lemma_listing_back(s, os, q - 1);
    } else {
        lemma_back(s, os, q - 1);
        assert(s[q - 1].stage == (StageView::AwaitRemove { index: d - 1 }));
        lemma_removals_back(s, os, q - 1, d - 1);
        assert((q - 1) - (d - 1) - 1 == l);
        lemma_listing_back(s, os, l);
        assert forall|m: int| 0 <= m < d implies #[trigger] s[l + 1 + m].stage == (
        StageView::AwaitRemove { index: m }) && succeeded(os[l + 1 + m]) by {
            assert(s[(q - 1) - (d - 1) + m] == s[l + 1 + m]);
            if m < d - 1 {
                assert(os[(q - 1) - (d - 1) + m] == os[l + 1 + m]);
            }
        }
    }
    assert(archive_done_before(s, os, l, k));
}


/// Whether the run, at stage `st`, is finishing, putting in place or rotating the archive, or
/// recording the backup.
pub open spec fn finishing_stage(st: StageView) -> bool {
    st is AwaitFinishTar || st is AwaitFinishCompression || st is AwaitFinishEncryption
        || st is AwaitSync || st is AwaitRename || st is AwaitSyncDir || st is AwaitListing
        || st is AwaitRemove || st is AwaitStateDir || st is AwaitStateOpen || st is AwaitStateWrite
        || st is AwaitStateSync || st is AwaitStateRename
}

/// Whether `o` is what the operation asked for at stage `st` gives when it works.
pub open spec fn works_at(st: StageView, o: OutcomeView) -> bool {
    if st is AwaitListing {
        o is Listing
    } else {
        succeeded(o)
    }
}

/// When a step that finishes, puts in place or rotates the archive, or records the backup,
/// fails, the run ends with an error at once and stays so: no later state renames a state
/// file into place.
pub proof fn lemma_failure_keeps_state_files(v: RunView, os: Seq<OutcomeView>, i: int, j: int)
    requires
        run_inv(v),
        0 <= i < os.len(),
        i < j < states(v, os).len(),
        finishing_stage(states(v, os)[i].stage),
        !works_at(states(v, os)[i].stage, os[i]),
    ensures
        states(v, os)[j].stage is Finished,
        states(v, os)[j].result matches Some(Err(_)),
{
    lemma_states_step(v, os);
    let s = states(v, os);
    assert(s[i + 1] == next(s[i], os[i]).0);
    lemma_finished_stays_in_history(v, os, i + 1, j);
}

/// The path reached from `dir` by going down through the names in `rel`, one after the other.
pub open spec fn descend(dir: Seq<char>, rel: Seq<Seq<char>>) -> Seq<char>
    decreases rel.len(),
{
    if rel.len() == 0 {
        dir
    } else {
        child_path(descend(dir, rel.drop_last()), rel.last())
    }
}

/// Whether the run is at one of the sources, adding it or walking below it.
pub open spec fn at_source(st: StageView) -> bool {
    st is AwaitSourceMeta || st is AwaitSourceOpen || st is AwaitSourceAppend
        || st is AwaitSourceLink || in_walk(st)
}

/// The paths the walk holds are the current source followed by their names below it, and the
/// archive prefix is the source with its root stripped.
pub open spec fn walk_paths(v: RunView) -> bool {
    let src = v.sources[v.source_index];
    &&& at_source(v.stage) && !(v.stage is AwaitSourceMeta) ==> v.prefix == component_texts(
        below_root(src),
    )
    &&& in_walk(v.stage) ==> forall|i: int|
        0 <= i < v.frames.len() ==> (#[trigger] v.frames[i]).dir == descend(src, v.frames[i].rel)
    &&& v.stage matches StageView::AwaitReadDir { dir, rel } ==> dir == descend(src, rel)
    &&& v.stage matches StageView::AwaitEntryMeta { path, rel } ==> path == descend(src, rel)
    &&& v.stage matches StageView::AwaitAppendDir { path, rel } ==> path == descend(src, rel)
}

proof fn lemma_descend_push(dir: Seq<char>, rel: Seq<Seq<char>>, name: Seq<char>)
    ensures
        descend(dir, rel.push(name)) == child_path(descend(dir, rel), name),
{
    assert(rel.push(name).drop_last() =~= rel);
}

/// Every step keeps `walk_paths`.
pub proof fn lemma_step_keeps_walk_paths(v: RunView, o: OutcomeView)
    requires
        run_inv(v),
        walk_paths(v),
    ensures
        walk_paths(next(v, o).0),
{
    let w = next(v, o).0;
    if v.stage is AwaitEntry && o is Entry {
        let top = v.frames.last();
        assert(top == v.frames[v.frames.len() - 1]);
        lemma_descend_push(v.sources[v.source_index], top.rel, o->Entry_0);
    }
    if v.stage is AwaitEntry && o is NoMoreEntries {
        assert forall|i: int| 0 <= i < v.frames.drop_last().len() implies (
        #[trigger] v.frames.drop_last()[i]) == v.frames[i] by {}
    }
    if v.stage is AwaitReadDir && o is Done {
        let f = FrameView { dir: v.stage->AwaitReadDir_dir, rel: v.stage->AwaitReadDir_rel };
        assert forall|i: int| 0 <= i < v.frames.push(f).len() implies (
        #[trigger] v.frames.push(f)[i]).dir == descend(
            v.sources[v.source_index],
            v.frames.push(f)[i].rel,
        ) by {
            if i < v.frames.len() {
                assert(v.frames.push(f)[i] == v.frames[i]);
            }
        }
    }
}

/// What one step does to the directories being walked and to the source the run is at.
pub open spec fn walk_step_facts(u: RunView, o: OutcomeView) -> bool {
    let w = after(u, o);
    &&& w.sources == u.sources
    &&& w.exclude == u.exclude
    &&& u.stage is Finished ==> w == u
    &&& !(u.stage is Finished) ==> w.frames == u.frames || (u.stage is AwaitReadDir && o is Done
        && w.frames == u.frames.push(
        FrameView { dir: u.stage->AwaitReadDir_dir, rel: u.stage->AwaitReadDir_rel },
    )) || (u.stage is AwaitEntry && o is NoMoreEntries && w.frames == u.frames.drop_last())
    &&& u.stage is AwaitReadDir && o is Done ==> w.frames == u.frames.push(
        FrameView { dir: u.stage->AwaitReadDir_dir, rel: u.stage->AwaitReadDir_rel },
    )
    &&& at_source(w.stage) ==> (at_source(u.stage) && w.source_index == u.source_index) || (
    w.stage is AwaitSourceMeta && ((at_source(u.stage) && w.source_index == u.source_index + 1)
        || (u.stage is AwaitCompression && w.source_index == 0)))
    &&& finishing_stage(w.stage) ==> (finishing_stage(u.stage) && w.source_index == u.source_index)
        || (w.stage is AwaitFinishTar && w.source_index == w.sources.len() && ((at_source(
        u.stage) && w.source_index == u.source_index + 1) || (u.stage is AwaitCompression
        && w.source_index == 0)))
    &&& u.stage == (StageView::AwaitStateRename { file: StateFile::ThresholdDays }) && succeeded(o)
        ==> w.stage is Finished && (w.result is Some && w.result->0 is Ok)
    &&& (w.result is Some && w.result->0 is Ok) ==> (u.stage is Finished && u == w) || (u.stage == (
    StageView::AwaitStateRename { file: StateFile::ThresholdDays }) && succeeded(o))
}

proof fn lemma_walk_step(u: RunView, o: OutcomeView)
    requires
        run_inv(u),
    ensures
        walk_step_facts(u, o),
{
    reveal(after);
}

/// Whether a history ends with the run's success.
pub open spec fn ends_in_success(s: Seq<RunView>) -> bool {
    s.last().stage is Finished && s.last().result matches Some(Ok(_))
}

proof fn lemma_walk_at(s: Seq<RunView>, os: Seq<OutcomeView>, j: int)
    requires
        fresh_history(s, os),
        0 < j < s.len(),
    ensures
        s[j] == after(s[j - 1], os[j - 1]),
        walk_step_facts(s[j - 1], os[j - 1]),
        run_inv(s[j - 1]),
        run_inv(s[j]),
{
    assert(s[j] == after(s[j - 1], os[j - 1]));
    assert(sound(s[j - 1]));
    assert(sound(s[j]));
    reveal(sound);
    lemma_walk_step(s[j - 1], os[j - 1]);
}

proof fn lemma_finished_stays(s: Seq<RunView>, os: Seq<OutcomeView>, i: int, j: int)
    requires
        fresh_history(s, os),
        0 <= i <= j < s.len(),
        s[i].stage is Finished,
    ensures
        s[j] == s[i],
    decreases j - i,
{
    if i < j {
        lemma_finished_stays(s, os, i, j - 1);
        lemma_walk_at(s, os, j);
    }
}

/// In a history that ends in success the run reaches a point `e` where it renames the
/// threshold file into place and succeeds, and it has ended at every later point.
proof fn lemma_success_point(s: Seq<RunView>, os: Seq<OutcomeView>, j: int) -> (e: int)
    requires
        fresh_history(s, os),
        0 <= j < s.len(),
        s[j].stage is Finished,
        s[j].result matches Some(Ok(_)),
    ensures
        0 <= e < j,
        s[e].stage == (StageView::AwaitStateRename { file: StateFile::ThresholdDays }),
        succeeded(os[e]),
        forall|t: int| e < t < s.len() ==> (#[trigger] s[t]).stage is Finished,
    decreases j,
{
    if j == 0 {
        assert(false);
    }
    lemma_walk_at(s, os, j);
    if s[j - 1].stage is Finished {
        lemma_success_point(s, os, j - 1)
    } else {
        let e = j - 1;
        assert forall|t: int| e < t < s.len() implies (#[trigger] s[t]).stage is Finished by {
            lemma_finished_stays(s, os, j, t);
        }
        e
    }
}

/// In a history that ends in success no state holds a failure.
proof fn lemma_no_failure(s: Seq<RunView>, os: Seq<OutcomeView>, i: int)
    requires
        fresh_history(s, os),
        ends_in_success(s),
        0 <= i < s.len(),
    ensures
        !(s[i].result matches Some(Err(_))),
{
    assert(sound(s[i]));
    reveal(sound);
    if s[i].result is Some {
        lemma_finished_stays(s, os, i, s.len() - 1);
    }
}

/// Whether the source at `i` was looked up at some point up to `p` of the history.
pub open spec fn visited(s: Seq<RunView>, p: int, i: int) -> bool {
    exists|q: int| 0 <= q <= p && (#[trigger] s[q]).stage is AwaitSourceMeta && s[q].source_index == i
}

proof fn lemma_sources_visited(s: Seq<RunView>, os: Seq<OutcomeView>, p: int)
    requires
        fresh_history(s, os),
        0 <= p < s.len(),
    ensures
        s[p].sources == s[0].sources,
        at_source(s[p].stage) ==> forall|i: int| 0 <= i <= s[p].source_index ==> visited(s, p, i),
        finishing_stage(s[p].stage) ==> s[p].source_index == s[p].sources.len() && forall|i: int|
            0 <= i < s[p].source_index ==> visited(s, p, i),
    decreases p,
{
    if p > 0 {
        lemma_sources_visited(s, os, p - 1);
        lemma_walk_at(s, os, p);
        let u = s[p - 1];
        let w = s[p];
        assert forall|i: int| visited(s, p - 1, i) implies visited(s, p, i) by {
            let q = choose|q: int| 0 <= q <= p - 1 && (#[trigger] s[q]).stage is AwaitSourceMeta
                && s[q].source_index == i;
            assert(s[q].stage is AwaitSourceMeta && s[q].source_index == i);
        }
        if w.stage is AwaitSourceMeta {
            assert(visited(s, p, w.source_index));
        }
        if at_source(w.stage) {
            assert forall|i: int| 0 <= i <= w.source_index implies visited(s, p, i) by {
                if i < w.source_index || !(w.stage is AwaitSourceMeta) {
                    assert(visited(s, p - 1, i));
                }
            }
        }
        if finishing_stage(w.stage) {
            assert forall|i: int| 0 <= i < w.source_index implies visited(s, p, i) by {
                assert(visited(s, p - 1, i));
            }
        }
    }
}

/// In a history of a fresh run that ends in success, every source was looked up: for each
/// one the run reached `AwaitSourceMeta` at it, which it enters asking for the source's
/// metadata.
pub proof fn lemma_every_source_visited(v: RunView, os: Seq<OutcomeView>, i: int)
    requires
        run_inv(v),
        v.stage is AwaitClock,
        ends_in_success(states(v, os)),
        0 <= i < v.sources.len(),
    ensures
        exists|q: int|
            0 <= q < states(v, os).len() && (#[trigger] states(v, os)[q]).stage is AwaitSourceMeta
                && states(v, os)[q].source_index == i,
{
    lemma_fresh_history(v, os);
    lemma_states_step(v, os);
    let s = states(v, os);
    lemma_source_visited_in(s, os, i);
    let q = choose|q: int| 0 <= q < s.len() && (#[trigger] s[q]).stage is AwaitSourceMeta
        && s[q].source_index == i;
    assert(states(v, os)[q] == s[q]);
}

proof fn lemma_source_visited_in(s: Seq<RunView>, os: Seq<OutcomeView>, i: int)
    requires
        fresh_history(s, os),
        ends_in_success(s),
        0 <= i < s[0].sources.len(),
    ensures
        exists|q: int| 0 <= q < s.len() && (#[trigger] s[q]).stage is AwaitSourceMeta
            && s[q].source_index == i,
{
    let e = lemma_success_point(s, os, s.len() - 1);
    lemma_sources_visited(s, os, e);
    assert(finishing_stage(s[e].stage));
    assert(visited(s, e, i));
    let q = choose|q: int| 0 <= q <= e && (#[trigger] s[q]).stage is AwaitSourceMeta
        && s[q].source_index == i;
    assert(s[q].stage is AwaitSourceMeta);
}

/// Every state of a fresh history meets `walk_paths`.
proof fn lemma_walk_paths_at(s: Seq<RunView>, os: Seq<OutcomeView>, p: int)
    requires
        fresh_history(s, os),
        0 <= p < s.len(),
    ensures
        walk_paths(s[p]),
    decreases p,
{
    if p > 0 {
        lemma_walk_paths_at(s, os, p - 1);
        lemma_walk_at(s, os, p);
        lemma_step_keeps_walk_paths(s[p - 1], os[p - 1]);
        reveal(after);
    }
}

/// From position `t` on, the directory pushed as the `n`-th one being walked stays there until
/// the run reads to the end of it, which it does before the point `e` where nothing is being
/// walked.
proof fn lemma_pop_after(
    s: Seq<RunView>,
    os: Seq<OutcomeView>,
    n: int,
    f: FrameView,
    t: int,
    e: int,
)
    requires
        fresh_history(s, os),
        0 <= n,
        0 <= t <= e < s.len(),
        !(s[e].stage is Finished),
        s[e].frames.len() == 0,
        s[t].frames.len() > n,
        s[t].frames[n] == f,
    ensures
        exists|m: int|
            t <= m < e && (#[trigger] s[m]).stage is AwaitEntry && os[m] is NoMoreEntries
                && s[m].frames.len() == n + 1 && s[m].frames[n] == f,
    decreases e - t,
{
    if t == e {
        assert(false);
    }
    if s[t].stage is Finished {
        lemma_finished_stays(s, os, t, e);
        assert(false);
    }
    lemma_walk_at(s, os, t + 1);
    let u = s[t];
    let w = s[t + 1];
    if u.stage is AwaitEntry && os[t] is NoMoreEntries && w.frames == u.frames.drop_last() && u.frames.len()
        == n + 1 {
        assert(s[t].stage is AwaitEntry);
    } else {
        assert(w.frames.len() > n);
        assert(w.frames[n] == f);
        lemma_pop_after(s, os, n, f, t + 1, e);
    }
}

/// In a history of a fresh run that ends in success, every directory the run opened for
/// reading was read to its end: after position `k`, where reading the directory at `dir`
/// (at `rel` below the source) started, the run later asked for the next entry of that
/// same directory and was told there are no more.
pub proof fn lemma_every_directory_read_to_end(v: RunView, os: Seq<OutcomeView>, k: int)
    requires
        run_inv(v),
        v.stage is AwaitClock,
        ends_in_success(states(v, os)),
        0 <= k < os.len(),
        states(v, os)[k].stage is AwaitReadDir,
        os[k] is Done,
    ensures
        exists|m: int|
            k < m < os.len() && (#[trigger] states(v, os)[m]).stage is AwaitEntry
                && os[m] is NoMoreEntries && states(v, os)[m].frames.len() == states(v, os)[k].frames.len()
                + 1 && states(v, os)[m].frames.last() == (FrameView {
                dir: states(v, os)[k].stage->AwaitReadDir_dir,
                rel: states(v, os)[k].stage->AwaitReadDir_rel,
            }),
{
    lemma_fresh_history(v, os);
    let s = states(v, os);
    let e = lemma_success_point(s, os, s.len() - 1);
    assert(sound(s[e]));
    reveal(sound);
    assert(k < e);
    lemma_walk_at(s, os, k + 1);
    let n = s[k].frames.len() as int;
    let f = FrameView { dir: s[k].stage->AwaitReadDir_dir, rel: s[k].stage->AwaitReadDir_rel };
    assert(s[k + 1].frames[n] == f);
    lemma_pop_after(s, os, n, f, k + 1, e);
    let m = choose|m: int|
        k + 1 <= m < e && (#[trigger] s[m]).stage is AwaitEntry && os[m] is NoMoreEntries
            && s[m].frames.len() == n + 1 && s[m].frames[n] == f;
    assert(s[m].frames.last() == s[m].frames[n]);
}

/// The path in the archive of the entry at `rel` below the source `src`: the source with
/// its root stripped, followed by `rel`.
pub open spec fn archive_path_of(src: Seq<char>, rel: Seq<Seq<char>>) -> Seq<char> {
    joined(component_texts(below_root(src)) + rel)
}

/// A state of a successful history that has not ended lies before the success point, so the
/// outcome that follows it is in the history.
proof fn lemma_before_end(s: Seq<RunView>, os: Seq<OutcomeView>, e: int, t: int)
    requires
        fresh_history(s, os),
        0 <= e < os.len(),
        forall|i: int| e < i < s.len() ==> (#[trigger] s[i]).stage is Finished,
        0 <= t < s.len(),
        !(s[t].stage is Finished),
    ensures
        t <= e,
        t < os.len(),
{
}

/// In a history of a fresh run that ends in success, every entry found below a directory
/// source whose path below the source has no excluded component is added to the archive
/// under the source's stripped path followed by that path: a directory is added and then
/// read, a link is added as a link, and a file is opened and added, unless opening it was
/// refused for want of permission, which the run passes over. The entry's path on disk is
/// the source followed by its path below the source.
pub proof fn lemma_every_included_entry_added(v: RunView, os: Seq<OutcomeView>, k: int)
    requires
        run_inv(v),
        v.stage is AwaitClock,
        ends_in_success(states(v, os)),
        0 <= k < os.len(),
        states(v, os)[k].stage is AwaitEntryMeta,
        os[k] is Metadata,
        !excluded(states(v, os)[k].stage->AwaitEntryMeta_rel, v.exclude),
    ensures
        ({
            let s = states(v, os);
            let src = v.sources[s[k].source_index];
            let path = s[k].stage->AwaitEntryMeta_path;
            let rel = s[k].stage->AwaitEntryMeta_rel;
            let ap = archive_path_of(src, rel);
            let kind = os[k]->Metadata_0;
            &&& path == descend(src, rel)
            &&& kind == EntryKind::Dir ==> next(s[k], os[k]).1 == (OpView::AppendDir {
                archive_path: ap,
                path: path,
            }) && k + 1 < os.len() && succeeded(os[k + 1]) && next(s[k + 1], os[k + 1]).1
                == OpView::ReadDir(path)
            &&& kind == EntryKind::Symlink ==> next(s[k], os[k]).1 == (OpView::AppendLink {
                path: path,
                archive_path: ap,
            }) && k + 1 < os.len() && succeeded(os[k + 1])
            &&& kind == EntryKind::File ==> next(s[k], os[k]).1 == OpView::OpenFile(path) && k + 1
                < os.len() && (succeeded(os[k + 1]) ==> next(s[k + 1], os[k + 1]).1
                == OpView::AppendFile(ap) && k + 2 < os.len() && succeeded(os[k + 2])) && (
            !succeeded(os[k + 1]) ==> os[k + 1] == OutcomeView::Failed(
                FailureKind::PermissionDenied,
            ))
        }),
{
    lemma_fresh_history(v, os);
    lemma_states_step(v, os);
    let s = states(v, os);
    let e = lemma_success_point(s, os, s.len() - 1);
    lemma_walk_paths_at(s, os, k);
    lemma_sources_visited(s, os, k);
    assert(s[k].exclude == v.exclude) by {
        lemma_exclude_kept(s, os, k);
    }
    reveal(after);
    let kind = os[k]->Metadata_0;
    assert(s[k + 1] == next(s[k], os[k]).0);
    if kind != EntryKind::Other {
        lemma_before_end(s, os, e, k + 1);
        lemma_no_failure(s, os, k + 2);
        assert(s[k + 2] == next(s[k + 1], os[k + 1]).0);
        if kind == EntryKind::File && succeeded(os[k + 1]) {
            lemma_before_end(s, os, e, k + 2);
            lemma_no_failure(s, os, k + 3);
            assert(s[k + 3] == next(s[k + 2], os[k + 2]).0);
        }
    }
}

proof fn lemma_exclude_kept(s: Seq<RunView>, os: Seq<OutcomeView>, p: int)
    requires
        fresh_history(s, os),
        0 <= p < s.len(),
    ensures
        s[p].exclude == s[0].exclude,
    decreases p,
{
    if p > 0 {
        lemma_exclude_kept(s, os, p - 1);
        lemma_walk_at(s, os, p);
    }
}

/// In a history of a fresh run that ends in success, every source the run looks up (see
/// `lemma_every_source_visited`) is found and added under its path with the root stripped: a
/// file is opened and added, a link is added as a link, and a directory is read unless
/// reading it was refused for want of permission, which the run passes over.
pub proof fn lemma_every_source_added(v: RunView, os: Seq<OutcomeView>, q: int)
    requires
        run_inv(v),
        v.stage is AwaitClock,
        ends_in_success(states(v, os)),
        0 <= q < states(v, os).len(),
        states(v, os)[q].stage is AwaitSourceMeta,
    ensures
        ({
            let s = states(v, os);
            let src = v.sources[s[q].source_index];
            let ap = archive_path_of(src, seq![]);
            &&& q + 1 < os.len()
            &&& os[q] is Metadata
            &&& os[q]->Metadata_0 == EntryKind::Dir ==> next(s[q], os[q]).1 == OpView::ReadDir(src)
                && (succeeded(os[q + 1]) || os[q + 1] == OutcomeView::Failed(
                FailureKind::PermissionDenied,
            ))
            &&& os[q]->Metadata_0 == EntryKind::File ==> next(s[q], os[q]).1 == OpView::OpenFile(src)
                && succeeded(os[q + 1]) && next(s[q + 1], os[q + 1]).1 == OpView::AppendFile(ap)
                && q + 2 < os.len() && succeeded(os[q + 2])
            &&& os[q]->Metadata_0 == EntryKind::Symlink ==> next(s[q], os[q]).1 == (
            OpView::AppendLink { path: src, archive_path: ap }) && succeeded(os[q + 1])
        }),
{
    lemma_fresh_history(v, os);
    lemma_states_step(v, os);
    let s = states(v, os);
    let e = lemma_success_point(s, os, s.len() - 1);
    lemma_sources_visited(s, os, q);
    assert(sound(s[q]));
    reveal(sound);
    reveal(after);
    lemma_before_end(s, os, e, q);
    assert(q < e);
    assert(s[q + 1] == next(s[q], os[q]).0);
    lemma_no_failure(s, os, q + 1);
    assert(component_texts(below_root(v.sources[s[q].source_index])) + seq![] =~= component_texts(
        below_root(v.sources[s[q].source_index]),
    ));
    let kind = os[q]->Metadata_0;
    if kind != EntryKind::Other {
        lemma_before_end(s, os, e, q + 1);
        lemma_no_failure(s, os, q + 2);
        assert(s[q + 2] == next(s[q + 1], os[q + 1]).0);
        if kind == EntryKind::File {
            lemma_before_end(s, os, e, q + 2);
            lemma_no_failure(s, os, q + 3);
            assert(s[q + 3] == next(s[q + 2], os[q + 2]).0);
        }
    } else {
        assert(q + 1 < os.len()) by {
            if q + 1 == os.len() {
                assert(s[q + 1].stage is Finished);
            }
        }
    }
}

/// Throughout a run, every state keeps the configuration the run started with: the number of
/// archives to keep, the compression level, the destination, the sources, the exclusions,
/// the threshold and the age key.
pub proof fn lemma_configuration_kept(v: RunView, os: Seq<OutcomeView>, p: int)
    requires
        0 <= p < states(v, os).len(),
    ensures
        states(v, os)[p].keep == v.keep,
        states(v, os)[p].compression_level == v.compression_level,
        states(v, os)[p].destination == v.destination,
        states(v, os)[p].sources == v.sources,
        states(v, os)[p].exclude == v.exclude,
        states(v, os)[p].threshold_days == v.threshold_days,
        states(v, os)[p].age_pubkey == v.age_pubkey,
    decreases p,
{
    lemma_states_step(v, os);
    if p > 0 {
        lemma_configuration_kept(v, os, p - 1);
        lemma_step_keeps_configuration(states(v, os)[p - 1], os[p - 1]);
    }
}

} // verus!
