//! A backup run, as a sequence of decisions between file-system operations.
//!
//! The run is a state machine: the caller performs the operation the run asks for and hands
//! back its outcome, and the run decides what comes next. A run creates the destination
//! directory and a `.part` file, starts age encryption, zstd compression and a tar archive on
//! it, adds every source (walking directories, passing over what it may not read), finishes
//! the three layers, syncs and renames the archive into place, syncs the directory, deletes
//! the archives that exceed the number to keep, and records the time and the threshold for the
//! reminder. The first failure ends the run.
use vstd::prelude::*;

use crate::archives::{
    archive_file_name, archive_name, archive_names, is_archive_name, lemma_archives_left,
    lemma_deletions_distinct, lemma_rotation_deletes_oldest, lex_le, part_file_name, part_name,
    rotation_deletions, select_for_deletion,
};
use crate::config::{age_recipient_parse_error, parse_recipient, Config, EncryptionKey};
use crate::pathname::{
    below_root, below_root_texts, child, child_path, component_texts, join_texts, joined,
};
use crate::reminder::{state_file_contents, state_file_text};
use crate::text::string_views;
use crate::walk::{decide_entry, entry_step, is_passed_over, passed_over, EntryKind, EntryStep, FailureKind};

verus! {

/// The path of a partial archive, to remove if the run ends before the archive is in place.
pub struct PartGuard {
    path: Option<String>,
}

impl View for PartGuard {
    type V = Option<Seq<char>>;

    closed spec fn view(&self) -> Option<Seq<char>> {
        match self.path {
            Some(p) => Some(p@),
            None => None,
        }
    }
}

impl PartGuard {
    /// A guard for the partial archive at `path`.
    pub fn new(path: String) -> (g: PartGuard)
        ensures
            g@ == Some(path@),
    {
        PartGuard { path: Some(path) }
    }

    /// A guard that guards nothing.
    pub fn empty() -> (g: PartGuard)
        ensures
            g@ is None,
    {
        PartGuard { path: None }
    }

    /// The archive is in place: nothing is left to remove.
    pub fn disarm(&mut self)
        ensures
            final(self)@ is None,
    {
        self.path = None;
    }

    /// The partial archive still to remove, if any.
    pub fn armed_path(&self) -> (p: Option<String>)
        ensures
            match p {
                Some(s) => self@ == Some(s@),
                None => self@ is None,
            },
    {
        match &self.path {
            Some(s) => Some(s.clone()),
            None => None,
        }
    }
}

/// Which state file the run is writing.
#[derive(Debug, Clone, Copy, PartialEq, Eq, Structural)]
pub enum StateFile {
    LastBackup,
    ThresholdDays,
}

/// What the run waits for.
pub enum Stage {
    AwaitClock,
    AwaitDestDir,
    AwaitPartFile,
    AwaitEncryption,
    AwaitWrap,
    AwaitCompression,
    AwaitSourceMeta,
    AwaitSourceOpen,
    AwaitSourceAppend,
    AwaitSourceLink,
    AwaitReadDir { dir: String, rel: Vec<String> },
    AwaitEntry,
    AwaitEntryMeta { path: String, rel: Vec<String> },
    AwaitAppendDir { path: String, rel: Vec<String> },
    AwaitEntryOpen { path: String, archive_path: String },
    AwaitEntryAppend { archive_path: String },
    AwaitEntryLink { archive_path: String },
    AwaitFinishTar,
    AwaitFinishCompression,
    AwaitFinishEncryption,
    AwaitSync,
    AwaitRename,
    AwaitSyncDir,
    AwaitListing,
    AwaitRemove { index: usize },
    AwaitStateDir,
    AwaitStateOpen { file: StateFile },
    AwaitStateWrite { file: StateFile },
    AwaitStateSync { file: StateFile },
    AwaitStateRename { file: StateFile },
    Finished,
}

/// What the run waits for, as a mathematical value.
pub enum StageView {
    AwaitClock,
    AwaitDestDir,
    AwaitPartFile,
    AwaitEncryption,
    AwaitWrap,
    AwaitCompression,
    AwaitSourceMeta,
    AwaitSourceOpen,
    AwaitSourceAppend,
    AwaitSourceLink,
    AwaitReadDir { dir: Seq<char>, rel: Seq<Seq<char>> },
    AwaitEntry,
    AwaitEntryMeta { path: Seq<char>, rel: Seq<Seq<char>> },
    AwaitAppendDir { path: Seq<char>, rel: Seq<Seq<char>> },
    AwaitEntryOpen { path: Seq<char>, archive_path: Seq<char> },
    AwaitEntryAppend { archive_path: Seq<char> },
    AwaitEntryLink { archive_path: Seq<char> },
    AwaitFinishTar,
    AwaitFinishCompression,
    AwaitFinishEncryption,
    AwaitSync,
    AwaitRename,
    AwaitSyncDir,
    AwaitListing,
    AwaitRemove { index: int },
    AwaitStateDir,
    AwaitStateOpen { file: StateFile },
    AwaitStateWrite { file: StateFile },
    AwaitStateSync { file: StateFile },
    AwaitStateRename { file: StateFile },
    Finished,
}

impl View for Stage {
    type V = StageView;

    open spec fn view(&self) -> StageView {
        match self {
            Stage::AwaitClock => StageView::AwaitClock,
            Stage::AwaitDestDir => StageView::AwaitDestDir,
            Stage::AwaitPartFile => StageView::AwaitPartFile,
            Stage::AwaitEncryption => StageView::AwaitEncryption,
            Stage::AwaitWrap => StageView::AwaitWrap,
            Stage::AwaitCompression => StageView::AwaitCompression,
            Stage::AwaitSourceMeta => StageView::AwaitSourceMeta,
            Stage::AwaitSourceOpen => StageView::AwaitSourceOpen,
            Stage::AwaitSourceAppend => StageView::AwaitSourceAppend,
            Stage::AwaitSourceLink => StageView::AwaitSourceLink,
            Stage::AwaitReadDir { dir, rel } => StageView::AwaitReadDir {
                dir: dir@,
                rel: string_views(rel@),
            },
            Stage::AwaitEntry => StageView::AwaitEntry,
            Stage::AwaitEntryMeta { path, rel } => StageView::AwaitEntryMeta {
                path: path@,
                rel: string_views(rel@),
            },
            Stage::AwaitAppendDir { path, rel } => StageView::AwaitAppendDir {
                path: path@,
                rel: string_views(rel@),
            },
            Stage::AwaitEntryOpen { path, archive_path } => StageView::AwaitEntryOpen {
                path: path@,
                archive_path: archive_path@,
            },
            Stage::AwaitEntryAppend { archive_path } => StageView::AwaitEntryAppend {
                archive_path: archive_path@,
            },
            Stage::AwaitEntryLink { archive_path } => StageView::AwaitEntryLink {
                archive_path: archive_path@,
            },
            Stage::AwaitFinishTar => StageView::AwaitFinishTar,
            Stage::AwaitFinishCompression => StageView::AwaitFinishCompression,
            Stage::AwaitFinishEncryption => StageView::AwaitFinishEncryption,
            Stage::AwaitSync => StageView::AwaitSync,
            Stage::AwaitRename => StageView::AwaitRename,
            Stage::AwaitSyncDir => StageView::AwaitSyncDir,
            Stage::AwaitListing => StageView::AwaitListing,
            Stage::AwaitRemove { index } => StageView::AwaitRemove { index: *index as int },
            Stage::AwaitStateDir => StageView::AwaitStateDir,
            Stage::AwaitStateOpen { file } => StageView::AwaitStateOpen { file: *file },
            Stage::AwaitStateWrite { file } => StageView::AwaitStateWrite { file: *file },
            Stage::AwaitStateSync { file } => StageView::AwaitStateSync { file: *file },
            Stage::AwaitStateRename { file } => StageView::AwaitStateRename { file: *file },
            Stage::Finished => StageView::Finished,
        }
    }
}

/// What happened to the operation the run asked for.
pub enum Outcome {
    /// The clock read, in whole seconds since the Unix epoch; `None` when it is before it.
    Clock(Option<u64>),
    /// The operation succeeded.
    Done,
    /// The operation failed.
    Failed(FailureKind),
    /// The metadata of the path, without following a final link.
    Metadata(EntryKind),
    /// The next entry of the directory being read, by its file name.
    Entry(String),
    /// The directory being read has no more entries.
    NoMoreEntries,
    /// The file names in the destination directory.
    Listing(Vec<String>),
}

/// An outcome, as a mathematical value.
pub enum OutcomeView {
    Clock(Option<u64>),
    Done,
    Failed(FailureKind),
    Metadata(EntryKind),
    Entry(Seq<char>),
    NoMoreEntries,
    Listing(Seq<Seq<char>>),
}

impl View for Outcome {
    type V = OutcomeView;

    open spec fn view(&self) -> OutcomeView {
        match self {
            Outcome::Clock(c) => OutcomeView::Clock(*c),
            Outcome::Done => OutcomeView::Done,
            Outcome::Failed(k) => OutcomeView::Failed(*k),
            Outcome::Metadata(k) => OutcomeView::Metadata(*k),
            Outcome::Entry(n) => OutcomeView::Entry(n@),
            Outcome::NoMoreEntries => OutcomeView::NoMoreEntries,
            Outcome::Listing(v) => OutcomeView::Listing(string_views(v@)),
        }
    }
}

/// The operation the run asks for next.
pub enum Op {
    /// Read the system clock.
    ReadClock,
    /// Create a directory and its parents.
    CreateDirAll(String),
    /// Create (truncating) the archive file.
    CreateFile(String),
    /// Start age encryption to the key.
    StartEncryption(EncryptionKey),
    /// Write the age header to the archive file.
    WrapOutput,
    /// Start zstd compression at the level, and a tar archive that stores links as links.
    StartCompression(i32),
    /// Read the metadata of a path without following a final link.
    SymlinkMetadata(String),
    /// Start reading a directory.
    ReadDir(String),
    /// Read the next entry of the innermost directory being read; drop it when it has none.
    NextEntry,
    /// Open a file for reading.
    OpenFile(String),
    /// Add the file just opened to the archive, under the given path.
    AppendFile(String),
    /// Add a directory entry to the archive.
    AppendDir { archive_path: String, path: String },
    /// Add a link (the link itself) to the archive.
    AppendLink { path: String, archive_path: String },
    /// Finish the tar archive.
    FinishTar,
    /// Finish zstd compression.
    FinishCompression,
    /// Finish age encryption.
    FinishEncryption,
    /// Sync the archive file to disk.
    SyncFile,
    /// Rename a file.
    Rename { from: String, to: String },
    /// Sync a directory to disk.
    SyncDir(String),
    /// List the file names in a directory.
    ListDir(String),
    /// Remove a file.
    RemoveFile(String),
    /// Create (truncating, mode 0644) a state file.
    OpenStateFile(String),
    /// Write the text to the state file.
    WriteStateFile(String),
    /// Sync the state file to disk.
    SyncStateFile,
    /// The run is over: the archive's name, or the contexts of the failure, innermost first.
    Finish(Result<String, Vec<String>>),
}

/// An operation, as a mathematical value.
pub enum OpView {
    ReadClock,
    CreateDirAll(Seq<char>),
    CreateFile(Seq<char>),
    StartEncryption(Seq<char>),
    WrapOutput,
    StartCompression(i32),
    SymlinkMetadata(Seq<char>),
    ReadDir(Seq<char>),
    NextEntry,
    OpenFile(Seq<char>),
    AppendFile(Seq<char>),
    AppendDir { archive_path: Seq<char>, path: Seq<char> },
    AppendLink { path: Seq<char>, archive_path: Seq<char> },
    FinishTar,
    FinishCompression,
    FinishEncryption,
    SyncFile,
    Rename { from: Seq<char>, to: Seq<char> },
    SyncDir(Seq<char>),
    ListDir(Seq<char>),
    RemoveFile(Seq<char>),
    OpenStateFile(Seq<char>),
    WriteStateFile(Seq<char>),
    SyncStateFile,
    Finish(Result<Seq<char>, Seq<Seq<char>>>),
}

/// The view of a run's result.
pub open spec fn result_view(r: Result<String, Vec<String>>) -> Result<Seq<char>, Seq<Seq<char>>> {
    match r {
        Ok(n) => Ok(n@),
        Err(c) => Err(string_views(c@)),
    }
}

impl View for Op {
    type V = OpView;

    open spec fn view(&self) -> OpView {
        match self {
            Op::ReadClock => OpView::ReadClock,
            Op::CreateDirAll(p) => OpView::CreateDirAll(p@),
            Op::CreateFile(p) => OpView::CreateFile(p@),
            Op::StartEncryption(k) => OpView::StartEncryption(k@),
            Op::WrapOutput => OpView::WrapOutput,
            Op::StartCompression(l) => OpView::StartCompression(*l),
            Op::SymlinkMetadata(p) => OpView::SymlinkMetadata(p@),
            Op::ReadDir(p) => OpView::ReadDir(p@),
            Op::NextEntry => OpView::NextEntry,
            Op::OpenFile(p) => OpView::OpenFile(p@),
            Op::AppendFile(a) => OpView::AppendFile(a@),
            Op::AppendDir { archive_path, path } => OpView::AppendDir {
                archive_path: archive_path@,
                path: path@,
            },
            Op::AppendLink { path, archive_path } => OpView::AppendLink {
                path: path@,
                archive_path: archive_path@,
            },
            Op::FinishTar => OpView::FinishTar,
            Op::FinishCompression => OpView::FinishCompression,
            Op::FinishEncryption => OpView::FinishEncryption,
            Op::SyncFile => OpView::SyncFile,
            Op::Rename { from, to } => OpView::Rename { from: from@, to: to@ },
            Op::SyncDir(p) => OpView::SyncDir(p@),
            Op::ListDir(p) => OpView::ListDir(p@),
            Op::RemoveFile(p) => OpView::RemoveFile(p@),
            Op::OpenStateFile(p) => OpView::OpenStateFile(p@),
            Op::WriteStateFile(t) => OpView::WriteStateFile(t@),
            Op::SyncStateFile => OpView::SyncStateFile,
            Op::Finish(r) => OpView::Finish(result_view(*r)),
        }
    }
}

/// A directory being walked: its path and its names below the source.
pub struct Frame {
    dir: String,
    rel: Vec<String>,
}

/// A directory being walked, as a mathematical value.
pub struct FrameView {
    pub dir: Seq<char>,
    pub rel: Seq<Seq<char>>,
}

impl View for Frame {
    type V = FrameView;

    closed spec fn view(&self) -> FrameView {
        FrameView { dir: self.dir@, rel: string_views(self.rel@) }
    }
}

/// The views of a stack of frames.
pub open spec fn frame_views(fs: Seq<Frame>) -> Seq<FrameView> {
    fs.map_values(|f: Frame| f@)
}

/// A backup run in progress.
pub struct BackupRun {
    destination: String,
    age_pubkey: String,
    sources: Vec<String>,
    exclude: Vec<String>,
    keep: usize,
    threshold_days: u64,
    compression_level: i32,
    stage: Stage,
    ts: u64,
    source_index: usize,
    prefix: Vec<String>,
    frames: Vec<Frame>,
    guard: PartGuard,
    recipient: Option<EncryptionKey>,
    deletions: Vec<String>,
    result: Option<Result<String, Vec<String>>>,
}

/// A backup run, as a mathematical value.
pub struct RunView {
    pub destination: Seq<char>,
    pub age_pubkey: Seq<char>,
    pub sources: Seq<Seq<char>>,
    pub exclude: Seq<Seq<char>>,
    pub keep: usize,
    pub threshold_days: u64,
    pub compression_level: i32,
    pub stage: StageView,
    pub ts: u64,
    pub source_index: int,
    pub prefix: Seq<Seq<char>>,
    pub frames: Seq<FrameView>,
    pub guard: Option<Seq<char>>,
    pub recipient: Option<Seq<char>>,
    pub deletions: Seq<Seq<char>>,
    pub result: Option<Result<Seq<char>, Seq<Seq<char>>>>,
}

impl View for BackupRun {
    type V = RunView;

    closed spec fn view(&self) -> RunView {
        RunView {
            destination: self.destination@,
            age_pubkey: self.age_pubkey@,
            sources: string_views(self.sources@),
            exclude: string_views(self.exclude@),
            keep: self.keep,
            threshold_days: self.threshold_days,
            compression_level: self.compression_level,
            stage: self.stage@,
            ts: self.ts,
            source_index: self.source_index as int,
            prefix: string_views(self.prefix@),
            frames: frame_views(self.frames@),
            guard: self.guard@,
            recipient: match self.recipient {
                Some(k) => Some(k@),
                None => None,
            },
            deletions: string_views(self.deletions@),
            result: match self.result {
                Some(r) => Some(result_view(r)),
                None => None,
            },
        }
    }
}

/// The path of the partial archive of the run.
pub open spec fn part_path(v: RunView) -> Seq<char> {
    child_path(v.destination, part_name(v.ts))
}

/// The path the archive of the run gets once it is complete.
pub open spec fn final_path(v: RunView) -> Seq<char> {
    child_path(v.destination, archive_name(v.ts))
}

/// The directory of the state files the reminder reads.
pub open spec fn state_dir() -> Seq<char> {
    "/var/lib/draupnir"@
}

/// The path a state file is written to before it is renamed into place.
pub open spec fn state_part_path(f: StateFile) -> Seq<char> {
    match f {
        StateFile::LastBackup => "/var/lib/draupnir/last-backup.part"@,
        StateFile::ThresholdDays => "/var/lib/draupnir/threshold-days.part"@,
    }
}

/// The path of a state file.
pub open spec fn state_path(f: StateFile) -> Seq<char> {
    match f {
        StateFile::LastBackup => "/var/lib/draupnir/last-backup"@,
        StateFile::ThresholdDays => "/var/lib/draupnir/threshold-days"@,
    }
}

/// The number a state file records.
pub open spec fn state_value(v: RunView, f: StateFile) -> u64 {
    match f {
        StateFile::LastBackup => v.ts,
        StateFile::ThresholdDays => v.threshold_days,
    }
}

/// The contexts of a failure at a step of writing a state file.
pub open spec fn state_context(f: StateFile, step: nat) -> Seq<char> {
    match f {
        StateFile::LastBackup => if step == 0 {
            "creating last-backup.part"@
        } else if step == 1 {
            "writing timestamp"@
        } else if step == 2 {
            "syncing last-backup"@
        } else {
            "renaming last-backup"@
        },
        StateFile::ThresholdDays => if step == 0 {
            "creating threshold-days.part"@
        } else if step == 1 {
            "writing threshold"@
        } else if step == 2 {
            "syncing threshold-days"@
        } else {
            "renaming threshold-days"@
        },
    }
}

/// The run ends with a failure with the given contexts, innermost first.
pub open spec fn fail(v: RunView, contexts: Seq<Seq<char>>) -> (RunView, OpView) {
    (
        RunView { stage: StageView::Finished, result: Some(Err(contexts)), ..v },
        OpView::Finish(Err(contexts)),
    )
}

/// The run ends with a failure below the current source.
pub open spec fn walk_fail(v: RunView, context: Seq<char>) -> (RunView, OpView) {
    fail(v, seq![context, "archiving "@ + v.sources[v.source_index]])
}

/// The run moves on to the source at `i`, or to finishing the archive after the last.
pub open spec fn to_source(v: RunView, i: int) -> (RunView, OpView) {
    if i < v.sources.len() {
        (
            RunView { stage: StageView::AwaitSourceMeta, source_index: i, ..v },
            OpView::SymlinkMetadata(v.sources[i]),
        )
    } else {
        (
            RunView { stage: StageView::AwaitFinishTar, source_index: i, ..v },
            OpView::FinishTar,
        )
    }
}

/// The walk goes on with the next entry of the innermost directory, or with the next source.
pub open spec fn walk_on(v: RunView) -> (RunView, OpView) {
    if v.frames.len() > 0 {
        (RunView { stage: StageView::AwaitEntry, ..v }, OpView::NextEntry)
    } else {
        to_source(v, v.source_index + 1)
    }
}

/// The run moves on to removing the deletion at `i`, or to recording the state after the last.
pub open spec fn to_removal(v: RunView, i: int) -> (RunView, OpView) {
    if i < v.deletions.len() {
        (
            RunView { stage: StageView::AwaitRemove { index: i }, ..v },
            OpView::RemoveFile(child_path(v.destination, v.deletions[i])),
        )
    } else {
        (RunView { stage: StageView::AwaitStateDir, ..v }, OpView::CreateDirAll(state_dir()))
    }
}

/// The archive path of the entry at `rel` below the current source.
pub open spec fn entry_archive_path(v: RunView, rel: Seq<Seq<char>>) -> Seq<char> {
    joined(v.prefix + rel)
}

/// The context a failure gets, by stage, outside the walk below a directory source.
pub open spec fn outer_context(v: RunView) -> Seq<Seq<char>> {
    match v.stage {
        StageView::AwaitDestDir => seq!["creating destination directory "@ + v.destination],
        StageView::AwaitPartFile => seq!["creating .part file"@],
        StageView::AwaitEncryption => seq!["creating age encryptor"@],
        StageView::AwaitWrap => seq!["writing age header"@],
        StageView::AwaitCompression => seq!["initialising zstd encoder"@],
        StageView::AwaitSourceMeta => seq!["stat "@ + v.sources[v.source_index]],
        StageView::AwaitSourceOpen => seq!["opening "@ + v.sources[v.source_index]],
        StageView::AwaitSourceAppend => seq![
            "adding "@ + v.sources[v.source_index] + " to archive"@,
        ],
        StageView::AwaitSourceLink => seq![
            "adding symlink "@ + v.sources[v.source_index] + " to archive"@,
        ],
        StageView::AwaitFinishTar => seq!["finalising tar"@],
        StageView::AwaitFinishCompression => seq!["finalising zstd"@],
        StageView::AwaitFinishEncryption => seq!["finalising age encryption"@],
        StageView::AwaitSync => seq!["syncing archive to disk"@],
        StageView::AwaitRename => seq!["renaming archive"@],
        StageView::AwaitSyncDir => seq!["fsyncing destination directory"@],
        StageView::AwaitListing => seq!["reading destination directory"@, "rotating old archives"@],
        StageView::AwaitRemove { index } => seq![
            "deleting old archive "@ + child_path(v.destination, v.deletions[index]),
            "rotating old archives"@,
        ],
        StageView::AwaitStateDir => seq![
            "creating /var/lib/draupnir"@,
            "writing last-backup timestamp"@,
        ],
        StageView::AwaitStateOpen { file } => seq![
            state_context(file, 0),
            "writing last-backup timestamp"@,
        ],
        StageView::AwaitStateWrite { file } => seq![
            state_context(file, 1),
            "writing last-backup timestamp"@,
        ],
        StageView::AwaitStateSync { file } => seq![
            state_context(file, 2),
            "writing last-backup timestamp"@,
        ],
        StageView::AwaitStateRename { file } => seq![
            state_context(file, 3),
            "writing last-backup timestamp"@,
        ],
        _ => seq![],
    }
}

/// Whether an outcome reports success of a plain operation.
pub open spec fn is_done(o: OutcomeView) -> bool {
    o is Done
}

/// The failure kind an outcome reports; an outcome that does not fit the operation counts as
/// a failure of another kind.
pub open spec fn failure_of(o: OutcomeView) -> FailureKind {
    match o {
        OutcomeView::Failed(k) => k,
        _ => FailureKind::Other,
    }
}

/// What the run does next, from the state `v`, given the outcome `o` of the operation it
/// asked for.
pub open spec fn next(v: RunView, o: OutcomeView) -> (RunView, OpView) {
    match v.stage {
        StageView::Finished => (v, OpView::Finish(v.result->0)),
        StageView::AwaitClock => match o {
            OutcomeView::Clock(Some(ts)) => if age_recipient_parse_error(v.age_pubkey) is None {
                (
                    RunView {
                        stage: StageView::AwaitDestDir,
                        ts: ts,
                        recipient: Some(v.age_pubkey),
                        ..v
                    },
                    OpView::CreateDirAll(v.destination),
                )
            } else {
                fail(
                    v,
                    seq![
                        age_recipient_parse_error(v.age_pubkey)->0,
                        "parsing age recipient public key"@,
                    ],
                )
            },
            _ => fail(
                v,
                seq!["system clock is before the Unix epoch, refusing to name an archive"@],
            ),
        },
        StageView::AwaitDestDir => if is_done(o) {
            (
                RunView { stage: StageView::AwaitPartFile, ..v },
                OpView::CreateFile(part_path(v)),
            )
        } else {
            fail(v, outer_context(v))
        },
        StageView::AwaitPartFile => if is_done(o) {
            (
                RunView {
                    stage: StageView::AwaitEncryption,
                    guard: Some(part_path(v)),
                    recipient: None,
                    ..v
                },
                OpView::StartEncryption(v.age_pubkey),
            )
        } else {
            fail(v, outer_context(v))
        },
        StageView::AwaitEncryption => if is_done(o) {
            (RunView { stage: StageView::AwaitWrap, ..v }, OpView::WrapOutput)
        } else {
            fail(v, outer_context(v))
        },
        StageView::AwaitWrap => if is_done(o) {
            (
                RunView { stage: StageView::AwaitCompression, ..v },
                OpView::StartCompression(v.compression_level),
            )
        } else {
            fail(v, outer_context(v))
        },
        StageView::AwaitCompression => if is_done(o) {
            to_source(v, 0)
        } else {
            fail(v, outer_context(v))
        },
        StageView::AwaitSourceMeta => match o {
            OutcomeView::Metadata(kind) => {
                let src = v.sources[v.source_index];
                let w = RunView { prefix: component_texts(below_root(src)), ..v };
                match kind {
                    EntryKind::Dir => (
                        RunView { stage: StageView::AwaitReadDir { dir: src, rel: seq![] }, ..w },
                        OpView::ReadDir(src),
                    ),
                    EntryKind::File => (
                        RunView { stage: StageView::AwaitSourceOpen, ..w },
                        OpView::OpenFile(src),
                    ),
                    EntryKind::Symlink => (
                        RunView { stage: StageView::AwaitSourceLink, ..w },
                        OpView::AppendLink { path: src, archive_path: joined(w.prefix) },
                    ),
                    EntryKind::Other => to_source(w, v.source_index + 1),
                }
            },
            _ => fail(v, outer_context(v)),
        },
        StageView::AwaitSourceOpen => if is_done(o) {
            (
                RunView { stage: StageView::AwaitSourceAppend, ..v },
                OpView::AppendFile(joined(v.prefix)),
            )
        } else {
            fail(v, outer_context(v))
        },
        StageView::AwaitSourceAppend => if is_done(o) {
            to_source(v, v.source_index + 1)
        } else {
            fail(v, outer_context(v))
        },
        StageView::AwaitSourceLink => if is_done(o) {
            to_source(v, v.source_index + 1)
        } else {
            fail(v, outer_context(v))
        },
        StageView::AwaitReadDir { dir, rel } => if is_done(o) {
            (
                RunView {
                    stage: StageView::AwaitEntry,
                    frames: v.frames.push(FrameView { dir: dir, rel: rel }),
                    ..v
                },
                OpView::NextEntry,
            )
        } else if passed_over(failure_of(o)) {
            walk_on(v)
        } else {
            walk_fail(v, "reading "@ + dir)
        },
        StageView::AwaitEntry => match o {
            OutcomeView::Entry(name) => {
                let top = v.frames.last();
                let path = child_path(top.dir, name);
                (
                    RunView {
                        stage: StageView::AwaitEntryMeta { path: path, rel: top.rel.push(name) },
                        ..v
                    },
                    OpView::SymlinkMetadata(path),
                )
            },
            OutcomeView::NoMoreEntries => walk_on(RunView { frames: v.frames.drop_last(), ..v }),
            _ => if passed_over(failure_of(o)) {
                walk_on(v)
            } else {
                walk_fail(v, "reading entry in "@ + v.frames.last().dir)
            },
        },
        StageView::AwaitEntryMeta { path, rel } => match o {
            OutcomeView::Metadata(kind) => {
                let ap = entry_archive_path(v, rel);
                match entry_step(rel, v.exclude, kind) {
                    EntryStep::Skip => walk_on(v),
                    EntryStep::AddDir => (
                        RunView { stage: StageView::AwaitAppendDir { path: path, rel: rel }, ..v },
                        OpView::AppendDir { archive_path: ap, path: path },
                    ),
                    EntryStep::AddFile => (
                        RunView {
                            stage: StageView::AwaitEntryOpen { path: path, archive_path: ap },
                            ..v
                        },
                        OpView::OpenFile(path),
                    ),
                    EntryStep::AddSymlink => (
                        RunView { stage: StageView::AwaitEntryLink { archive_path: ap }, ..v },
                        OpView::AppendLink { path: path, archive_path: ap },
                    ),
                }
            },
            _ => if passed_over(failure_of(o)) {
                walk_on(v)
            } else {
                walk_fail(v, "stat "@ + path)
            },
        },
        StageView::AwaitAppendDir { path, rel } => if is_done(o) {
            (
                RunView { stage: StageView::AwaitReadDir { dir: path, rel: rel }, ..v },
                OpView::ReadDir(path),
            )
        } else {
            walk_fail(v, "adding dir "@ + entry_archive_path(v, rel) + " to archive"@)
        },
        StageView::AwaitEntryOpen { path, archive_path } => if is_done(o) {
            (
                RunView { stage: StageView::AwaitEntryAppend { archive_path: archive_path }, ..v },
                OpView::AppendFile(archive_path),
            )
        } else if passed_over(failure_of(o)) {
            walk_on(v)
        } else {
            walk_fail(v, "opening "@ + path)
        },
        StageView::AwaitEntryAppend { archive_path } => if is_done(o) {
            walk_on(v)
        } else {
            walk_fail(v, "adding "@ + archive_path + " to archive"@)
        },
        StageView::AwaitEntryLink { archive_path } => if is_done(o) {
            walk_on(v)
        } else {
            walk_fail(v, "adding symlink "@ + archive_path + " to archive"@)
        },
        StageView::AwaitFinishTar => if is_done(o) {
            (RunView { stage: StageView::AwaitFinishCompression, ..v }, OpView::FinishCompression)
        } else {
            fail(v, outer_context(v))
        },
        StageView::AwaitFinishCompression => if is_done(o) {
            (RunView { stage: StageView::AwaitFinishEncryption, ..v }, OpView::FinishEncryption)
        } else {
            fail(v, outer_context(v))
        },
        StageView::AwaitFinishEncryption => if is_done(o) {
            (RunView { stage: StageView::AwaitSync, ..v }, OpView::SyncFile)
        } else {
            fail(v, outer_context(v))
        },
        StageView::AwaitSync => if is_done(o) {
            (
                RunView { stage: StageView::AwaitRename, ..v },
                OpView::Rename { from: part_path(v), to: final_path(v) },
            )
        } else {
            fail(v, outer_context(v))
        },
        StageView::AwaitRename => if is_done(o) {
            (
                RunView { stage: StageView::AwaitSyncDir, guard: None, ..v },
                OpView::SyncDir(v.destination),
            )
        } else {
            fail(v, outer_context(v))
        },
        StageView::AwaitSyncDir => if is_done(o) {
            (RunView { stage: StageView::AwaitListing, ..v }, OpView::ListDir(v.destination))
        } else {
            fail(v, outer_context(v))
        },
        StageView::AwaitListing => match o {
            OutcomeView::Listing(names) => to_removal(
                RunView { deletions: rotation_deletions(names, v.keep as nat), ..v },
                0,
            ),
            _ => fail(v, outer_context(v)),
        },
        StageView::AwaitRemove { index } => if is_done(o) {
            to_removal(v, index + 1)
        } else {
            fail(v, outer_context(v))
        },
        StageView::AwaitStateDir => if is_done(o) {
            (
                RunView { stage: StageView::AwaitStateOpen { file: StateFile::LastBackup }, ..v },
                OpView::OpenStateFile(state_part_path(StateFile::LastBackup)),
            )
        } else {
            fail(v, outer_context(v))
        },
        StageView::AwaitStateOpen { file } => if is_done(o) {
            (
                RunView { stage: StageView::AwaitStateWrite { file: file }, ..v },
                OpView::WriteStateFile(state_file_text(state_value(v, file))),
            )
        } else {
            fail(v, outer_context(v))
        },
        StageView::AwaitStateWrite { file } => if is_done(o) {
            (RunView { stage: StageView::AwaitStateSync { file: file }, ..v }, OpView::SyncStateFile)
        } else {
            fail(v, outer_context(v))
        },
        StageView::AwaitStateSync { file } => if is_done(o) {
            (
                RunView { stage: StageView::AwaitStateRename { file: file }, ..v },
                OpView::Rename { from: state_part_path(file), to: state_path(file) },
            )
        } else {
            fail(v, outer_context(v))
        },
        StageView::AwaitStateRename { file } => if is_done(o) {
            match file {
                StateFile::LastBackup => (
                    RunView {
                        stage: StageView::AwaitStateOpen { file: StateFile::ThresholdDays },
                        ..v
                    },
                    OpView::OpenStateFile(state_part_path(StateFile::ThresholdDays)),
                ),
                StateFile::ThresholdDays => (
                    RunView { stage: StageView::Finished, result: Some(Ok(archive_name(v.ts))), ..v },
                    OpView::Finish(Ok(archive_name(v.ts))),
                ),
            }
        } else {
            fail(v, outer_context(v))
        },
    }
}

/// Whether the run has not yet created the partial archive.
pub open spec fn before_part(s: StageView) -> bool {
    s is AwaitClock || s is AwaitDestDir || s is AwaitPartFile
}

/// Whether the run is building the archive: from creating the partial archive until it is
/// renamed into place.
pub open spec fn building(s: StageView) -> bool {
    s is AwaitEncryption || s is AwaitWrap || s is AwaitCompression || s is AwaitSourceMeta
        || s is AwaitSourceOpen || s is AwaitSourceAppend || s is AwaitSourceLink || in_walk(s)
        || s is AwaitFinishTar || s is AwaitFinishCompression || s is AwaitFinishEncryption
        || s is AwaitSync || s is AwaitRename
}

/// Whether the archive is in place: the run has renamed it.
pub open spec fn after_rename(s: StageView) -> bool {
    s is AwaitSyncDir || s is AwaitListing || s is AwaitRemove || s is AwaitStateDir
        || s is AwaitStateOpen || s is AwaitStateWrite || s is AwaitStateSync
        || s is AwaitStateRename
}

/// Whether the run is walking below a directory source.
pub open spec fn in_walk(s: StageView) -> bool {
    s is AwaitReadDir || s is AwaitEntry || s is AwaitEntryMeta || s is AwaitAppendDir
        || s is AwaitEntryOpen || s is AwaitEntryAppend || s is AwaitEntryLink
}

/// The facts about a run that every step keeps.
pub open spec fn run_inv(v: RunView) -> bool {
    &&& (v.stage is Finished <==> v.result is Some)
    &&& (v.stage is AwaitSourceMeta || v.stage is AwaitSourceOpen || v.stage is AwaitSourceAppend
        || v.stage is AwaitSourceLink || v.stage is AwaitReadDir || v.stage is AwaitEntry
        || v.stage is AwaitEntryMeta || v.stage is AwaitAppendDir || v.stage is AwaitEntryOpen
        || v.stage is AwaitEntryAppend || v.stage is AwaitEntryLink) ==> 0 <= v.source_index
        < v.sources.len()
    &&& v.stage is AwaitEntry ==> v.frames.len() > 0
    &&& !in_walk(v.stage) && !(v.stage is Finished) ==> v.frames.len() == 0
    &&& v.stage matches StageView::AwaitRemove { index } ==> 0 <= index < v.deletions.len()
    &&& v.stage is AwaitClock ==> v.recipient is None
    &&& (v.stage is AwaitDestDir || v.stage is AwaitPartFile) ==> v.recipient == Some(v.age_pubkey)
    &&& before_part(v.stage) ==> v.guard is None
    &&& building(v.stage) ==> v.guard == Some(part_path(v))
    &&& after_rename(v.stage) ==> v.guard is None
}


/// `a` followed by `b`.
fn cat(a: &str, b: &str) -> (r: String)
    ensures
        r@ == a@ + b@,
{
    let mut r = String::new();
    r.append(a);
    r.append(b);
    assert(Seq::<char>::empty() + a@ + b@ =~= a@ + b@);
    r
}

/// `a`, `b` and `c` in a row.
fn cat3(a: &str, b: &str, c: &str) -> (r: String)
    ensures
        r@ == a@ + b@ + c@,
{
    let mut r = cat(a, b);
    r.append(c);
    r
}

/// A copy of a vector of strings.
fn copy_strings(v: &Vec<String>) -> (r: Vec<String>)
    ensures
        string_views(r@) == string_views(v@),
{
    let mut r: Vec<String> = Vec::new();
    let n = v.len();
    for i in 0..n
        invariant
            n == v.len(),
            string_views(r@) == string_views(v@).take(i as int),
    {
        let s = v[i].clone();
        let ghost before = string_views(r@);
        r.push(s);
        assert(string_views(r@) =~= before.push(v@[i as int]@));
        assert(string_views(v@).take(i + 1) =~= string_views(v@).take(i as int).push(
            v@[i as int]@,
        ));
    }
    assert(string_views(v@).take(n as int) =~= string_views(v@));
    r
}

/// `a` followed by `b`.
fn concat_strings(a: &Vec<String>, b: &Vec<String>) -> (r: Vec<String>)
    ensures
        string_views(r@) == string_views(a@) + string_views(b@),
{
    let mut r = copy_strings(a);
    let n = b.len();
    for i in 0..n
        invariant
            n == b.len(),
            string_views(r@) == string_views(a@) + string_views(b@).take(i as int),
    {
        let s = b[i].clone();
        let ghost before = string_views(r@);
        r.push(s);
        assert(string_views(r@) =~= before.push(b@[i as int]@));
        assert(string_views(b@).take(i + 1) =~= string_views(b@).take(i as int).push(
            b@[i as int]@,
        ));
    }
    assert(string_views(b@).take(n as int) =~= string_views(b@));
    r
}

/// One string as a vector.
fn one(a: String) -> (r: Vec<String>)
    ensures
        string_views(r@) == seq![a@],
{
    let mut r = Vec::new();
    r.push(a);
    assert(string_views(r@) =~= seq![a@]);
    r
}

/// Two strings as a vector.
fn two(a: String, b: String) -> (r: Vec<String>)
    ensures
        string_views(r@) == seq![a@, b@],
{
    let mut r = Vec::new();
    r.push(a);
    r.push(b);
    assert(string_views(r@) =~= seq![a@, b@]);
    r
}

fn copy_result(r: &Result<String, Vec<String>>) -> (c: Result<String, Vec<String>>)
    ensures
        result_view(c) == result_view(*r),
{
    match r {
        Ok(n) => Ok(n.clone()),
        Err(v) => Err(copy_strings(v)),
    }
}

fn state_part_file(f: StateFile) -> (s: String)
    ensures
        s@ == state_part_path(f),
{
    match f {
        StateFile::LastBackup => "/var/lib/draupnir/last-backup.part".to_string(),
        StateFile::ThresholdDays => "/var/lib/draupnir/threshold-days.part".to_string(),
    }
}

fn state_file(f: StateFile) -> (s: String)
    ensures
        s@ == state_path(f),
{
    match f {
        StateFile::LastBackup => "/var/lib/draupnir/last-backup".to_string(),
        StateFile::ThresholdDays => "/var/lib/draupnir/threshold-days".to_string(),
    }
}

fn state_step_context(f: StateFile, step: u8) -> (s: String)
    ensures
        s@ == state_context(f, step as nat),
{
    match f {
        StateFile::LastBackup => if step == 0 {
            "creating last-backup.part".to_string()
        } else if step == 1 {
            "writing timestamp".to_string()
        } else if step == 2 {
            "syncing last-backup".to_string()
        } else {
            "renaming last-backup".to_string()
        },
        StateFile::ThresholdDays => if step == 0 {
            "creating threshold-days.part".to_string()
        } else if step == 1 {
            "writing threshold".to_string()
        } else if step == 2 {
            "syncing threshold-days".to_string()
        } else {
            "renaming threshold-days".to_string()
        },
    }
}

impl BackupRun {
    #[verifier::type_invariant]
    closed spec fn inv(&self) -> bool {
        run_inv(self@)
    }

    /// Starts a run with the given configuration; its first operation reads the clock.
    pub fn new(config: &Config) -> (r: (BackupRun, Op))
        ensures
            r.0@ == (RunView {
                destination: config@.destination,
                age_pubkey: config@.age_pubkey,
                sources: config@.sources,
                exclude: config@.exclude,
                keep: config@.keep,
                threshold_days: config@.threshold_days,
                compression_level: config@.compression_level,
                stage: StageView::AwaitClock,
                ts: 0,
                source_index: 0,
                prefix: seq![],
                frames: seq![],
                guard: None,
                recipient: None,
                deletions: seq![],
                result: None,
            }),
            r.1@ == OpView::ReadClock,
    {
        let run = BackupRun {
            destination: config.destination.clone(),
            age_pubkey: config.age_pubkey.clone(),
            sources: copy_strings(&config.sources),
            exclude: copy_strings(&config.exclude),
            keep: config.keep,
            threshold_days: config.threshold_days,
            compression_level: config.compression_level,
            stage: Stage::AwaitClock,
            ts: 0,
            source_index: 0,
            prefix: Vec::new(),
            frames: Vec::new(),
            guard: PartGuard::empty(),
            recipient: None,
            deletions: Vec::new(),
            result: None,
        };
        assert(run@.prefix =~= seq![]);
        assert(run@.frames =~= seq![]);
        assert(run@.deletions =~= seq![]);
        (run, Op::ReadClock)
    }

    /// The partial archive that is still to be removed, if the run ended before the archive
    /// was in place.
    pub fn partial_archive(&self) -> (p: Option<String>)
        ensures
            match p {
                Some(s) => self@.guard == Some(s@),
                None => self@.guard is None,
            },
    {
        self.guard.armed_path()
    }

    fn fail(self, contexts: Vec<String>) -> (r: (BackupRun, Op))
        ensures
            (r.0@, r.1@) == fail(self@, string_views(contexts@)),
    {
        proof {
            use_type_invariant(&self);
        }
        let copy = copy_strings(&contexts);
        let run = BackupRun { stage: Stage::Finished, result: Some(Err(contexts)), ..self };
        (run, Op::Finish(Err(copy)))
    }

    fn walk_fail(self, context: String) -> (r: (BackupRun, Op))
        requires
            0 <= self@.source_index < self@.sources.len(),
        ensures
            (r.0@, r.1@) == walk_fail(self@, context@),
    {
        let outer = cat("archiving ", self.sources[self.source_index].as_str());
        self.fail(two(context, outer))
    }

    fn to_source(self, i: usize) -> (r: (BackupRun, Op))
        requires
            self@.frames.len() == 0,
            self@.result is None,
            self@.guard == Some(part_path(self@)),
        ensures
            (r.0@, r.1@) == to_source(self@, i as int),
    {
        proof {
            use_type_invariant(&self);
        }
        if i < self.sources.len() {
            let src = self.sources[i].clone();
            let run = BackupRun { stage: Stage::AwaitSourceMeta, source_index: i, ..self };
            (run, Op::SymlinkMetadata(src))
        } else {
            let run = BackupRun { stage: Stage::AwaitFinishTar, source_index: i, ..self };
            (run, Op::FinishTar)
        }
    }

    fn walk_on(self) -> (r: (BackupRun, Op))
        requires
            self@.result is None,
            0 <= self@.source_index < self@.sources.len(),
            self@.guard == Some(part_path(self@)),
        ensures
            (r.0@, r.1@) == walk_on(self@),
    {
        if self.frames.len() > 0 {
            let run = BackupRun { stage: Stage::AwaitEntry, ..self };
            (run, Op::NextEntry)
        } else {
            assert(self@.sources.len() == self.sources@.len());
            assert(self.source_index < self.sources.len());
            let i = self.source_index + 1;
            self.to_source(i)
        }
    }

    fn to_removal(self, i: usize) -> (r: (BackupRun, Op))
        requires
            self@.frames.len() == 0,
            self@.result is None,
            self@.guard is None,
        ensures
            (r.0@, r.1@) == to_removal(self@, i as int),
    {
        if i < self.deletions.len() {
            let path = child(&self.destination, &self.deletions[i]);
            let run = BackupRun { stage: Stage::AwaitRemove { index: i }, ..self };
            (run, Op::RemoveFile(path))
        } else {
            let run = BackupRun { stage: Stage::AwaitStateDir, ..self };
            (run, Op::CreateDirAll("/var/lib/draupnir".to_string()))
        }
    }

    fn outer_context_of(&self) -> (c: Vec<String>)
        ensures
            string_views(c@) == outer_context(self@),
    {
        proof {
            use_type_invariant(self);
        }
        match &self.stage {
            Stage::AwaitDestDir => one(cat("creating destination directory ", self.destination.as_str())),
            Stage::AwaitPartFile => one("creating .part file".to_string()),
            Stage::AwaitEncryption => one("creating age encryptor".to_string()),
            Stage::AwaitWrap => one("writing age header".to_string()),
            Stage::AwaitCompression => one("initialising zstd encoder".to_string()),
            Stage::AwaitSourceMeta => one(cat("stat ", self.sources[self.source_index].as_str())),
            Stage::AwaitSourceOpen => one(cat("opening ", self.sources[self.source_index].as_str())),
            Stage::AwaitSourceAppend => one(
                cat3("adding ", self.sources[self.source_index].as_str(), " to archive"),
            ),
            Stage::AwaitSourceLink => one(
                cat3("adding symlink ", self.sources[self.source_index].as_str(), " to archive"),
            ),
            Stage::AwaitFinishTar => one("finalising tar".to_string()),
            Stage::AwaitFinishCompression => one("finalising zstd".to_string()),
            Stage::AwaitFinishEncryption => one("finalising age encryption".to_string()),
            Stage::AwaitSync => one("syncing archive to disk".to_string()),
            Stage::AwaitRename => one("renaming archive".to_string()),
            Stage::AwaitSyncDir => one("fsyncing destination directory".to_string()),
            Stage::AwaitListing => two(
                "reading destination directory".to_string(),
                "rotating old archives".to_string(),
            ),
            Stage::AwaitRemove { index } => {
                let path = child(&self.destination, &self.deletions[*index]);
                two(cat("deleting old archive ", path.as_str()), "rotating old archives".to_string())
            },
            Stage::AwaitStateDir => two(
                "creating /var/lib/draupnir".to_string(),
                "writing last-backup timestamp".to_string(),
            ),
            Stage::AwaitStateOpen { file } => two(
                state_step_context(*file, 0),
                "writing last-backup timestamp".to_string(),
            ),
            Stage::AwaitStateWrite { file } => two(
                state_step_context(*file, 1),
                "writing last-backup timestamp".to_string(),
            ),
            Stage::AwaitStateSync { file } => two(
                state_step_context(*file, 2),
                "writing last-backup timestamp".to_string(),
            ),
            Stage::AwaitStateRename { file } => two(
                state_step_context(*file, 3),
                "writing last-backup timestamp".to_string(),
            ),
            _ => {
                let v: Vec<String> = Vec::new();
                assert(string_views(v@) =~= seq![]);
                v
            },
        }
    }

    /// Fails the run at a stage outside the walk.
    fn fail_here(self) -> (r: (BackupRun, Op))
        ensures
            (r.0@, r.1@) == fail(self@, outer_context(self@)),
    {
        let c = self.outer_context_of();
        self.fail(c)
    }

    /// Takes the outcome of the operation the run asked for and decides what comes next.
    pub fn step(self, outcome: Outcome) -> (r: (BackupRun, Op))
        ensures
            (r.0@, r.1@) == next(self@, outcome@),
    {
        proof {
            use_type_invariant(&self);
        }
        let done = match &outcome {
            Outcome::Done => true,
            _ => false,
        };
        let failure = match &outcome {
            Outcome::Failed(k) => *k,
            _ => FailureKind::Other,
        };
        assert(done == is_done(outcome@));
        assert(failure == failure_of(outcome@));
        match &self.stage {
            Stage::Finished => {
                let res = match &self.result {
                    Some(r) => copy_result(r),
                    None => {
                        assert(false);
                        Ok(String::new())
                    },
                };
                (self, Op::Finish(res))
            },
            Stage::AwaitClock => match outcome {
                Outcome::Clock(Some(ts)) => match parse_recipient(self.age_pubkey.as_str()) {
                    Ok(rcpt) => {
                        let dest = self.destination.clone();
                        let run = BackupRun {
                            stage: Stage::AwaitDestDir,
                            ts: ts,
                            recipient: Some(rcpt),
                            ..self
                        };
                        (run, Op::CreateDirAll(dest))
                    },
                    Err(m) => self.fail(two(m, "parsing age recipient public key".to_string())),
                },
                _ => self.fail(
                    one(
                        "system clock is before the Unix epoch, refusing to name an archive".to_string(),
                    ),
                ),
            },
            Stage::AwaitDestDir => if done {
                let part = child(&self.destination, &part_file_name(self.ts));
                let run = BackupRun { stage: Stage::AwaitPartFile, ..self };
                (run, Op::CreateFile(part))
            } else {
                self.fail_here()
            },
            Stage::AwaitPartFile => if done {
                let part = child(&self.destination, &part_file_name(self.ts));
                let rcpt = self.recipient;
                let rcpt = match rcpt {
                    Some(r) => r,
                    None => {
                        proof {
                            assert(false);
                        }
                        return BackupRun { recipient: None, ..self }.fail_here();
                    },
                };
                let run = BackupRun {
                    stage: Stage::AwaitEncryption,
                    guard: PartGuard::new(part),
                    recipient: None,
                    ..self
                };
                (run, Op::StartEncryption(rcpt))
            } else {
                self.fail_here()
            },
            Stage::AwaitEncryption => if done {
                (BackupRun { stage: Stage::AwaitWrap, ..self }, Op::WrapOutput)
            } else {
                self.fail_here()
            },
            Stage::AwaitWrap => if done {
                let level = self.compression_level;
                (BackupRun { stage: Stage::AwaitCompression, ..self }, Op::StartCompression(level))
            } else {
                self.fail_here()
            },
            Stage::AwaitCompression => if done {
                self.to_source(0)
            } else {
                self.fail_here()
            },
            _ => self.step_sources(outcome, done, failure),
        }
    }

    fn step_sources(self, outcome: Outcome, done: bool, failure: FailureKind) -> (r: (BackupRun, Op))
        requires
            done == is_done(outcome@),
            failure == failure_of(outcome@),
            !(self@.stage is Finished || self@.stage is AwaitClock || self@.stage is AwaitDestDir
                || self@.stage is AwaitPartFile || self@.stage is AwaitEncryption
                || self@.stage is AwaitWrap || self@.stage is AwaitCompression),
        ensures
            (r.0@, r.1@) == next(self@, outcome@),
    {
        match &self.stage {
            Stage::AwaitSourceMeta => self.on_source_meta(outcome),
            Stage::AwaitSourceOpen => self.on_source_open(done),
            Stage::AwaitSourceAppend => self.on_source_added(done),
            Stage::AwaitSourceLink => self.on_source_added(done),
            Stage::AwaitFinishTar => self.on_finishing(done),
            Stage::AwaitFinishCompression => self.on_finishing(done),
            Stage::AwaitFinishEncryption => self.on_finishing(done),
            Stage::AwaitSync => self.on_finishing(done),
            Stage::AwaitRename => self.on_finishing(done),
            Stage::AwaitSyncDir => self.on_finishing(done),
            Stage::AwaitListing => self.on_listing(outcome),
            Stage::AwaitRemove { .. } => self.on_removed(done),
            Stage::AwaitStateDir => self.on_state(done),
            Stage::AwaitStateOpen { .. } => self.on_state(done),
            Stage::AwaitStateWrite { .. } => self.on_state(done),
            Stage::AwaitStateSync { .. } => self.on_state(done),
            Stage::AwaitStateRename { .. } => self.on_state(done),
            _ => self.step_walk(outcome, done, failure),
        }
    }

    fn on_source_meta(self, outcome: Outcome) -> (r: (BackupRun, Op))
        requires
            self@.stage is AwaitSourceMeta,
        ensures
            (r.0@, r.1@) == next(self@, outcome@),
    {
        proof {
            use_type_invariant(&self);
        }
        match outcome {
            Outcome::Metadata(kind) => {
                assert(self.source_index < self.sources.len());
                let src = self.sources[self.source_index].clone();
                let prefix = below_root_texts(&src);
                let run = BackupRun { prefix: prefix, ..self };
                match kind {
                    EntryKind::Dir => {
                        let dir = src.clone();
                        let rel: Vec<String> = Vec::new();
                        assert(string_views(rel@) =~= seq![]);
                        (
                            BackupRun { stage: Stage::AwaitReadDir { dir: dir, rel: rel }, ..run },
                            Op::ReadDir(src),
                        )
                    },
                    EntryKind::File => (
                        BackupRun { stage: Stage::AwaitSourceOpen, ..run },
                        Op::OpenFile(src),
                    ),
                    EntryKind::Symlink => {
                        let ap = join_texts(&run.prefix);
                        (
                            BackupRun { stage: Stage::AwaitSourceLink, ..run },
                            Op::AppendLink { path: src, archive_path: ap },
                        )
                    },
                    EntryKind::Other => {
                        let i = run.source_index + 1;
                        run.to_source(i)
                    },
                }
            },
            _ => self.fail_here(),
        }
    }

    fn on_source_open(self, done: bool) -> (r: (BackupRun, Op))
        requires
            self@.stage is AwaitSourceOpen,
        ensures
            forall|o: OutcomeView| is_done(o) == done ==> (r.0@, r.1@) == #[trigger] next(self@, o),
    {
        proof {
            use_type_invariant(&self);
        }
        if done {
            let ap = join_texts(&self.prefix);
            (BackupRun { stage: Stage::AwaitSourceAppend, ..self }, Op::AppendFile(ap))
        } else {
            self.fail_here()
        }
    }

    fn on_source_added(self, done: bool) -> (r: (BackupRun, Op))
        requires
            self@.stage is AwaitSourceAppend || self@.stage is AwaitSourceLink,
        ensures
            forall|o: OutcomeView| is_done(o) == done ==> (r.0@, r.1@) == #[trigger] next(self@, o),
    {
        proof {
            use_type_invariant(&self);
        }
        if done {
            assert(self.source_index < self.sources.len());
            let i = self.source_index + 1;
            self.to_source(i)
        } else {
            self.fail_here()
        }
    }

    fn on_finishing(self, done: bool) -> (r: (BackupRun, Op))
        requires
            self@.stage is AwaitFinishTar || self@.stage is AwaitFinishCompression
                || self@.stage is AwaitFinishEncryption || self@.stage is AwaitSync
                || self@.stage is AwaitRename || self@.stage is AwaitSyncDir,
        ensures
            forall|o: OutcomeView| is_done(o) == done ==> (r.0@, r.1@) == #[trigger] next(self@, o),
    {
        proof {
            use_type_invariant(&self);
        }
        if !done {
            return self.fail_here();
        }
        match &self.stage {
            Stage::AwaitFinishTar => (
                BackupRun { stage: Stage::AwaitFinishCompression, ..self },
                Op::FinishCompression,
            ),
            Stage::AwaitFinishCompression => (
                BackupRun { stage: Stage::AwaitFinishEncryption, ..self },
                Op::FinishEncryption,
            ),
            Stage::AwaitFinishEncryption => (
                BackupRun { stage: Stage::AwaitSync, ..self },
                Op::SyncFile,
            ),
            Stage::AwaitSync => {
                let from = child(&self.destination, &part_file_name(self.ts));
                let to = child(&self.destination, &archive_file_name(self.ts));
                (BackupRun { stage: Stage::AwaitRename, ..self }, Op::Rename { from, to })
            },
            Stage::AwaitRename => {
                let dest = self.destination.clone();
                let run = BackupRun { stage: Stage::AwaitSyncDir, guard: PartGuard::empty(), ..self };
                (run, Op::SyncDir(dest))
            },
            _ => {
                let dest = self.destination.clone();
                (BackupRun { stage: Stage::AwaitListing, ..self }, Op::ListDir(dest))
            },
        }
    }

    fn on_listing(self, outcome: Outcome) -> (r: (BackupRun, Op))
        requires
            self@.stage is AwaitListing,
        ensures
            (r.0@, r.1@) == next(self@, outcome@),
    {
        proof {
            use_type_invariant(&self);
        }
        match outcome {
            Outcome::Listing(names) => {
                let dels = select_for_deletion(&names, self.keep);
                let run = BackupRun { deletions: dels, ..self };
                run.to_removal(0)
            },
            _ => self.fail_here(),
        }
    }

    fn on_removed(self, done: bool) -> (r: (BackupRun, Op))
        requires
            self@.stage is AwaitRemove,
        ensures
            forall|o: OutcomeView| is_done(o) == done ==> (r.0@, r.1@) == #[trigger] next(self@, o),
    {
        proof {
            use_type_invariant(&self);
        }
        if !done {
            return self.fail_here();
        }
        match &self.stage {
            Stage::AwaitRemove { index } => {
                assert(*index < self.deletions.len());
                let i = *index + 1;
                self.to_removal(i)
            },
            _ => {
                assert(false);
                self.fail_here()
            },
        }
    }

    fn on_state(self, done: bool) -> (r: (BackupRun, Op))
        requires
            self@.stage is AwaitStateDir || self@.stage is AwaitStateOpen
                || self@.stage is AwaitStateWrite || self@.stage is AwaitStateSync
                || self@.stage is AwaitStateRename,
        ensures
            forall|o: OutcomeView| is_done(o) == done ==> (r.0@, r.1@) == #[trigger] next(self@, o),
    {
        proof {
            use_type_invariant(&self);
        }
        if !done {
            return self.fail_here();
        }
        match &self.stage {
            Stage::AwaitStateOpen { file } => {
                let f = *file;
                let text = match f {
                    StateFile::LastBackup => state_file_contents(self.ts),
                    StateFile::ThresholdDays => state_file_contents(self.threshold_days),
                };
                (
                    BackupRun { stage: Stage::AwaitStateWrite { file: f }, ..self },
                    Op::WriteStateFile(text),
                )
            },
            Stage::AwaitStateWrite { file } => {
                let f = *file;
                (BackupRun { stage: Stage::AwaitStateSync { file: f }, ..self }, Op::SyncStateFile)
            },
            Stage::AwaitStateSync { file } => {
                let f = *file;
                (
                    BackupRun { stage: Stage::AwaitStateRename { file: f }, ..self },
                    Op::Rename { from: state_part_file(f), to: state_file(f) },
                )
            },
            Stage::AwaitStateRename { file } => match *file {
                StateFile::LastBackup => (
                    BackupRun {
                        stage: Stage::AwaitStateOpen { file: StateFile::ThresholdDays },
                        ..self
                    },
                    Op::OpenStateFile(state_part_file(StateFile::ThresholdDays)),
                ),
                StateFile::ThresholdDays => {
                    let name = archive_file_name(self.ts);
                    let copy = name.clone();
                    (
                        BackupRun { stage: Stage::Finished, result: Some(Ok(name)), ..self },
                        Op::Finish(Ok(copy)),
                    )
                },
            },
            _ => (
                BackupRun { stage: Stage::AwaitStateOpen { file: StateFile::LastBackup }, ..self },
                Op::OpenStateFile(state_part_file(StateFile::LastBackup)),
            ),
        }
    }

    fn step_walk(self, outcome: Outcome, done: bool, failure: FailureKind) -> (r: (BackupRun, Op))
        requires
            done == is_done(outcome@),
            failure == failure_of(outcome@),
            in_walk(self@.stage),
        ensures
            (r.0@, r.1@) == next(self@, outcome@),
    {
        proof {
            use_type_invariant(&self);
        }
        match &self.stage {
            Stage::AwaitReadDir { dir, rel } => if done {
                let frame = Frame { dir: dir.clone(), rel: copy_strings(rel) };
                let mut frames = self.frames;
                let ghost before = frame_views(frames@);
                let ghost fv = frame@;
                frames.push(frame);
                assert(frame_views(frames@) =~= before.push(fv));
                (BackupRun { stage: Stage::AwaitEntry, frames: frames, ..self }, Op::NextEntry)
            } else if is_passed_over(failure) {
                self.walk_on()
            } else {
                let c = cat("reading ", dir.as_str());
                self.walk_fail(c)
            },
            Stage::AwaitEntry => match outcome {
                Outcome::Entry(name) => {
                    let k = self.frames.len() - 1;
                    let path = child(&self.frames[k].dir, &name);
                    let mut rel = copy_strings(&self.frames[k].rel);
                    let ghost before = string_views(rel@);
                    let ghost nv = name@;
                    rel.push(name);
                    assert(string_views(rel@) =~= before.push(nv));
                    let p2 = path.clone();
                    (BackupRun { stage: Stage::AwaitEntryMeta { path: path, rel: rel }, ..self },
                        Op::SymlinkMetadata(p2))
                },
                Outcome::NoMoreEntries => {
                    let mut frames = self.frames;
                    let ghost before = frame_views(frames@);
                    let _ = frames.pop();
                    assert(frame_views(frames@) =~= before.drop_last());
                    let run = BackupRun { stage: Stage::AwaitEntryMeta { path: String::new(), rel: Vec::new() }, frames: frames, ..self };
                    run.walk_on()
                },
                _ => if is_passed_over(failure) {
                    self.walk_on()
                } else {
                    let k = self.frames.len() - 1;
                    let c = cat("reading entry in ", self.frames[k].dir.as_str());
                    self.walk_fail(c)
                },
            },
            Stage::AwaitEntryMeta { path, rel } => match outcome {
                Outcome::Metadata(kind) => {
                    let all = concat_strings(&self.prefix, rel);
                    let ap = join_texts(&all);
                    match decide_entry(rel, &self.exclude, kind) {
                        EntryStep::Skip => self.walk_on(),
                        EntryStep::AddDir => {
                            let p = path.clone();
                            let r = copy_strings(rel);
                            let p2 = path.clone();
                            (
                                BackupRun { stage: Stage::AwaitAppendDir { path: p, rel: r }, ..self },
                                Op::AppendDir { archive_path: ap, path: p2 },
                            )
                        },
                        EntryStep::AddFile => {
                            let p = path.clone();
                            let p2 = path.clone();
                            (
                                BackupRun {
                                    stage: Stage::AwaitEntryOpen { path: p, archive_path: ap },
                                    ..self
                                },
                                Op::OpenFile(p2),
                            )
                        },
                        EntryStep::AddSymlink => {
                            let a2 = ap.clone();
                            let p = path.clone();
                            (
                                BackupRun { stage: Stage::AwaitEntryLink { archive_path: ap }, ..self },
                                Op::AppendLink { path: p, archive_path: a2 },
                            )
                        },
                    }
                },
                _ => if is_passed_over(failure) {
                    self.walk_on()
                } else {
                    let c = cat("stat ", path.as_str());
                    self.walk_fail(c)
                },
            },
            Stage::AwaitAppendDir { path, rel } => if done {
                let p = path.clone();
                let r = copy_strings(rel);
                let p2 = path.clone();
                (BackupRun { stage: Stage::AwaitReadDir { dir: p, rel: r }, ..self }, Op::ReadDir(p2))
            } else {
                let all = concat_strings(&self.prefix, rel);
                let ap = join_texts(&all);
                let c = cat3("adding dir ", ap.as_str(), " to archive");
                self.walk_fail(c)
            },
            Stage::AwaitEntryOpen { path, archive_path } => if done {
                let a = archive_path.clone();
                let a2 = archive_path.clone();
                (BackupRun { stage: Stage::AwaitEntryAppend { archive_path: a }, ..self }, Op::AppendFile(a2))
            } else if is_passed_over(failure) {
                self.walk_on()
            } else {
                let c = cat("opening ", path.as_str());
                self.walk_fail(c)
            },
            Stage::AwaitEntryAppend { archive_path } => if done {
                self.walk_on()
            } else {
                let c = cat3("adding ", archive_path.as_str(), " to archive");
                self.walk_fail(c)
            },
            Stage::AwaitEntryLink { archive_path } => if done {
                self.walk_on()
            } else {
                let c = cat3("adding symlink ", archive_path.as_str(), " to archive");
                self.walk_fail(c)
            },
            _ => {
                assert(false);
                self.fail_here()
            },
        }
    }
}


/// Every step keeps the facts of `run_inv`.
pub proof fn lemma_step_keeps_invariant(v: RunView, o: OutcomeView)
    requires
        run_inv(v),
    ensures
        run_inv(next(v, o).0),
{
}

/// A run that has ended stays ended: it answers every outcome with its result.
pub proof fn lemma_finished_run_stays_finished(v: RunView, o: OutcomeView)
    requires
        v.stage is Finished,
    ensures
        next(v, o) == (v, OpView::Finish(v.result->0)),
{
}

/// The archive is renamed into place only when it is complete and its sync succeeded, and
/// then from the partial archive's path to the archive's path.
pub proof fn lemma_rename_only_after_sync(v: RunView, o: OutcomeView)
    requires
        run_inv(v),
        next(v, o).1 is Rename,
        !(v.stage is AwaitStateSync),
    ensures
        v.stage is AwaitSync,
        is_done(o),
        next(v, o).1 == (OpView::Rename { from: part_path(v), to: final_path(v) }),
{
}

/// The run reaches the stages that follow the archive's rename only through a successful
/// rename.
pub proof fn lemma_in_place_only_by_rename(v: RunView, o: OutcomeView)
    requires
        run_inv(v),
        !after_rename(v.stage),
        after_rename(next(v, o).0.stage),
    ensures
        v.stage is AwaitRename,
        is_done(o),
{
}

/// Once the archive is in place the run never goes back to building it.
pub proof fn lemma_in_place_stays(v: RunView, o: OutcomeView)
    requires
        run_inv(v),
        after_rename(v.stage),
    ensures
        after_rename(next(v, o).0.stage) || next(v, o).0.stage is Finished,
{
}

/// Old archives are deleted, and the state files written, only once the new archive is in
/// place.
pub proof fn lemma_cleanup_after_rename(v: RunView, o: OutcomeView)
    requires
        run_inv(v),
        next(v, o).1 is RemoveFile || next(v, o).1 is OpenStateFile || next(v, o).1 is WriteStateFile
            || next(v, o).1 is SyncStateFile,
    ensures
        after_rename(v.stage),
{
}

/// A run that succeeds leaves no partial archive behind; a run that fails while building the
/// archive leaves its partial archive to be removed.
pub proof fn lemma_partial_archive_on_finish(v: RunView, o: OutcomeView)
    requires
        run_inv(v),
        !(v.stage is Finished),
        next(v, o).0.stage is Finished,
    ensures
        next(v, o).0.result matches Some(Ok(_)) ==> next(v, o).0.guard is None,
        building(v.stage) ==> next(v, o).0.guard == Some(part_path(v)),
        before_part(v.stage) ==> next(v, o).0.guard is None,
{
}

/// A successful run reports the name of the archive made at its timestamp.
pub proof fn lemma_success_names_archive(v: RunView, o: OutcomeView)
    requires
        run_inv(v),
        !(v.stage is Finished),
        next(v, o).1 matches OpView::Finish(Ok(_)),
    ensures
        next(v, o).1 == OpView::Finish(Ok(archive_name(v.ts))),
        v.stage == (StageView::AwaitStateRename { file: StateFile::ThresholdDays }),
{
}


/// Below a directory source the run adds an entry only when no component of its path below
/// the source is excluded, and then under the source's archive prefix followed by that path.
pub proof fn lemma_walk_adds_only_included(v: RunView, o: OutcomeView)
    requires
        v.stage is AwaitEntryMeta,
        next(v, o).1 is AppendDir || next(v, o).1 is OpenFile || next(v, o).1 is AppendLink,
    ensures
        !crate::walk::excluded(v.stage->AwaitEntryMeta_rel, v.exclude),
        next(v, o).1 matches OpView::AppendDir { archive_path, .. } ==> archive_path == joined(
            v.prefix + v.stage->AwaitEntryMeta_rel,
        ),
        next(v, o).1 matches OpView::AppendLink { archive_path, .. } ==> archive_path == joined(
            v.prefix + v.stage->AwaitEntryMeta_rel,
        ),
        next(v, o).0.stage matches StageView::AwaitEntryOpen { archive_path, .. } ==> archive_path
            == joined(v.prefix + v.stage->AwaitEntryMeta_rel),
{
}

/// A step never changes what the run was configured with.
pub proof fn lemma_step_keeps_configuration(v: RunView, o: OutcomeView)
    ensures
        next(v, o).0.keep == v.keep,
        next(v, o).0.compression_level == v.compression_level,
        next(v, o).0.destination == v.destination,
        next(v, o).0.sources == v.sources,
        next(v, o).0.exclude == v.exclude,
        next(v, o).0.threshold_days == v.threshold_days,
        next(v, o).0.age_pubkey == v.age_pubkey,
{
}

/// The run compresses at the configured level: once the age header is written it starts
/// compression, and whenever it asks to start compression the level is its configured one.
pub proof fn lemma_compression_at_configured_level(v: RunView, o: OutcomeView)
    ensures
        v.stage is AwaitWrap && o is Done ==> next(v, o).1 == OpView::StartCompression(
            v.compression_level,
        ),
        next(v, o).1 is StartCompression ==> next(v, o).1 == OpView::StartCompression(
            v.compression_level,
        ),
{
}

/// Once it has the destination's listing, the run schedules the deletion of the oldest
/// archives beyond the newest `keep`: as many as there are archives over `keep`, each an
/// archive of the listing, each older than every archive kept, so that exactly `keep`
/// archives remain (all of them when there are fewer).
pub proof fn lemma_listing_keeps_newest(v: RunView, names: Seq<Seq<char>>)
    requires
        v.stage is AwaitListing,
        names.no_duplicates(),
    ensures
        ({
            let del = next(v, OutcomeView::Listing(names)).0.deletions;
            let count = archive_names(names).len();
            &&& del.len() == if count > v.keep { count - v.keep } else { 0 }
            &&& archive_names(names.filter(|n: Seq<char>| !del.contains(n))).len() == if count
                > v.keep {
                v.keep as int
            } else {
                count as int
            }
            &&& forall|i: int|
                0 <= i < del.len() ==> is_archive_name(#[trigger] del[i]) && names.contains(del[i])
            &&& forall|i: int, j: int|
                0 <= i < del.len() && 0 <= j < count && !del.contains(
                    #[trigger] archive_names(names)[j],
                ) ==> lex_le(#[trigger] del[i], archive_names(names)[j])
        }),
{
    let del = next(v, OutcomeView::Listing(names)).0.deletions;
    assert(del == rotation_deletions(names, v.keep as nat));
    lemma_rotation_deletes_oldest(names, v.keep as nat);
    lemma_deletions_distinct(names, v.keep as nat);
    lemma_archives_left(names, del);
}

} // verus!
