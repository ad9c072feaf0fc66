//! Pushing a target: local files that changed since their last upload go
//! up, their remote directories are created first, and a mirror deletes the
//! remote files that are not local. The decisions are made here; the caller
//! touches the disk, the database and the server, and reports back.

use vstd::prelude::*;
use crate::db::Target;
use crate::listing::string_views;
use crate::plan::{
    dir_of, is_dir_of_some, lemma_mkdir_plan_members, lemma_sorted_dirs_lists, mkdir_target, slash_prefixes,
    mirror_deletions, mirror_deletions_of, mkdir_paths, mkdir_plan, remote_form, sorted_dirs,
    upload_dirs,
};
use crate::pull::{path_under, under};
use crate::text::{from_chars, to_chars, trim_end_char, trim_end_chars};
use crate::webdav::{concat_str, error_text, WebDAVError};

verus! {

/// What a push did.
#[derive(Debug, Clone)]
pub struct PushSummary {
    pub uploaded: u32,
    pub skipped: u32,
    pub deleted: u32,
    pub errors: Vec<String>,
}

/// The mathematical content of a [`PushSummary`].
pub struct PushSummaryView {
    pub uploaded: u32,
    pub skipped: u32,
    pub deleted: u32,
    pub errors: Seq<Seq<char>>,
}

impl View for PushSummary {
    type V = PushSummaryView;

    open spec fn view(&self) -> PushSummaryView {
        PushSummaryView {
            uploaded: self.uploaded,
            skipped: self.skipped,
            deleted: self.deleted,
            errors: string_views(self.errors@),
        }
    }
}

/// The summary of a push that has done nothing.
pub open spec fn empty_push_summary() -> PushSummaryView {
    PushSummaryView { uploaded: 0, skipped: 0, deleted: 0, errors: seq![] }
}

impl Default for PushSummary {
    fn default() -> (r: Self)
        ensures
            r@ == empty_push_summary(),
    {
        let r = PushSummary { uploaded: 0, skipped: 0, deleted: 0, errors: Vec::new() };
        assert(r@.errors =~= Seq::<Seq<char>>::empty());
        r
    }
}

/// Progress reports of a push.
#[derive(Debug, Clone)]
pub enum PushProgress {
    File { current_file: String, files_done: u32, files_total: u32 },
    Complete { success: bool, summary: PushSummary },
}

/// The final report of a push: success when nothing failed; a push that
/// could not run reports its error as the only one.
pub fn push_completion(result: Result<PushSummary, String>) -> (p: PushProgress)
    ensures
        match result {
            Ok(s) => p matches PushProgress::Complete { success, summary } && success == (s.errors@.len()
                == 0) && summary@ == s@,
            Err(e) => p matches PushProgress::Complete { success, summary } && !success && summary@
                == (PushSummaryView { uploaded: 0, skipped: 0, deleted: 0, errors: seq![e@] }),
        },
{
    match result {
        Ok(summary) => {
            let success = summary.errors.len() == 0;
            PushProgress::Complete { success, summary }
        },
        Err(e) => {
            let mut errors: Vec<String> = Vec::new();
            errors.push(e);
            let summary = PushSummary { uploaded: 0, skipped: 0, deleted: 0, errors };
            assert(summary@.errors =~= seq![e@]);
            PushProgress::Complete { success: false, summary }
        },
    }
}

/// The error for a local folder that is not a directory.
pub fn missing_local_path(local_path: &str) -> (r: String)
    ensures
        r@ == "Local path does not exist: "@ + local_path@,
{
    concat_str("Local path does not exist: ", local_path)
}

/// What a push would do, known once every local file has been compared
/// with its stored state.
#[derive(Debug, Clone, Copy, PartialEq, Eq, Structural)]
pub struct PushPlan {
    /// Local files that changed since their last upload.
    pub to_upload: u32,
    /// Local files unchanged since their last upload.
    pub to_skip: u32,
    /// Whether the target mirrors (remote files not local get deleted).
    pub is_mirror: bool,
}

/// Every local file has been compared, and the push has not failed.
pub open spec fn compared_all(v: PushView) -> bool {
    &&& v.failure is None
    &&& v.phase != PushPhase::OpenDb
    &&& v.phase != PushPhase::Scan
    &&& v.phase != PushPhase::Clear
    &&& v.phase != PushPhase::Check
}

/// Where a push is.
#[derive(Debug, Clone, Copy, PartialEq, Eq, Structural)]
pub enum PushPhase {
    /// Opening the database of file states.
    OpenDb,
    /// Listing the local files.
    Scan,
    /// Forgetting the stored file states (forced push).
    Clear,
    /// Comparing each local file with its stored state.
    Check,
    /// Creating remote directories.
    Mkdir,
    /// Uploading a file.
    Upload,
    /// Storing the state of a file just uploaded.
    Record,
    /// Listing the remote folder (mirror).
    List,
    /// Deleting remote files missing locally (mirror).
    Delete,
    /// Storing the time of the push.
    LastPush,
    /// Finished.
    Done,
}

/// What the caller does next.
#[derive(Debug)]
pub enum PushStep {
    /// Open the database.
    OpenDatabase,
    /// List the files below this local folder, as relative paths.
    ScanLocal(String),
    /// Delete the target's stored file states.
    ClearFileStates,
    /// Tell whether local file `index` is unchanged since its stored state.
    CheckFileState { index: usize, rel_path: String },
    /// Create this remote directory.
    CreateDirectory(String),
    /// Report `progress`, then upload local file `index`.
    Upload { index: usize, local_file: String, remote_file: String, progress: PushProgress },
    /// Store the state of local file `index`, just uploaded.
    RecordFileState { index: usize, rel_path: String },
    /// List this remote folder recursively.
    ListRemote(String),
    /// Delete this remote file.
    DeleteRemote(String),
    /// Store the time of the push.
    RecordLastPush,
    /// The push is over; its outcome is ready.
    Finished,
}

/// The mathematical content of a push in progress.
pub struct PushView {
    pub remote: Seq<char>,
    pub local: Seq<char>,
    pub mirror: bool,
    pub force: bool,
    /// The local files, as paths relative to the local folder.
    pub rels: Seq<Seq<char>>,
    pub phase: PushPhase,
    /// The position in the current phase's list.
    pub index: int,
    /// The local files to upload, by position in `rels`.
    pub uploads: Seq<int>,
    pub mkdirs: Seq<Seq<char>>,
    pub deletions: Seq<Seq<char>>,
    pub summary: PushSummaryView,
    pub failure: Option<Seq<char>>,
}

/// The relative paths of the files to upload.
pub open spec fn upload_rels(v: PushView) -> Seq<Seq<char>> {
    v.uploads.map_values(|i: int| v.rels[i])
}

/// Moves past the phases whose list is used up: once every file has been
/// checked, the directories to create are planned; after the directories
/// come the uploads; after the uploads the mirror listing, or the time of the
/// push; after the deletions the time of the push.
pub open spec fn settle(v: PushView) -> PushView {
    let v1 = if v.phase == PushPhase::Check && v.index >= v.rels.len() {
        PushView {
            phase: PushPhase::Mkdir,
            index: 0,
            mkdirs: mkdir_plan(v.remote, sorted_dirs(upload_rels(v))),
            ..v
        }
    } else {
        v
    };
    let v2 = if v1.phase == PushPhase::Mkdir && v1.index >= v1.mkdirs.len() {
        PushView { phase: PushPhase::Upload, index: 0, ..v1 }
    } else {
        v1
    };
    let v3 = if v2.phase == PushPhase::Upload && v2.index >= v2.uploads.len() {
        PushView {
            phase: if v2.mirror {
                PushPhase::List
            } else {
                PushPhase::LastPush
            },
            index: 0,
            ..v2
        }
    } else {
        v2
    };
    if v3.phase == PushPhase::Delete && v3.index >= v3.deletions.len() {
        PushView { phase: PushPhase::LastPush, index: 0, ..v3 }
    } else {
        v3
    }
}

/// How many local files have been compared with their stored state.
pub open spec fn checked_count(v: PushView) -> int {
    if v.phase == PushPhase::OpenDb || v.phase == PushPhase::Scan || v.phase == PushPhase::Clear {
        0
    } else if v.phase == PushPhase::Check {
        v.index
    } else {
        v.rels.len() as int
    }
}

/// How many uploads have been done.
pub open spec fn uploads_done(v: PushView) -> int {
    if v.phase == PushPhase::Upload {
        v.index
    } else if v.phase == PushPhase::Record {
        v.index + 1
    } else if v.phase == PushPhase::List || v.phase == PushPhase::Delete || v.phase
        == PushPhase::LastPush || v.phase == PushPhase::Done {
        v.uploads.len() as int
    } else {
        0
    }
}

/// How many deletions have been done.
pub open spec fn deletions_done(v: PushView) -> int {
    if v.phase == PushPhase::Delete {
        v.index
    } else if v.phase == PushPhase::LastPush || v.phase == PushPhase::Done {
        v.deletions.len() as int
    } else {
        0
    }
}

/// What holds of a push between two steps, before used-up phases are left.
pub open spec fn push_pre_wf(v: PushView) -> bool {
    &&& v.rels.len() <= u32::MAX
    &&& v.deletions.len() <= u32::MAX
    &&& (v.phase == PushPhase::OpenDb || v.phase == PushPhase::Scan) ==> v.rels.len() == 0
    &&& forall|k: int| 0 <= k < v.uploads.len() ==> 0 <= #[trigger] v.uploads[k] < v.rels.len()
    &&& forall|a: int, b: int| 0 <= a < b < v.uploads.len() ==> #[trigger] v.uploads[a] < #[trigger] v.uploads[b]
    &&& v.phase == PushPhase::Check ==> forall|k: int| 0 <= k < v.uploads.len() ==> #[trigger] v.uploads[k] < v.index
    &&& v.summary.skipped + v.uploads.len() == checked_count(v)
    &&& v.summary.uploaded <= uploads_done(v)
    &&& v.summary.deleted <= deletions_done(v)
    &&& v.index >= 0
    &&& v.phase == PushPhase::Check ==> v.index <= v.rels.len()
    &&& v.phase == PushPhase::Mkdir ==> v.index <= v.mkdirs.len()
    &&& v.phase == PushPhase::Upload ==> v.index <= v.uploads.len()
    &&& v.phase == PushPhase::Record ==> v.index < v.uploads.len()
    &&& v.phase == PushPhase::Delete ==> v.index <= v.deletions.len()
}

/// The invariant of a push. Among others: every local file checked so far
/// is either skipped or planned for upload, exactly once, no file is
/// planned twice, and no more files are uploaded or deleted than planned.
pub open spec fn push_wf(v: PushView) -> bool {
    &&& push_pre_wf(v)
    &&& v.phase == PushPhase::Check ==> v.index < v.rels.len()
    &&& v.phase == PushPhase::Mkdir ==> v.index < v.mkdirs.len()
    &&& v.phase == PushPhase::Upload ==> v.index < v.uploads.len()
    &&& v.phase == PushPhase::Delete ==> v.index < v.deletions.len()
}

/// Leaving used-up phases turns the in-between invariant into the invariant.
pub proof fn lemma_settle_wf(v: PushView)
    requires
        push_pre_wf(v),
    ensures
        push_wf(settle(v)),
        settle(v).summary == v.summary,
        settle(v).failure == v.failure,
        settle(v).rels == v.rels,
        settle(v).uploads == v.uploads,
        settle(v).remote == v.remote,
        settle(v).local == v.local,
{
}

/// `r` is the step a push in state `v` asks for.
pub open spec fn step_is(v: PushView, r: PushStep) -> bool {
    match v.phase {
        PushPhase::OpenDb => r is OpenDatabase,
        PushPhase::Scan => r matches PushStep::ScanLocal(p) && p@ == v.local,
        PushPhase::Clear => r is ClearFileStates,
        PushPhase::Check => r matches PushStep::CheckFileState { index, rel_path } && index == v.index
            && rel_path@ == v.rels[v.index],
        PushPhase::Mkdir => r matches PushStep::CreateDirectory(p) && p@ == v.mkdirs[v.index],
        PushPhase::Upload => {
            let f = v.uploads[v.index];
            let rel = v.rels[f];
            r matches PushStep::Upload { index, local_file, remote_file, progress } && index == f
                && local_file@ == under(v.local, rel) && remote_file@ == remote_form(v.remote, rel)
                && (progress matches PushProgress::File { current_file, files_done, files_total }
                && current_file@ == rel && files_done == v.index && files_total == v.uploads.len())
        },
        PushPhase::Record => r matches PushStep::RecordFileState { index, rel_path } && index
            == v.uploads[v.index] && rel_path@ == v.rels[v.uploads[v.index]],
        PushPhase::List => r matches PushStep::ListRemote(p) && p@ == v.remote,
        PushPhase::Delete => r matches PushStep::DeleteRemote(p) && p@ == v.deletions[v.index],
        PushPhase::LastPush => r is RecordLastPush,
        PushPhase::Done => r is Finished,
    }
}

/// A push in progress.
#[derive(Debug)]
pub struct PushRun {
    remote_path: String,
    local_path: String,
    mirror: bool,
    force: bool,
    rels: Vec<String>,
    phase: PushPhase,
    index: usize,
    uploads: Vec<usize>,
    mkdirs: Vec<String>,
    deletions: Vec<String>,
    summary: PushSummary,
    error: Option<String>,
}

impl View for PushRun {
    type V = PushView;

    closed spec fn view(&self) -> PushView {
        PushView {
            remote: self.remote_path@,
            local: self.local_path@,
            mirror: self.mirror,
            force: self.force,
            rels: string_views(self.rels@),
            phase: self.phase,
            index: self.index as int,
            uploads: self.uploads@.map_values(|i: usize| i as int),
            mkdirs: string_views(self.mkdirs@),
            deletions: string_views(self.deletions@),
            summary: self.summary@,
            failure: match self.error {
                Some(e) => Some(e@),
                None => None,
            },
        }
    }
}

impl PushRun {
    /// A push of `target`; a forced push forgets the stored file states and
    /// uploads everything.
    pub fn new(target: &Target, force: bool) -> (r: Self)
        ensures
            push_wf(r@),
            r@ == (PushView {
                remote: target.remote_path@,
                local: target.local_path@,
                mirror: target.mode@ == "mirror"@,
                force,
                rels: seq![],
                phase: PushPhase::OpenDb,
                index: 0,
                uploads: seq![],
                mkdirs: seq![],
                deletions: seq![],
                summary: empty_push_summary(),
                failure: None,
            }),
    {
        let r = PushRun {
            remote_path: target.remote_path.clone(),
            local_path: target.local_path.clone(),
            mirror: target.is_mirror(),
            force,
            rels: Vec::new(),
            phase: PushPhase::OpenDb,
            index: 0,
            uploads: Vec::new(),
            mkdirs: Vec::new(),
            deletions: Vec::new(),
            summary: PushSummary::default(),
            error: None,
        };
        assert(r@.rels =~= Seq::<Seq<char>>::empty());
        assert(r@.uploads =~= Seq::<int>::empty());
        assert(r@.mkdirs =~= Seq::<Seq<char>>::empty());
        assert(r@.deletions =~= Seq::<Seq<char>>::empty());
        r
    }

    /// The step the push asks for now.
    pub fn next_step(&self) -> (r: PushStep)
        requires
            push_wf(self@),
        ensures
            step_is(self@, r),
    {
        match self.phase {
            PushPhase::OpenDb => PushStep::OpenDatabase,
            PushPhase::Scan => PushStep::ScanLocal(self.local_path.clone()),
            PushPhase::Clear => PushStep::ClearFileStates,
            PushPhase::Check => PushStep::CheckFileState {
                index: self.index,
                rel_path: self.rels[self.index].clone(),
            },
            PushPhase::Mkdir => PushStep::CreateDirectory(self.mkdirs[self.index].clone()),
            PushPhase::Upload => {
                let f = self.uploads[self.index];
                assert(self@.uploads[self.index as int] == f as int);
                let rel = self.rels[f].as_str();
                let local_file = path_under(self.local_path.as_str(), rel);
                let rc = to_chars(self.remote_path.as_str());
                let base = trim_end_chars(rc.as_slice(), '/');
                let base_s = from_chars(base.as_slice());
                let remote_file = path_under(base_s.as_str(), rel);
                let progress = PushProgress::File {
                    current_file: self.rels[f].clone(),
                    files_done: self.index as u32,
                    files_total: self.uploads.len() as u32,
                };
                PushStep::Upload { index: f, local_file, remote_file, progress }
            },
            PushPhase::Record => {
                let f = self.uploads[self.index];
                assert(self@.uploads[self.index as int] == f as int);
                PushStep::RecordFileState { index: f, rel_path: self.rels[f].clone() }
            },
            PushPhase::List => PushStep::ListRemote(self.remote_path.clone()),
            PushPhase::Delete => PushStep::DeleteRemote(self.deletions[self.index].clone()),
            PushPhase::LastPush => PushStep::RecordLastPush,
            PushPhase::Done => PushStep::Finished,
        }
    }

    /// Moves past used-up phases (see [`settle`]).
    fn settle(&mut self)
        requires
            old(self)@.rels.len() <= u32::MAX,
            old(self)@.deletions.len() <= u32::MAX,
            forall|k: int| 0 <= k < old(self)@.uploads.len() ==> 0 <= #[trigger] old(self)@.uploads[k] < old(self)@.rels.len(),
        ensures
            final(self)@ == settle(old(self)@),
    {
        let ghost v0 = self@;
        if self.phase == PushPhase::Check && self.index >= self.rels.len() {
            let mut chosen: Vec<String> = Vec::new();
            let mut k: usize = 0;
            while k < self.uploads.len()
                invariant
                    v0 == old(self)@,
                    self@ == v0,
                    k <= v0.uploads.len(),
                    string_views(chosen@) == upload_rels(v0).take(k as int),
                    forall|j: int| 0 <= j < v0.uploads.len() ==> 0 <= #[trigger] v0.uploads[j] < v0.rels.len(),
                decreases v0.uploads.len() - k,
            {
                let f = self.uploads[k];
                assert(v0.uploads[k as int] == f as int);
                assert(upload_rels(v0)[k as int] == v0.rels[f as int]);
                assert(v0.rels[f as int] == self.rels@[f as int]@);
                let ghost before = chosen@;
                chosen.push(self.rels[f].clone());
                assert(string_views(chosen@) =~= string_views(before).push(v0.rels[f as int]));
                assert(upload_rels(v0).take(k + 1) =~= upload_rels(v0).take(k as int).push(upload_rels(v0)[k as int]));
                k = k + 1;
            }
            assert(upload_rels(v0).take(v0.uploads.len() as int) =~= upload_rels(v0));
            let dirs = upload_dirs(&chosen);
            self.mkdirs = mkdir_paths(self.remote_path.as_str(), &dirs);
            self.phase = PushPhase::Mkdir;
            self.index = 0;
        }
        if self.phase == PushPhase::Mkdir && self.index >= self.mkdirs.len() {
            self.phase = PushPhase::Upload;
            self.index = 0;
        }
        if self.phase == PushPhase::Upload && self.index >= self.uploads.len() {
            self.phase = if self.mirror {
                PushPhase::List
            } else {
                PushPhase::LastPush
            };
            self.index = 0;
        }
        if self.phase == PushPhase::Delete && self.index >= self.deletions.len() {
            self.phase = PushPhase::LastPush;
            self.index = 0;
        }
        assert(self@ =~= settle(v0));
    }

    /// The database is open, or could not be opened ("DB error: ...").
    pub fn database_opened(&mut self, result: Result<(), String>)
        requires
            push_wf(old(self)@),
            old(self)@.phase == PushPhase::OpenDb,
        ensures
            push_wf(final(self)@),
            match result {
                Ok(()) => final(self)@ == (PushView { phase: PushPhase::Scan, ..old(self)@ }),
                Err(e) => final(self)@ == (PushView {
                    phase: PushPhase::Done,
                    failure: Some("DB error: "@ + e@),
                    ..old(self)@
                }),
            },
    {
        match result {
            Ok(()) => {
                self.phase = PushPhase::Scan;
            },
            Err(e) => {
                self.error = Some(concat_str("DB error: ", e.as_str()));
                self.phase = PushPhase::Done;
            },
        }
    }

    /// The local files, as paths relative to the local folder, or why they
    /// could not be listed. A forced push then forgets the stored states;
    /// otherwise each file is compared with its stored state.
    pub fn scanned(&mut self, result: Result<Vec<String>, String>)
        requires
            push_wf(old(self)@),
            old(self)@.phase == PushPhase::Scan,
            result matches Ok(v) ==> v@.len() <= u32::MAX,
        ensures
            push_wf(final(self)@),
            match result {
                Err(e) => final(self)@ == (PushView { phase: PushPhase::Done, failure: Some(e@), ..old(self)@ }),
                Ok(v) => if old(self)@.force {
                    final(self)@ == (PushView { rels: string_views(v@), phase: PushPhase::Clear, index: 0, ..old(self)@ })
                } else {
                    final(self)@ == settle(PushView { rels: string_views(v@), phase: PushPhase::Check, index: 0, ..old(self)@ })
                },
            },
    {
        match result {
            Err(e) => {
                self.error = Some(e);
                self.phase = PushPhase::Done;
            },
            Ok(v) => {
                self.rels = v;
                self.index = 0;
                if self.force {
                    self.phase = PushPhase::Clear;
                } else {
                    self.phase = PushPhase::Check;
                    proof {
                        lemma_settle_wf(self@);
                    }
                    self.settle();
                }
            },
        }
    }

    /// The stored file states are forgotten; each file is then compared.
    pub fn cleared(&mut self)
        requires
            push_wf(old(self)@),
            old(self)@.phase == PushPhase::Clear,
        ensures
            push_wf(final(self)@),
            final(self)@ == settle(PushView { phase: PushPhase::Check, index: 0, ..old(self)@ }),
    {
        self.phase = PushPhase::Check;
        self.index = 0;
        proof {
            lemma_settle_wf(self@);
        }
        self.settle();
    }

    /// Whether the current file is unchanged since its stored state (same
    /// size, modification time within a millisecond): unchanged files are
    /// skipped, the others are planned for upload.
    pub fn checked(&mut self, unchanged: bool)
        requires
            push_wf(old(self)@),
            old(self)@.phase == PushPhase::Check,
        ensures
            push_wf(final(self)@),
            unchanged ==> final(self)@ == settle(PushView {
                index: old(self)@.index + 1,
                summary: PushSummaryView { skipped: (old(self)@.summary.skipped + 1) as u32, ..old(self)@.summary },
                ..old(self)@
            }),
            !unchanged ==> final(self)@ == settle(PushView {
                index: old(self)@.index + 1,
                uploads: old(self)@.uploads.push(old(self)@.index),
                ..old(self)@
            }),
    {
        let ghost v0 = self@;
        if unchanged {
            self.summary.skipped = self.summary.skipped + 1;
        } else {
            self.uploads.push(self.index);
            assert(self@.uploads =~= v0.uploads.push(v0.index));
        }
        self.index = self.index + 1;
        proof {
            lemma_settle_wf(self@);
        }
        self.settle();
    }

    /// The current directory is created, or its error is recorded as
    /// "mkdir {path}: {error}".
    pub fn directory_created(&mut self, result: Result<(), WebDAVError>)
        requires
            push_wf(old(self)@),
            old(self)@.phase == PushPhase::Mkdir,
        ensures
            push_wf(final(self)@),
            result is Ok ==> final(self)@ == settle(PushView { index: old(self)@.index + 1, ..old(self)@ }),
            result matches Err(e) ==> final(self)@ == settle(PushView {
                index: old(self)@.index + 1,
                summary: PushSummaryView {
                    errors: old(self)@.summary.errors.push(
                        "mkdir "@ + old(self)@.mkdirs[old(self)@.index] + ": "@ + error_text(e),
                    ),
                    ..old(self)@.summary
                },
                ..old(self)@
            }),
 {
        let n = self.mkdirs.len();
        match result {
            Ok(()) => {},
            Err(e) => {
                let a = concat_str("mkdir ", self.mkdirs[self.index].as_str());
                let b = concat_str(a.as_str(), ": ");
                let m = e.message();
                let line = concat_str(b.as_str(), m.as_str());
                let ghost before = self.summary.errors@;
                self.summary.errors.push(line);
                assert(string_views(self.summary.errors@) =~= string_views(before).push(line@));
            },
        }
        self.index = self.index + 1;
        proof {
            lemma_settle_wf(self@);
        }
        self.settle();
    }

    /// The current file is uploaded (its state is stored next), or its error
    /// is recorded as "{relative path}: {error}".
    pub fn uploaded(&mut self, result: Result<(), WebDAVError>)
        requires
            push_wf(old(self)@),
            old(self)@.phase == PushPhase::Upload,
        ensures
            push_wf(final(self)@),
            result is Ok ==> final(self)@ == (PushView {
                phase: PushPhase::Record,
                summary: PushSummaryView { uploaded: (old(self)@.summary.uploaded + 1) as u32, ..old(self)@.summary },
                ..old(self)@
            }),
            result matches Err(e) ==> final(self)@ == settle(PushView {
                index: old(self)@.index + 1,
                summary: PushSummaryView {
                    errors: old(self)@.summary.errors.push(
                        old(self)@.rels[old(self)@.uploads[old(self)@.index]] + ": "@ + error_text(e),
                    ),
                    ..old(self)@.summary
                },
                ..old(self)@
            }),
    {
        match result {
            Ok(()) => {
                self.summary.uploaded = self.summary.uploaded + 1;
                self.phase = PushPhase::Record;
            },
            Err(e) => {
                let f = self.uploads[self.index];
                assert(self@.uploads[self.index as int] == f as int);
                let a = concat_str(self.rels[f].as_str(), ": ");
                let m = e.message();
                let line = concat_str(a.as_str(), m.as_str());
                let ghost before = self.summary.errors@;
                self.summary.errors.push(line);
                assert(string_views(self.summary.errors@) =~= string_views(before).push(line@));
                self.index = self.index + 1;
                proof {
                    lemma_settle_wf(self@);
                }
                self.settle();
            },
        }
    }

    /// The state of the file just uploaded is stored; on to the next upload.
    pub fn recorded(&mut self)
        requires
            push_wf(old(self)@),
            old(self)@.phase == PushPhase::Record,
        ensures
            push_wf(final(self)@),
            final(self)@ == settle(PushView { phase: PushPhase::Upload, index: old(self)@.index + 1, ..old(self)@ }),
    {
        self.phase = PushPhase::Upload;
        self.index = self.index + 1;
        proof {
            lemma_settle_wf(self@);
        }
        self.settle();
    }

    /// The recursive listing of the remote folder (mirror): the remote files
    /// that are not local get deleted; a failed listing is recorded as
    /// "Mirror listing failed: {error}".
    pub fn listed(&mut self, result: Result<Vec<String>, WebDAVError>)
        requires
            push_wf(old(self)@),
            old(self)@.phase == PushPhase::List,
            result matches Ok(v) ==> v@.len() <= u32::MAX,
        ensures
            push_wf(final(self)@),
            result matches Ok(v) ==> final(self)@ == settle(PushView {
                phase: PushPhase::Delete,
                index: 0,
                deletions: mirror_deletions_of(old(self)@.remote, old(self)@.rels, string_views(v@)),
                ..old(self)@
            }),
            result matches Err(e) ==> final(self)@ == (PushView {
                phase: PushPhase::LastPush,
                index: 0,
                summary: PushSummaryView {
                    errors: old(self)@.summary.errors.push("Mirror listing failed: "@ + error_text(e)),
                    ..old(self)@.summary
                },
                ..old(self)@
            }),
    {
        match result {
            Ok(files) => {
                let d = mirror_deletions(self.remote_path.as_str(), &self.rels, &files);
                proof {
                    lemma_deletions_len(self@.remote, self@.rels, string_views(files@));
                }
                self.deletions = d;
                self.phase = PushPhase::Delete;
                self.index = 0;
                proof {
                    lemma_settle_wf(self@);
                }
                self.settle();
            },
            Err(e) => {
                let m = e.message();
                let line = concat_str("Mirror listing failed: ", m.as_str());
                let ghost before = self.summary.errors@;
                self.summary.errors.push(line);
                assert(string_views(self.summary.errors@) =~= string_views(before).push(line@));
                self.phase = PushPhase::LastPush;
                self.index = 0;
            },
        }
    }

    /// The current remote file is deleted, or its error is recorded as
    /// "delete {path}: {error}".
    pub fn deleted(&mut self, result: Result<(), WebDAVError>)
        requires
            push_wf(old(self)@),
            old(self)@.phase == PushPhase::Delete,
        ensures
            push_wf(final(self)@),
            result is Ok ==> final(self)@ == settle(PushView {
                index: old(self)@.index + 1,
                summary: PushSummaryView { deleted: (old(self)@.summary.deleted + 1) as u32, ..old(self)@.summary },
                ..old(self)@
            }),
            result matches Err(e) ==> final(self)@ == settle(PushView {
                index: old(self)@.index + 1,
                summary: PushSummaryView {
                    errors: old(self)@.summary.errors.push(
                        "delete "@ + old(self)@.deletions[old(self)@.index] + ": "@ + error_text(e),
                    ),
                    ..old(self)@.summary
                },
                ..old(self)@
            }),
    {
        match result {
            Ok(()) => {
                self.summary.deleted = self.summary.deleted + 1;
            },
            Err(e) => {
                let a = concat_str("delete ", self.deletions[self.index].as_str());
                let b = concat_str(a.as_str(), ": ");
                let m = e.message();
                let line = concat_str(b.as_str(), m.as_str());
                let ghost before = self.summary.errors@;
                self.summary.errors.push(line);
                assert(string_views(self.summary.errors@) =~= string_views(before).push(line@));
            },
        }
        self.index = self.index + 1;
        proof {
            lemma_settle_wf(self@);
        }
        self.settle();
    }

    /// The time of the push is stored: the push is over.
    pub fn last_push_recorded(&mut self)
        requires
            push_wf(old(self)@),
            old(self)@.phase == PushPhase::LastPush,
        ensures
            push_wf(final(self)@),
            final(self)@ == (PushView { phase: PushPhase::Done, ..old(self)@ }),
    {
        self.phase = PushPhase::Done;
    }

    /// The plan of the push, once every local file has been compared: how
    /// many files go up and how many are skipped. A caller that only wants
    /// the plan runs the push up to this point and stops.
    pub fn plan(&self) -> (r: Option<PushPlan>)
        requires
            push_wf(self@),
        ensures
            compared_all(self@) ==> (r matches Some(p) && p.to_upload == self@.uploads.len() && p.to_skip
                == self@.summary.skipped && p.is_mirror == self@.mirror),
            !compared_all(self@) ==> r is None,
    {
        if self.error.is_some() {
            return None;
        }
        match self.phase {
            PushPhase::OpenDb | PushPhase::Scan | PushPhase::Clear | PushPhase::Check => None,
            _ => {
                let n = self.uploads.len();
                assert(n <= self.rels@.len());
                Some(PushPlan { to_upload: n as u32, to_skip: self.summary.skipped, is_mirror: self.mirror })
            },
        }
    }

    /// The outcome once finished: the summary, or why the push could not run.
    pub fn outcome(self) -> (r: Result<PushSummary, String>)
        ensures
            match self@.failure {
                Some(e) => r matches Err(m) && m@ == e,
                None => r matches Ok(s) && s@ == self@.summary,
            },
    {
        match self.error {
            Some(e) => Err(e),
            None => Ok(self.summary),
        }
    }
}

/// A mirror deletes no more files than were listed.
proof fn lemma_deletions_len(remote: Seq<char>, rels: Seq<Seq<char>>, files: Seq<Seq<char>>)
    ensures
        mirror_deletions_of(remote, rels, files).len() <= files.len(),
    decreases files.len(),
{
    if files.len() > 0 {
        lemma_deletions_len(remote, rels, files.drop_last());
    }
}


/// `x` is a level (from the top down) of the remote folder of a file to
/// upload.
pub open spec fn above_an_upload(v: PushView, x: Seq<char>) -> bool {
    exists|u: int, d: Seq<char>|
        0 <= u < v.uploads.len() && dir_of(v.rels[#[trigger] v.uploads[u]]) == Some(d) && #[trigger] slash_prefixes(
            mkdir_target(v.remote, d),
        ).contains(x)
}

/// The folders a push creates are those of the files it uploads: once every
/// local file has been compared, each directory to create is a level (from
/// the top down) of the remote folder of a file to upload, and the remote
/// folder of every file to upload is among them. A push that uploads only
/// files lying in no folder creates none; unchanged files never make a
/// folder be created.
pub proof fn law_push_creates_upload_folders(v: PushView)
    requires
        v.phase == PushPhase::Check,
        v.index >= v.rels.len(),
        forall|k: int| 0 <= k < v.uploads.len() ==> 0 <= #[trigger] v.uploads[k] < v.rels.len(),
    ensures
        forall|j: int| 0 <= j < settle(v).mkdirs.len() ==> above_an_upload(v, #[trigger] settle(v).mkdirs[j]),
        forall|u: int, d: Seq<char>|
            0 <= u < v.uploads.len() && dir_of(v.rels[#[trigger] v.uploads[u]]) == Some(d) ==> #[trigger] settle(
                v,
            ).mkdirs.contains(mkdir_target(v.remote, d)),
{
    let ups = upload_rels(v);
    let dirs = sorted_dirs(ups);
    lemma_sorted_dirs_lists(ups);
    let m = settle(v).mkdirs;
    assert(m == mkdir_plan(v.remote, dirs));
    assert forall|j: int| 0 <= j < m.len() implies above_an_upload(v, #[trigger] m[j]) by {
        assert(m.contains(m[j]));
        lemma_mkdir_plan_members(v.remote, dirs, m[j]);
        let k = choose|k: int| 0 <= k < dirs.len() && #[trigger] slash_prefixes(mkdir_target(v.remote, dirs[k])).contains(m[j]);
        assert(dirs.contains(dirs[k]));
        assert(is_dir_of_some(ups, dirs[k]));
        let i = choose|i: int| 0 <= i < ups.len() && dir_of(#[trigger] ups[i]) == Some(dirs[k]);
        assert(ups[i] == v.rels[v.uploads[i]]);
    }
    assert forall|u: int, d: Seq<char>|
        0 <= u < v.uploads.len() && dir_of(v.rels[#[trigger] v.uploads[u]]) == Some(d) implies #[trigger] m.contains(
            mkdir_target(v.remote, d),
        ) by {
        assert(ups[u] == v.rels[v.uploads[u]]);
        assert(is_dir_of_some(ups, d));
        assert(dirs.contains(d));
        let k = choose|k: int| 0 <= k < dirs.len() && dirs[k] == d;
        let t = mkdir_target(v.remote, d);
        assert(slash_prefixes(t).last() == t);
        assert(slash_prefixes(t).contains(t));
        lemma_mkdir_plan_members(v.remote, dirs, t);
    }
}

} // verus!
