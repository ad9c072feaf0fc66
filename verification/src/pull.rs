//! Pulling a target: every remote file below the target's remote folder that
//! is missing locally gets downloaded. The decisions are made here; the
//! caller lists, checks the disk and downloads, and reports back.

use vstd::prelude::*;
use crate::db::Target;
use crate::listing::string_views;
use crate::text::{
    chars_eq, from_chars, push_all, slice_of, to_chars, trim_end_char, trim_end_chars,
    trim_start_char, trim_start_chars,
};
use crate::webdav::{concat_str, error_text, WebDAVError};

verus! {

/// What a pull did.
#[derive(Debug, Clone)]
pub struct PullSummary {
    pub downloaded: u32,
    pub skipped: u32,
    pub errors: Vec<String>,
    pub cancelled: bool,
}

/// The mathematical content of a [`PullSummary`].
pub struct PullSummaryView {
    pub downloaded: u32,
    pub skipped: u32,
    pub errors: Seq<Seq<char>>,
    pub cancelled: bool,
}

impl View for PullSummary {
    type V = PullSummaryView;

    open spec fn view(&self) -> PullSummaryView {
        PullSummaryView {
            downloaded: self.downloaded,
            skipped: self.skipped,
            errors: string_views(self.errors@),
            cancelled: self.cancelled,
        }
    }
}

/// The summary of a pull that has done nothing.
pub open spec fn empty_pull_summary() -> PullSummaryView {
    PullSummaryView { downloaded: 0, skipped: 0, errors: seq![], cancelled: false }
}

impl Default for PullSummary {
    fn default() -> (r: Self)
        ensures
            r@ == empty_pull_summary(),
    {
        let r = PullSummary { downloaded: 0, skipped: 0, errors: Vec::new(), cancelled: false };
        assert(r@.errors =~= Seq::<Seq<char>>::empty());
        r
    }
}

/// Progress reports of a pull.
#[derive(Debug, Clone)]
pub enum PullProgress {
    File { current_file: String, files_done: u32, files_total: u32 },
    Complete { success: bool, summary: PullSummary },
}

/// The final report of a pull: success when nothing failed and it was not
/// cancelled; a pull that could not run reports its error as the only one.
pub fn pull_completion(result: Result<PullSummary, String>) -> (p: PullProgress)
    ensures
        match result {
            Ok(s) => p matches PullProgress::Complete { success, summary } && success == (s.errors@.len()
                == 0 && !s.cancelled) && summary@ == s@,
            Err(e) => p matches PullProgress::Complete { success, summary } && !success && summary@
                == (PullSummaryView { downloaded: 0, skipped: 0, errors: seq![e@], cancelled: false }),
        },
{
    match result {
        Ok(summary) => {
            let success = summary.errors.len() == 0 && !summary.cancelled;
            PullProgress::Complete { success, summary }
        },
        Err(e) => {
            let mut errors: Vec<String> = Vec::new();
            errors.push(e);
            let summary = PullSummary { downloaded: 0, skipped: 0, errors, cancelled: false };
            assert(summary@.errors =~= seq![e@]);
            PullProgress::Complete { success: false, summary }
        },
    }
}

/// `t` without the prefix `b`, if it starts with `b` (`str::strip_prefix`).
pub open spec fn strip_prefix_of(t: Seq<char>, b: Seq<char>) -> Option<Seq<char>> {
    if b.len() <= t.len() && t.take(b.len() as int) == b {
        Some(t.skip(b.len() as int))
    } else {
        None
    }
}

/// The path of a remote file relative to the target's remote folder.
pub open spec fn pull_rel_path_of(remote_file: Seq<char>, remote_path: Seq<char>) -> Seq<char> {
    let t = trim_start_char(remote_file, '/');
    let b = trim_start_char(trim_end_char(remote_path, '/'), '/');
    trim_start_char(
        match strip_prefix_of(t, b) {
            Some(r) => r,
            None => remote_file,
        },
        '/',
    )
}

/// The path of a remote file relative to the target's remote folder: the
/// file's path without leading `/`, without the folder, without leading `/`;
/// the whole path when it is not below the folder.
pub fn pull_relative_path(remote_file: &str, remote_path: &str) -> (r: String)
    ensures
        r@ == pull_rel_path_of(remote_file@, remote_path@),
{
    let f = to_chars(remote_file);
    let t = trim_start_chars(f.as_slice(), '/');
    let rp = to_chars(remote_path);
    let b0 = trim_end_chars(rp.as_slice(), '/');
    let b = trim_start_chars(b0.as_slice(), '/');
    let tl = t.len();
    let bl = b.len();
    let stripped = if bl <= tl {
        let head = slice_of(t.as_slice(), 0, bl);
        assert(head@ =~= t@.take(bl as int));
        if chars_eq(head.as_slice(), b.as_slice()) {
            let rest = slice_of(t.as_slice(), bl, tl);
            assert(rest@ =~= t@.skip(bl as int));
            rest
        } else {
            f
        }
    } else {
        f
    };
    let r = trim_start_chars(stripped.as_slice(), '/');
    from_chars(r.as_slice())
}

/// `dir`, a `/`, and `rel`.
pub open spec fn under(dir: Seq<char>, rel: Seq<char>) -> Seq<char> {
    dir + "/"@ + rel
}

/// `dir`, a `/`, and `rel`.
pub fn path_under(dir: &str, rel: &str) -> (r: String)
    ensures
        r@ == under(dir@, rel@),
{
    let a = concat_str(dir, "/");
    concat_str(a.as_str(), rel)
}

/// The number of files among the first `k` whose relative path is not empty.
pub open spec fn counted(files: Seq<Seq<char>>, k: int, remote_path: Seq<char>) -> nat
    decreases k,
{
    if k <= 0 {
        0
    } else {
        counted(files, k - 1, remote_path) + if pull_rel_path_of(files[k - 1], remote_path).len() > 0 {
            1nat
        } else {
            0nat
        }
    }
}

/// The first file at or after `from` whose relative path is not empty (the
/// number of files when there is none).
pub open spec fn first_pending(files: Seq<Seq<char>>, from: int, remote_path: Seq<char>) -> int
    decreases files.len() - from,
{
    if from >= files.len() {
        files.len() as int
    } else if pull_rel_path_of(files[from], remote_path).len() > 0 {
        from
    } else {
        first_pending(files, from + 1, remote_path)
    }
}

proof fn lemma_first_pending_range(files: Seq<Seq<char>>, from: int, remote_path: Seq<char>)
    requires
        0 <= from <= files.len(),
    ensures
        from <= first_pending(files, from, remote_path) <= files.len(),
    decreases files.len() - from,
{
    if from < files.len() {
        lemma_first_pending_range(files, from + 1, remote_path);
    }
}

proof fn lemma_counted_le(files: Seq<Seq<char>>, k: int, remote_path: Seq<char>)
    requires
        k >= 0,
    ensures
        counted(files, k, remote_path) <= k,
    decreases k,
{
    if k > 0 {
        lemma_counted_le(files, k - 1, remote_path);
    }
}

/// What moving on from position `from` does: with no file left the pull
/// finishes; a pull cancelled meanwhile finishes marked cancelled; files
/// whose relative path is empty are passed over; the next file is checked
/// locally.
pub open spec fn advance_post(
    files: Seq<Seq<char>>,
    remote: Seq<char>,
    local: Seq<char>,
    summary: PullSummaryView,
    from: int,
    cancelled: bool,
    after: PullRun,
    r: PullStep,
) -> bool {
    let j = first_pending(files, from, remote);
    if from == files.len() {
        &&& r is Finished
        &&& after.phase() == PullPhase::Done
        &&& after.summary() == summary
        &&& after.position() == from
    } else if cancelled {
        &&& r is Finished
        &&& after.phase() == PullPhase::Done
        &&& after.summary() == (PullSummaryView { cancelled: true, ..summary })
        &&& after.position() == from
    } else if j == files.len() {
        &&& r is Finished
        &&& after.phase() == PullPhase::Done
        &&& after.summary() == summary
        &&& after.position() == j
    } else {
        &&& r matches PullStep::CheckLocal(l) && l@ == under(local, pull_rel_path_of(files[j], remote))
        &&& after.phase() == PullPhase::Checking
        &&& after.summary() == summary
        &&& after.position() == j
        &&& after.current_rel() == pull_rel_path_of(files[j], remote)
    }
}

/// Where a pull is.
#[derive(Debug, Clone, Copy, PartialEq, Eq, Structural)]
pub enum PullPhase {
    /// Not started.
    Start,
    /// Waiting for the recursive listing of the remote folder.
    Listing,
    /// Waiting to learn whether the current file exists locally.
    Checking,
    /// Waiting for the current file's download.
    Downloading,
    /// Finished.
    Done,
}

/// What the caller does next.
#[derive(Debug)]
pub enum PullStep {
    /// List this remote folder recursively.
    ListRemote(String),
    /// Tell whether this local file exists.
    CheckLocal(String),
    /// Report `progress`, then download `remote_file` to `local_file`.
    Download { remote_file: String, local_file: String, progress: PullProgress },
    /// The pull is over; its outcome is ready.
    Finished,
}

/// A pull in progress.
#[derive(Debug)]
pub struct PullRun {
    remote_path: String,
    local_path: String,
    files: Vec<String>,
    cur: usize,
    rel: String,
    phase: PullPhase,
    summary: PullSummary,
    error: Option<String>,
}

impl PullRun {
    pub closed spec fn remote(&self) -> Seq<char> {
        self.remote_path@
    }

    pub closed spec fn local(&self) -> Seq<char> {
        self.local_path@
    }

    /// The remote files to consider, once listed.
    pub closed spec fn file_list(&self) -> Seq<Seq<char>> {
        string_views(self.files@)
    }

    /// How many listed files have been dealt with; while checking or
    /// downloading, the index of the current file.
    pub closed spec fn position(&self) -> int {
        self.cur as int
    }

    pub closed spec fn phase(&self) -> PullPhase {
        self.phase
    }

    pub closed spec fn summary(&self) -> PullSummaryView {
        self.summary@
    }

    /// Why the pull could not run, if it could not.
    pub closed spec fn failure(&self) -> Option<Seq<char>> {
        match self.error {
            Some(e) => Some(e@),
            None => None,
        }
    }

    /// The relative path of the current file.
    pub closed spec fn current_rel(&self) -> Seq<char> {
        self.rel@
    }

    /// Every listed file before the current position whose relative path is
    /// not empty has been counted exactly once: downloaded, skipped or failed.
    pub closed spec fn wf(&self) -> bool {
        &&& self.cur <= self.files@.len() <= u32::MAX
        &&& self.summary.downloaded + self.summary.skipped + self.summary.errors@.len() == counted(
            self.file_list(),
            self.cur as int,
            self.remote_path@,
        )
        &&& (self.phase == PullPhase::Checking || self.phase == PullPhase::Downloading) ==> {
            &&& self.cur < self.files@.len()
            &&& self.rel@ == pull_rel_path_of(self.file_list()[self.cur as int], self.remote_path@)
            &&& self.rel@.len() > 0
        }
    }

    /// A pull of `target`.
    pub fn new(target: &Target) -> (r: Self)
        ensures
            r.wf(),
            r.remote() == target.remote_path@,
            r.local() == target.local_path@,
            r.phase() == PullPhase::Start,
            r.summary() == empty_pull_summary(),
            r.failure() is None,
            r.file_list().len() == 0,
            r.position() == 0,
    {
        let r = PullRun {
            remote_path: target.remote_path.clone(),
            local_path: target.local_path.clone(),
            files: Vec::new(),
            cur: 0,
            rel: String::new(),
            phase: PullPhase::Start,
            summary: PullSummary::default(),
            error: None,
        };
        assert(r.file_list() =~= Seq::<Seq<char>>::empty());
        r
    }

    /// The first step: a pull cancelled before it starts finishes at once,
    /// marked cancelled; otherwise the remote folder is listed.
    pub fn begin(&mut self, cancelled: bool) -> (r: PullStep)
        requires
            old(self).wf(),
            old(self).phase() == PullPhase::Start,
        ensures
            final(self).wf(),
            final(self).remote() == old(self).remote(),
            final(self).local() == old(self).local(),
            final(self).file_list() == old(self).file_list(),
            final(self).position() == old(self).position(),
            final(self).failure() == old(self).failure(),
            cancelled ==> r is Finished && final(self).phase() == PullPhase::Done
                && final(self).summary() == (PullSummaryView { cancelled: true, ..old(self).summary() }),
            !cancelled ==> (r matches PullStep::ListRemote(p) && p@ == old(self).remote())
                && final(self).phase() == PullPhase::Listing && final(self).summary() == old(self).summary(),
    {
        if cancelled {
            self.summary.cancelled = true;
            self.phase = PullPhase::Done;
            PullStep::Finished
        } else {
            self.phase = PullPhase::Listing;
            PullStep::ListRemote(self.remote_path.clone())
        }
    }

    /// Moves to the next file to pull, from position `from`.
    fn advance(&mut self, from: usize, cancelled: bool) -> (r: PullStep)
        requires
            old(self).wf(),
            from <= old(self).file_list().len(),
            old(self).position() == from,
        ensures
            final(self).wf(),
            final(self).remote() == old(self).remote(),
            final(self).local() == old(self).local(),
            final(self).file_list() == old(self).file_list(),
            final(self).failure() == old(self).failure(),
            final(self).position() >= from,
            advance_post(
                old(self).file_list(),
                old(self).remote(),
                old(self).local(),
                old(self).summary(),
                from as int,
                cancelled,
                *final(self),
                r,
            ),
    {
        let n = self.files.len();
        proof {
            lemma_first_pending_range(self.file_list(), from as int, self.remote_path@);
        }
        if from == n {
            self.phase = PullPhase::Done;
            return PullStep::Finished;
        }
        if cancelled {
            self.summary.cancelled = true;
            self.phase = PullPhase::Done;
            return PullStep::Finished;
        }
        let ghost files = self.file_list();
        let ghost rp = self.remote_path@;
        let mut k: usize = from;
        while k < n
            invariant
                files == self.file_list(),
                rp == self.remote_path@,
                n == self.files@.len(),
                !cancelled,
                self.wf(),
                self.cur == k,
                from <= k <= n,
                self.phase == old(self).phase,
                self.summary == old(self).summary,
                self.remote_path == old(self).remote_path,
                self.local_path == old(self).local_path,
                self.files == old(self).files,
                self.error == old(self).error,
                first_pending(files, from as int, rp) == first_pending(files, k as int, rp),
            decreases n - k,
        {
            let rel = pull_relative_path(self.files[k].as_str(), self.remote_path.as_str());
            proof {
                assert(self.files@[k as int]@ == files[k as int]);
            }
            if rel.as_str().unicode_len() > 0 {
                assert(first_pending(files, k as int, rp) == k);
                let local = path_under(self.local_path.as_str(), rel.as_str());
                self.rel = rel;
                self.phase = PullPhase::Checking;
                return PullStep::CheckLocal(local);
            }
            proof {
                assert(counted(files, k + 1, rp) == counted(files, k as int, rp));
            }
            self.cur = k + 1;
            k = k + 1;
        }
        self.phase = PullPhase::Done;
        PullStep::Finished
    }

    /// The recursive listing has arrived. A failed listing ends the pull with
    /// "Failed to list remote files: ..."; otherwise the files are gone
    /// through in order.
    pub fn listed(&mut self, files: Result<Vec<String>, WebDAVError>, cancelled: bool) -> (r: PullStep)
        requires
            old(self).wf(),
            old(self).phase() == PullPhase::Listing,
            old(self).position() == 0,
            old(self).failure() is None,
            files matches Ok(v) ==> v@.len() <= u32::MAX,
        ensures
            final(self).wf(),
            final(self).remote() == old(self).remote(),
            final(self).local() == old(self).local(),
            match files {
                Err(e) => r is Finished && final(self).phase() == PullPhase::Done
                    && final(self).failure() == Some("Failed to list remote files: "@ + error_text(e))
                    && final(self).summary() == old(self).summary(),
                Ok(v) => final(self).file_list() == string_views(v@) && final(self).failure() is None
                    && advance_post(string_views(v@), old(self).remote(), old(self).local(), old(self).summary(), 0, cancelled, *final(self), r),
            },
    {
        match files {
            Err(e) => {
                let m = e.message();
                let text = concat_str("Failed to list remote files: ", m.as_str());
                assert(text@ == "Failed to list remote files: "@ + error_text(e));
                self.error = Some(text);
                self.phase = PullPhase::Done;
                PullStep::Finished
            },
            Ok(v) => {
                self.files = v;
                self.cur = 0;
                self.advance(0, cancelled)
            },
        }
    }

    /// Whether the current file exists locally: an existing file is skipped,
    /// a missing one is downloaded, with a progress report
    /// (files done = its position, files total = the number listed).
    pub fn local_checked(&mut self, exists: bool, cancelled: bool) -> (r: PullStep)
        requires
            old(self).wf(),
            old(self).phase() == PullPhase::Checking,
        ensures
            final(self).wf(),
            final(self).remote() == old(self).remote(),
            final(self).local() == old(self).local(),
            final(self).file_list() == old(self).file_list(),
            final(self).failure() == old(self).failure(),
            exists ==> advance_post(
                old(self).file_list(),
                old(self).remote(),
                old(self).local(),
                (PullSummaryView { skipped: (old(self).summary().skipped + 1) as u32, ..old(self).summary() }),
                old(self).position() + 1,
                cancelled,
                *final(self),
                r,
            ),
            !exists ==> (final(self).phase() == PullPhase::Downloading
                && final(self).summary() == old(self).summary()
                && final(self).position() == old(self).position()
                && (r matches PullStep::Download { remote_file, local_file, progress }
                && remote_file@ == trim_start_char(old(self).file_list()[old(self).position()], '/')
                && local_file@ == under(old(self).local(), old(self).current_rel())
                && (progress matches PullProgress::File { current_file, files_done, files_total }
                && current_file@ == old(self).current_rel()
                && files_done == old(self).position()
                && files_total == old(self).file_list().len()))),
    {
        if exists {
            proof {
                assert(counted(self.file_list(), self.cur + 1, self.remote_path@) == counted(
                    self.file_list(),
                    self.cur as int,
                    self.remote_path@,
                ) + 1);
            }
            proof {
                lemma_counted_le(self.file_list(), self.cur as int, self.remote_path@);
            }
            self.summary.skipped = self.summary.skipped + 1;
            self.phase = PullPhase::Done;
            self.cur = self.cur + 1;
            let from = self.cur;
            self.advance(from, cancelled)
        } else {
            let f = to_chars(self.files[self.cur].as_str());
            let t = trim_start_chars(f.as_slice(), '/');
            let remote_file = from_chars(t.as_slice());
            let local_file = path_under(self.local_path.as_str(), self.rel.as_str());
            let progress = PullProgress::File {
                current_file: self.rel.clone(),
                files_done: self.cur as u32,
                files_total: self.files.len() as u32,
            };
            self.phase = PullPhase::Downloading;
            PullStep::Download { remote_file, local_file, progress }
        }
    }

    /// The current file's download is over: it counts as downloaded, or its
    /// error is recorded as "{relative path}: {error}".
    pub fn downloaded(&mut self, result: Result<(), WebDAVError>, cancelled: bool) -> (r: PullStep)
        requires
            old(self).wf(),
            old(self).phase() == PullPhase::Downloading,
        ensures
            final(self).wf(),
            final(self).remote() == old(self).remote(),
            final(self).local() == old(self).local(),
            final(self).file_list() == old(self).file_list(),
            final(self).failure() == old(self).failure(),
            result is Ok ==> advance_post(
                old(self).file_list(),
                old(self).remote(),
                old(self).local(),
                (PullSummaryView { downloaded: (old(self).summary().downloaded + 1) as u32, ..old(self).summary() }),
                old(self).position() + 1,
                cancelled,
                *final(self),
                r,
            ),
            result matches Err(e) ==> advance_post(
                old(self).file_list(),
                old(self).remote(),
                old(self).local(),
                (PullSummaryView {
                    errors: old(self).summary().errors.push(old(self).current_rel() + ": "@ + error_text(e)),
                    ..old(self).summary()
                }),
                old(self).position() + 1,
                cancelled,
                *final(self),
                r,
            ),
    {
        proof {
            assert(counted(self.file_list(), self.cur + 1, self.remote_path@) == counted(
                self.file_list(),
                self.cur as int,
                self.remote_path@,
            ) + 1);
        }
        proof {
            lemma_counted_le(self.file_list(), self.cur as int, self.remote_path@);
        }
        self.phase = PullPhase::Done;
        match result {
            Ok(()) => {
                self.summary.downloaded = self.summary.downloaded + 1;
            },
            Err(e) => {
                let a = concat_str(self.rel.as_str(), ": ");
                let m = e.message();
                let line = concat_str(a.as_str(), m.as_str());
                let ghost before = self.summary.errors@;
                self.summary.errors.push(line);
                assert(string_views(self.summary.errors@) =~= string_views(before).push(line@));
            },
        }
        self.cur = self.cur + 1;
        let from = self.cur;
        self.advance(from, cancelled)
    }

    /// Every listed file up to the current position whose relative path is
    /// not empty is counted exactly once, as downloaded, skipped or failed;
    /// a file whose relative path is empty is not counted.
    pub proof fn law_each_file_counted_once(&self)
        requires
            self.wf(),
        ensures
            self.summary().downloaded + self.summary().skipped + self.summary().errors.len() == counted(
                self.file_list(),
                self.position(),
                self.remote(),
            ),
            self.position() <= self.file_list().len(),
            self.file_list().len() <= u32::MAX,
    {
    }

    /// The outcome once finished: the summary, or why the pull could not run.
    pub fn outcome(self) -> (r: Result<PullSummary, String>)
        ensures
            match self.failure() {
                Some(e) => r matches Err(m) && m@ == e,
                None => r matches Ok(s) && s@ == self.summary(),
            },
    {
        match self.error {
            Some(e) => Err(e),
            None => Ok(self.summary),
        }
    }
}


// ------------------------------------------------------------ planning

/// The local paths a pull checks for the listed `files`, in order: for each
/// file whose relative path is not empty, the local folder joined with it.
pub open spec fn pull_local_paths_of(files: Seq<Seq<char>>, remote: Seq<char>, local: Seq<char>) -> Seq<Seq<char>>
    decreases files.len(),
{
    if files.len() == 0 {
        seq![]
    } else {
        let before = pull_local_paths_of(files.drop_last(), remote, local);
        let rel = pull_rel_path_of(files.last(), remote);
        if rel.len() > 0 {
            before.push(under(local, rel))
        } else {
            before
        }
    }
}

/// The local paths a pull of `target` checks for the listed `files` (the
/// ones it skips when they exist and downloads otherwise), in order.
pub fn pull_check_paths(target: &Target, files: &Vec<String>) -> (r: Vec<String>)
    ensures
        string_views(r@) == pull_local_paths_of(string_views(files@), target.remote_path@, target.local_path@),
{
    let ghost fs = string_views(files@);
    let mut out: Vec<String> = Vec::new();
    let mut k: usize = 0;
    while k < files.len()
        invariant
            fs == string_views(files@),
            k <= files@.len(),
            string_views(out@) == pull_local_paths_of(fs.take(k as int), target.remote_path@, target.local_path@),
        decreases files@.len() - k,
    {
        proof {
            assert(fs.take(k + 1).drop_last() =~= fs.take(k as int));
            assert(fs.take(k + 1).last() == fs[k as int]);
        }
        let rel = pull_relative_path(files[k].as_str(), target.remote_path.as_str());
        if to_chars(rel.as_str()).len() > 0 {
            let ghost before = out@;
            out.push(path_under(target.local_path.as_str(), rel.as_str()));
            proof {
                assert(string_views(out@) =~= string_views(before).push(out@.last()@));
            }
        }
        k = k + 1;
    }
    proof {
        assert(fs.take(files@.len() as int) =~= fs);
    }
    out
}

/// How many of the checked paths exist.
pub open spec fn count_present(exists: Seq<bool>) -> nat
    decreases exists.len(),
{
    if exists.len() == 0 {
        0
    } else {
        count_present(exists.drop_last()) + if exists.last() {
            1nat
        } else {
            0nat
        }
    }
}

/// What a pull would do: files to download and files to skip.
#[derive(Debug, Clone, Copy, PartialEq, Eq, Structural)]
pub struct PullPlan {
    pub to_download: u32,
    pub to_skip: u32,
}

/// The plan of a pull from whether each checked path exists (see
/// [`pull_check_paths`]): existing files are skipped, missing ones
/// downloaded.
pub fn pull_plan(exists: &Vec<bool>) -> (r: PullPlan)
    requires
        exists@.len() <= u32::MAX,
    ensures
        r.to_skip == count_present(exists@),
        r.to_download + r.to_skip == exists@.len(),
{
    let mut present: u32 = 0;
    let mut k: usize = 0;
    while k < exists.len()
        invariant
            k <= exists@.len() <= u32::MAX,
            present == count_present(exists@.take(k as int)),
            present <= k,
        decreases exists@.len() - k,
    {
        proof {
            assert(exists@.take(k + 1).drop_last() =~= exists@.take(k as int));
            assert(exists@.take(k + 1).last() == exists@[k as int]);
        }
        if exists[k] {
            present = present + 1;
        }
        k = k + 1;
    }
    proof {
        assert(exists@.take(exists@.len() as int) =~= exists@);
    }
    PullPlan { to_download: (exists.len() - present as usize) as u32, to_skip: present }
}

} // verus!
