//! The jobs that git is given, and how each of them runs.
//!
//! A job takes one or more calls of git, and some read or remove a file. A
//! `Worker` says what is to be done next and is told what came of it, until it
//! has the answer. What it will do is stated beforehand by the job's `Plan`.

use crate::git::{
    self, Commit, CommitView, FileEntry, FileEntryView, GitError, GitErrorView, LocalBranch,
    LocalBranchView, RemoteBranch, RemoteBranchView, Reply, ReplyView, Stage, Stash, StashView,
    StorageMode,
};
use crate::text::{self, concat, copies, is_blank, split_lines};
use vstd::hash_map::StringHashMap;
use vstd::prelude::*;

verus! {

/// How many commits the log shows.
pub const LOG_LIMIT: usize = 200;

// ---------------------------------------------------------------------------
// Jobs

/// What git can be given to do.
#[derive(Debug, Clone)]
pub enum Job {
    StageAll,
    Stage { path: String },
    Unstage { path: String },
    Refresh,
    FetchLog,
    FetchStashes,
    FetchBranches,
    Checkout { name: String },
    CreateBranch { name: String },
    DeleteBranch { name: String, force: bool },
    RestoreFolder { path: String, restore: Vec<String> },
    Restore { path: String },
    DeleteUntracked { path: String },
    StashApply { reference: String },
    StashPop { reference: String },
    StashDrop { reference: String },
    Commit { subject: String, amend: bool },
    Push { remote: String, branch: String, set_upstream: bool },
    /// Tells the state of the working tree.
    Status,
    /// Shows how a file differs.
    Diff { entry: FileEntry },
    ShowCommit { sha: String },
    ShowStash { reference: String },
    /// Tells the subject of the last commit.
    LastSubject,
    /// Tells where the current branch can be pushed to.
    FindPushTarget,
}

/// The view of a `Job`.
pub enum JobView {
    StageAll,
    Stage { path: Seq<char> },
    Unstage { path: Seq<char> },
    Refresh,
    FetchLog,
    FetchStashes,
    FetchBranches,
    Checkout { name: Seq<char> },
    CreateBranch { name: Seq<char> },
    DeleteBranch { name: Seq<char>, force: bool },
    RestoreFolder { path: Seq<char>, restore: Seq<Seq<char>> },
    Restore { path: Seq<char> },
    DeleteUntracked { path: Seq<char> },
    StashApply { reference: Seq<char> },
    StashPop { reference: Seq<char> },
    StashDrop { reference: Seq<char> },
    Commit { subject: Seq<char>, amend: bool },
    Push { remote: Seq<char>, branch: Seq<char>, set_upstream: bool },
    Status,
    Diff { entry: FileEntryView },
    ShowCommit { sha: Seq<char> },
    ShowStash { reference: Seq<char> },
    LastSubject,
    FindPushTarget,
}

impl DeepView for Job {
    type V = JobView;

    open spec fn deep_view(&self) -> JobView {
        match *self {
            Job::StageAll => JobView::StageAll,
            Job::Stage { path } => JobView::Stage { path: path@ },
            Job::Unstage { path } => JobView::Unstage { path: path@ },
            Job::Refresh => JobView::Refresh,
            Job::FetchLog => JobView::FetchLog,
            Job::FetchStashes => JobView::FetchStashes,
            Job::FetchBranches => JobView::FetchBranches,
            Job::Checkout { name } => JobView::Checkout { name: name@ },
            Job::CreateBranch { name } => JobView::CreateBranch { name: name@ },
            Job::DeleteBranch { name, force } => JobView::DeleteBranch { name: name@, force },
            Job::RestoreFolder { path, restore } => JobView::RestoreFolder {
                path: path@,
                restore: restore.deep_view(),
            },
            Job::Restore { path } => JobView::Restore { path: path@ },
            Job::DeleteUntracked { path } => JobView::DeleteUntracked { path: path@ },
            Job::StashApply { reference } => JobView::StashApply { reference: reference@ },
            Job::StashPop { reference } => JobView::StashPop { reference: reference@ },
            Job::StashDrop { reference } => JobView::StashDrop { reference: reference@ },
            Job::Commit { subject, amend } => JobView::Commit { subject: subject@, amend },
            Job::Push { remote, branch, set_upstream } => JobView::Push {
                remote: remote@,
                branch: branch@,
                set_upstream,
            },
            Job::Status => JobView::Status,
            Job::Diff { entry } => JobView::Diff { entry: entry.deep_view() },
            Job::ShowCommit { sha } => JobView::ShowCommit { sha: sha@ },
            Job::ShowStash { reference } => JobView::ShowStash { reference: reference@ },
            Job::LastSubject => JobView::LastSubject,
            Job::FindPushTarget => JobView::FindPushTarget,
        }
    }
}

// ---------------------------------------------------------------------------
// Answers

/// The state of the working tree.
#[derive(Debug)]
pub struct StatusSnapshot {
    pub entries: Vec<FileEntry>,
    pub branch: String,
    pub upstream: Option<String>,
}

/// The view of a `StatusSnapshot`.
pub struct StatusSnapshotView {
    pub entries: Seq<FileEntryView>,
    pub branch: Seq<char>,
    pub upstream: Option<Seq<char>>,
}

impl DeepView for StatusSnapshot {
    type V = StatusSnapshotView;

    open spec fn deep_view(&self) -> StatusSnapshotView {
        StatusSnapshotView {
            entries: self.entries.deep_view(),
            branch: self.branch@,
            upstream: self.upstream.deep_view(),
        }
    }
}

/// The branches.
#[derive(Debug)]
pub struct BranchesSnapshot {
    pub locals: Vec<LocalBranch>,
    pub remotes: Vec<RemoteBranch>,
}

/// The view of a `BranchesSnapshot`.
pub struct BranchesSnapshotView {
    pub locals: Seq<LocalBranchView>,
    pub remotes: Seq<RemoteBranchView>,
}

impl DeepView for BranchesSnapshot {
    type V = BranchesSnapshotView;

    open spec fn deep_view(&self) -> BranchesSnapshotView {
        BranchesSnapshotView {
            locals: self.locals.deep_view(),
            remotes: self.remotes.deep_view(),
        }
    }
}

/// What a job that ran in the background brings.
#[derive(Debug)]
pub struct OpDone {
    pub toast: Option<String>,
    pub status: Option<StatusSnapshot>,
    pub log: Option<Vec<Commit>>,
    pub stashes: Option<Vec<Stash>>,
    pub branches: Option<BranchesSnapshot>,
}

/// The view of an `OpDone`.
pub struct OpDoneView {
    pub toast: Option<Seq<char>>,
    pub status: Option<StatusSnapshotView>,
    pub log: Option<Seq<CommitView>>,
    pub stashes: Option<Seq<StashView>>,
    pub branches: Option<BranchesSnapshotView>,
}

impl DeepView for OpDone {
    type V = OpDoneView;

    open spec fn deep_view(&self) -> OpDoneView {
        OpDoneView {
            toast: self.toast.deep_view(),
            status: self.status.deep_view(),
            log: self.log.deep_view(),
            stashes: self.stashes.deep_view(),
            branches: self.branches.deep_view(),
        }
    }
}

impl OpDoneView {
    /// Nothing at all.
    pub open spec fn nothing() -> OpDoneView {
        OpDoneView { toast: None, status: None, log: None, stashes: None, branches: None }
    }

    /// Just a message.
    pub open spec fn says(toast: Seq<char>) -> OpDoneView {
        OpDoneView { toast: Some(toast), ..OpDoneView::nothing() }
    }
}

impl Default for OpDone {
    fn default() -> (d: OpDone)
        ensures
            d.deep_view() == OpDoneView::nothing(),
    {
        OpDone { toast: None, status: None, log: None, stashes: None, branches: None }
    }
}

/// The state of the working tree and, where the files of the large-file storage
/// could not be told, the reason.
#[derive(Debug)]
pub struct StatusReport {
    pub snapshot: StatusSnapshot,
    pub warning: Option<String>,
}

/// The view of a `StatusReport`.
pub struct StatusReportView {
    pub snapshot: StatusSnapshotView,
    pub warning: Option<Seq<char>>,
}

impl DeepView for StatusReport {
    type V = StatusReportView;

    open spec fn deep_view(&self) -> StatusReportView {
        StatusReportView {
            snapshot: self.snapshot.deep_view(),
            warning: self.warning.deep_view(),
        }
    }
}

/// Where the current branch can be pushed to.
#[derive(Debug)]
pub enum PushTarget {
    /// There is no current branch.
    NoBranch { message: String },
    /// The branch has an upstream.
    Upstream { upstream: String, branch: String },
    /// The branch has no upstream; these are the remotes.
    Remotes { remotes: Vec<String>, branch: String },
}

/// The view of a `PushTarget`.
pub enum PushTargetView {
    NoBranch { message: Seq<char> },
    Upstream { upstream: Seq<char>, branch: Seq<char> },
    Remotes { remotes: Seq<Seq<char>>, branch: Seq<char> },
}

impl DeepView for PushTarget {
    type V = PushTargetView;

    open spec fn deep_view(&self) -> PushTargetView {
        match *self {
            PushTarget::NoBranch { message } => PushTargetView::NoBranch { message: message@ },
            PushTarget::Upstream { upstream, branch } => PushTargetView::Upstream {
                upstream: upstream@,
                branch: branch@,
            },
            PushTarget::Remotes { remotes, branch } => PushTargetView::Remotes {
                remotes: remotes.deep_view(),
                branch: branch@,
            },
        }
    }
}

/// What a job brings.
#[derive(Debug)]
pub enum Answer {
    Op(OpDone),
    Status(StatusReport),
    Text(String),
    Push(PushTarget),
}

/// The view of an `Answer`.
pub enum AnswerView {
    Op(OpDoneView),
    Status(StatusReportView),
    Text(Seq<char>),
    Push(PushTargetView),
}

impl DeepView for Answer {
    type V = AnswerView;

    open spec fn deep_view(&self) -> AnswerView {
        match *self {
            Answer::Op(d) => AnswerView::Op(d.deep_view()),
            Answer::Status(s) => AnswerView::Status(s.deep_view()),
            Answer::Text(t) => AnswerView::Text(t@),
            Answer::Push(p) => AnswerView::Push(p.deep_view()),
        }
    }
}

// ---------------------------------------------------------------------------
// Plans

/// What is left to do of a job: the next action, and the plan that follows for
/// each way the action can turn out.
#[allow(inconsistent_fields)]
pub enum Plan {
    /// The job is done; it brought an answer or failed with a message.
    Done(Result<AnswerView, Seq<char>>),
    /// The job cannot go on: git printed a status that cannot be read.
    Stopped,
    /// git is to be called with these arguments, and with this input if there is one.
    Git {
        args: Seq<Seq<char>>,
        input: Option<Seq<u8>>,
        next: spec_fn(ReplyView) -> Plan,
    },
    /// The file at `path` below `root` is to be read as text.
    Read { root: Seq<char>, path: Seq<char>, next: spec_fn(Option<Seq<char>>) -> Plan },
    /// The file at `path` below `root` is to be removed.
    Remove { root: Seq<char>, path: Seq<char>, next: spec_fn(bool) -> Plan },
}

/// The job failed.
pub open spec fn fail(e: GitErrorView) -> Plan {
    Plan::Done(Err(e.text()))
}

/// The job brought a text.
pub open spec fn told(s: Seq<char>) -> Plan {
    Plan::Done(Ok(AnswerView::Text(s)))
}

/// git is called; where that works the job goes on.
pub open spec fn step(args: Seq<Seq<char>>, next: Plan) -> Plan {
    Plan::Git {
        args,
        input: None,
        next: |r: ReplyView|
            match git::ran(args, r) {
                Ok(_) => next,
                Err(e) => fail(e),
            },
    }
}

/// The lists that a job fetches at its end.
#[derive(Debug, Clone, Copy, PartialEq, Eq, Structural)]
pub enum Lists {
    Nothing,
    Stashes,
    Branches,
}

/// A list, or an empty one where it could not be had.
pub open spec fn or_none<T>(r: Result<Seq<T>, GitErrorView>) -> Seq<T> {
    match r {
        Ok(list) => list,
        Err(_) => seq![],
    }
}

/// The stashes in a reply.
pub open spec fn stashes_in(r: ReplyView) -> Seq<StashView> {
    or_none(
        git::read_lines(git::or_empty(git::tried(git::stash_list_call(), r)), git::stash_line()),
    )
}

/// The commits in a reply.
pub open spec fn commits_in(r: ReplyView) -> Seq<CommitView> {
    or_none(
        git::read_lines(
            git::or_empty(git::tried(git::log_call(LOG_LIMIT as nat), r)),
            git::commit_line(),
        ),
    )
}

/// The local branches in a reply.
pub open spec fn locals_in(r: ReplyView) -> Seq<LocalBranchView> {
    or_none(git::read_lines(git::ran(git::local_branches_call(), r), git::local_line()))
}

/// The remote branches in a reply.
pub open spec fn remotes_in(r: ReplyView) -> Seq<RemoteBranchView> {
    or_none(git::read_lines(git::ran(git::remote_branches_call(), r), git::remote_line()))
}

/// The lists are fetched, and the job is done.
pub open spec fn finish(done: OpDoneView, lists: Lists) -> Plan {
    match lists {
        Lists::Nothing => Plan::Done(Ok(AnswerView::Op(done))),
        Lists::Stashes => Plan::Git {
            args: git::stash_list_call(),
            input: None,
            next: |r: ReplyView|
                Plan::Done(
                    Ok(AnswerView::Op(OpDoneView { stashes: Some(stashes_in(r)), ..done })),
                ),
        },
        Lists::Branches => Plan::Git {
            args: git::local_branches_call(),
            input: None,
            next: |r: ReplyView| finish_remotes(done, locals_in(r)),
        },
    }
}

/// The local branches are there, and the remote ones are fetched.
pub open spec fn finish_remotes(done: OpDoneView, locals: Seq<LocalBranchView>) -> Plan {
    Plan::Git {
        args: git::remote_branches_call(),
        input: None,
        next: |r: ReplyView|
            Plan::Done(
                Ok(
                    AnswerView::Op(
                        OpDoneView {
                            branches: Some(
                                BranchesSnapshotView { locals, remotes: remotes_in(r) },
                            ),
                            ..done
                        },
                    ),
                ),
            ),
    }
}

/// What the state of the working tree is gathered for.
pub enum GoalView {
    /// To be reported.
    Report,
    /// To show what a job has done, with a message and lists.
    Op { toast: Seq<char>, lists: Lists },
}

/// The state of the working tree has been gathered.
pub open spec fn gathered(
    goal: GoalView,
    snapshot: StatusSnapshotView,
    warning: Option<Seq<char>>,
) -> Plan {
    match goal {
        GoalView::Report => Plan::Done(
            Ok(AnswerView::Status(StatusReportView { snapshot, warning })),
        ),
        GoalView::Op { toast, lists } => finish(
            OpDoneView { status: Some(snapshot), ..OpDoneView::says(toast) },
            lists,
        ),
    }
}

/// The name of the current branch in a reply.
pub open spec fn branch_in(r: ReplyView) -> Seq<char> {
    match git::tidy(git::ran(git::branch_call(), r)) {
        Ok(name) => name,
        Err(_) => "(detached)"@,
    }
}

/// The upstream in a reply.
pub open spec fn upstream_in(r: ReplyView) -> Option<Seq<char>> {
    match git::upstream_of(r) {
        Ok(up) => up,
        Err(_) => None,
    }
}

/// The files are known; the upstream is asked for.
pub open spec fn gather_upstream(
    entries: Seq<FileEntryView>,
    warning: Option<Seq<char>>,
    branch: Seq<char>,
    goal: GoalView,
) -> Plan {
    Plan::Git {
        args: git::upstream_call(),
        input: None,
        next: |r: ReplyView|
            gathered(
                goal,
                StatusSnapshotView { entries, branch, upstream: upstream_in(r) },
                warning,
            ),
    }
}

/// The files are known; the branch and its upstream are asked for.
pub open spec fn gather_branch(
    entries: Seq<FileEntryView>,
    warning: Option<Seq<char>>,
    goal: GoalView,
) -> Plan {
    Plan::Git {
        args: git::branch_call(),
        input: None,
        next: |r: ReplyView| gather_upstream(entries, warning, branch_in(r), goal),
    }
}

/// The storage of the files from the `i`-th on is asked for: first as the last
/// commit has it, then as the index has it, as far as either can hold the file.
/// `found` is what was found of those before.
pub open spec fn gather_storage(
    entries: Seq<FileEntryView>,
    filters: Map<Seq<char>, Seq<char>>,
    found: Seq<Option<StorageMode>>,
    i: nat,
    goal: GoalView,
) -> Plan
    decreases entries.len() - i, 1nat,
{
    if i >= entries.len() {
        gather_branch(git::annotated(entries, filters, found), None, goal)
    } else if entries[i as int].has_former() {
        Plan::Git {
            args: git::blob_call("HEAD:"@, entries[i as int].path),
            input: None,
            next: |r: ReplyView|
                gather_next(entries, filters, found.push(git::storage_in(r)), i, goal),
        }
    } else {
        gather_next(entries, filters, found, i, goal)
    }
}

/// The storage of the `i`-th file as the index has it is asked for, and then
/// that of the files behind it.
pub open spec fn gather_next(
    entries: Seq<FileEntryView>,
    filters: Map<Seq<char>, Seq<char>>,
    found: Seq<Option<StorageMode>>,
    i: nat,
    goal: GoalView,
) -> Plan
    decreases entries.len() - i, 0nat,
{
    if i >= entries.len() {
        gather_branch(git::annotated(entries, filters, found), None, goal)
    } else if entries[i as int].has_next() {
        Plan::Git {
            args: git::blob_call(":"@, entries[i as int].path),
            input: None,
            next: |r: ReplyView|
                gather_storage(entries, filters, found.push(git::storage_in(r)), i + 1, goal),
        }
    } else {
        gather_storage(entries, filters, found, i + 1, goal)
    }
}

/// The files are known; those of the large-file storage are told, and the
/// storage of each is asked for. Where that fails the reason is kept.
pub open spec fn gather_lfs(entries: Seq<FileEntryView>, goal: GoalView) -> Plan {
    if entries.len() == 0 {
        gather_branch(entries, None, goal)
    } else {
        Plan::Git {
            args: git::attr_call(),
            input: Some(git::attr_input(entries)),
            next: |r: ReplyView|
                match git::filters_of(r) {
                    Ok(m) => gather_storage(entries, m, seq![], 0, goal),
                    Err(e) => gather_branch(entries, Some(e.text()), goal),
                },
        }
    }
}

/// The state of the working tree is gathered.
pub open spec fn gather(goal: GoalView) -> Plan {
    Plan::Git {
        args: git::status_call(),
        input: None,
        next: |r: ReplyView|
            match git::status_of(r) {
                Some(Ok(entries)) => gather_lfs(entries, goal),
                Some(Err(e)) => fail(e),
                None => Plan::Stopped,
            },
    }
}

/// The state is gathered to show what a job has done.
pub open spec fn show_state(toast: Seq<char>, lists: Lists) -> Plan {
    gather(GoalView::Op { toast, lists })
}

/// Paths are restored one by one, up to the first that fails.
pub open spec fn restore_all(paths: Seq<Seq<char>>, next: Plan) -> Plan
    decreases paths.len(),
{
    if paths.len() == 0 {
        next
    } else {
        step(git::restore_worktree_call(paths[0]), restore_all(paths.skip(1), next))
    }
}

/// The file at `path` below `root` is removed.
pub open spec fn remove(root: Seq<char>, path: Seq<char>, next: Plan) -> Plan {
    Plan::Remove {
        root,
        path,
        next: |removed: bool|
            if removed {
                next
            } else {
                fail(GitErrorView::Remove { path })
            },
    }
}

/// A file of the repository is removed.
pub open spec fn delete(path: Seq<char>, next: Plan) -> Plan {
    Plan::Git {
        args: git::root_call(),
        input: None,
        next: |r: ReplyView|
            match git::tidy(git::ran(git::root_call(), r)) {
                Ok(root) => remove(root, path, next),
                Err(e) => fail(e),
            },
    }
}

/// The output of a call is shown, or why there is none.
pub open spec fn show(args: Seq<Seq<char>>) -> Plan {
    Plan::Git {
        args,
        input: None,
        next: |r: ReplyView|
            match git::ran(args, r) {
                Ok(s) => told(s),
                Err(e) => told("error: "@ + e.text()),
            },
    }
}

/// The content of an untracked file is shown.
pub open spec fn show_untracked(root: Seq<char>, path: Seq<char>) -> Plan {
    Plan::Read {
        root,
        path,
        next: |content: Option<Seq<char>>| told(git::addition(path, content)),
    }
}

/// How the index differs from the last commit is shown, if it does.
pub open spec fn diff_index(entry: FileEntryView) -> Plan {
    if entry.index != Stage::Unmodified {
        show(git::diff_cached_call(entry.path))
    } else {
        told(seq![])
    }
}

/// The top of the working tree is asked for, and an untracked file is shown.
pub open spec fn untracked_root(path: Seq<char>) -> Plan {
    Plan::Git {
        args: git::root_call(),
        input: None,
        next: |r: ReplyView|
            match git::tidy(git::ran(git::root_call(), r)) {
                Ok(root) => show_untracked(root, path),
                Err(e) => told("error: "@ + e.text()),
            },
    }
}

/// How the working tree differs from the index is shown or, where that shows
/// nothing, how the index differs.
pub open spec fn diff_tree(entry: FileEntryView) -> Plan {
    Plan::Git {
        args: git::diff_worktree_call(entry.path),
        input: None,
        next: |r: ReplyView|
            match git::ran(git::diff_worktree_call(entry.path), r) {
                Ok(s) => if text::blank(s) {
                    diff_index(entry)
                } else {
                    told(s)
                },
                Err(_) => diff_index(entry),
            },
    }
}

/// How a file differs is shown: an untracked file as a whole, else what changed
/// in the working tree, if anything did, or in the index.
pub open spec fn diff(entry: FileEntryView) -> Plan {
    if entry.index == Stage::Untracked {
        untracked_root(entry.path)
    } else if entry.worktree != Stage::Unmodified {
        diff_tree(entry)
    } else {
        diff_index(entry)
    }
}

/// The branch has no upstream; the remotes are asked for.
pub open spec fn find_remotes(branch: Seq<char>) -> Plan {
    Plan::Git {
        args: git::remotes_call(),
        input: None,
        next: |r: ReplyView|
            match git::read_lines(git::ran(git::remotes_call(), r), git::remote_name()) {
                Ok(remotes) => Plan::Done(
                    Ok(AnswerView::Push(PushTargetView::Remotes { remotes, branch })),
                ),
                Err(e) => fail(e),
            },
    }
}

/// The branch is known; its upstream is asked for, and else the remotes.
pub open spec fn find_upstream(branch: Seq<char>) -> Plan {
    Plan::Git {
        args: git::upstream_call(),
        input: None,
        next: |r: ReplyView|
            match git::upstream_of(r) {
                Ok(Some(upstream)) => Plan::Done(
                    Ok(AnswerView::Push(PushTargetView::Upstream { upstream, branch })),
                ),
                Ok(None) => find_remotes(branch),
                Err(e) => fail(e),
            },
    }
}

/// The branch, its upstream and, where it has none, the remotes are asked for.
pub open spec fn find_target() -> Plan {
    Plan::Git {
        args: git::branch_call(),
        input: None,
        next: |r: ReplyView|
            match git::tidy(git::ran(git::branch_call(), r)) {
                Ok(branch) => find_upstream(branch),
                Err(e) => Plan::Done(
                    Ok(AnswerView::Push(PushTargetView::NoBranch { message: e.text() })),
                ),
            },
    }
}

/// The name of the new commit is asked for and shown.
pub open spec fn show_new_commit() -> Plan {
    Plan::Git {
        args: git::short_head_call(),
        input: None,
        next: |r: ReplyView|
            match git::tidy(git::ran(git::short_head_call(), r)) {
                Ok(sha) => show_state("committed "@ + sha, Lists::Nothing),
                Err(e) => fail(e),
            },
    }
}

/// The first line of a text.
pub open spec fn first_line(s: Seq<char>) -> Seq<char> {
    if text::lines(s).len() == 0 {
        seq![]
    } else {
        text::lines(s)[0]
    }
}

/// A push is made, and the first line of what git said about it is shown.
pub open spec fn push_plan(args: Seq<Seq<char>>) -> Plan {
    Plan::Git {
        args,
        input: None,
        next: |r: ReplyView|
            match git::pushed(r) {
                Ok(said) => show_state("pushed: "@ + first_line(said), Lists::Nothing),
                Err(e) => fail(e),
            },
    }
}

/// The plan of a job.
pub open spec fn plan(job: JobView) -> Plan {
    match job {
        JobView::StageAll => step(
            git::stage_all_call(),
            show_state("staged all"@, Lists::Nothing),
        ),
        JobView::Stage { path } => step(
            git::stage_call(path),
            show_state("staged "@ + path, Lists::Nothing),
        ),
        JobView::Unstage { path } => Plan::Git {
            args: git::head_call(),
            input: None,
            next: |r: ReplyView|
                match git::head_of(r) {
                    Ok(has_head) => step(
                        git::unstage_call(path, has_head),
                        show_state("unstaged "@ + path, Lists::Nothing),
                    ),
                    Err(e) => fail(e),
                },
        },
        JobView::Refresh => show_state("refreshed"@, Lists::Nothing),
        JobView::FetchLog => Plan::Git {
            args: git::log_call(LOG_LIMIT as nat),
            input: None,
            next: |r: ReplyView|
                Plan::Done(
                    Ok(
                        AnswerView::Op(
                            OpDoneView { log: Some(commits_in(r)), ..OpDoneView::nothing() },
                        ),
                    ),
                ),
        },
        JobView::FetchStashes => finish(OpDoneView::nothing(), Lists::Stashes),
        JobView::FetchBranches => finish(OpDoneView::nothing(), Lists::Branches),
        JobView::Checkout { name } => step(
            git::checkout_branch_call(name),
            show_state("checked out "@ + name, Lists::Branches),
        ),
        JobView::CreateBranch { name } => step(
            git::branch_create_call(name),
            finish(OpDoneView::says("created "@ + name), Lists::Branches),
        ),
        JobView::DeleteBranch { name, force } => step(
            git::branch_delete_call(name, force),
            finish(OpDoneView::says("deleted "@ + name), Lists::Branches),
        ),
        JobView::RestoreFolder { path, restore } => restore_all(
            restore,
            show_state("restored folder "@ + path, Lists::Nothing),
        ),
        JobView::Restore { path } => step(
            git::restore_worktree_call(path),
            show_state("restored "@ + path, Lists::Nothing),
        ),
        JobView::DeleteUntracked { path } => delete(
            path,
            show_state("deleted "@ + path, Lists::Nothing),
        ),
        JobView::StashApply { reference } => step(
            git::stash_apply_call(reference),
            show_state("applied "@ + reference, Lists::Stashes),
        ),
        JobView::StashPop { reference } => step(
            git::stash_pop_call(reference),
            show_state("popped "@ + reference, Lists::Stashes),
        ),
        JobView::StashDrop { reference } => step(
            git::stash_drop_call(reference),
            finish(OpDoneView::says("dropped "@ + reference), Lists::Stashes),
        ),
        JobView::Commit { subject, amend } => step(
            git::commit_call(subject, seq![], amend),
            show_new_commit(),
        ),
        JobView::Push { remote, branch, set_upstream } => push_plan(
            git::push_call(remote, branch, set_upstream),
        ),
        JobView::Status => gather(GoalView::Report),
        JobView::Diff { entry } => diff(entry),
        JobView::ShowCommit { sha } => show(git::show_commit_call(sha)),
        JobView::ShowStash { reference } => show(git::stash_show_call(reference)),
        JobView::LastSubject => Plan::Git {
            args: git::last_commit_subject_call(),
            input: None,
            next: |r: ReplyView|
                match git::tidy(git::ran(git::last_commit_subject_call(), r)) {
                    Ok(subject) => told(subject),
                    Err(_) => told(seq![]),
                },
        },
        JobView::FindPushTarget => find_target(),
    }
}

// ---------------------------------------------------------------------------
// Workers

/// What a worker wants done next.
#[derive(Debug)]
pub enum Action {
    /// Call git with these arguments; write the input to it if there is one.
    Git { args: Vec<String>, input: Option<Vec<u8>> },
    /// Read the file at `path` below `root` as text.
    Read { root: String, path: String },
    /// Remove the file at `path` below `root`.
    Remove { root: String, path: String },
    /// Nothing: the job is done.
    Finished,
    /// Nothing: the job cannot go on.
    Stopped,
}

/// The view of an `Action`.
pub enum ActionView {
    Git { args: Seq<Seq<char>>, input: Option<Seq<u8>> },
    Read { root: Seq<char>, path: Seq<char> },
    Remove { root: Seq<char>, path: Seq<char> },
    Finished,
    Stopped,
}

impl DeepView for Action {
    type V = ActionView;

    open spec fn deep_view(&self) -> ActionView {
        match *self {
            Action::Git { args, input } => ActionView::Git {
                args: args.deep_view(),
                input: match input {
                    Some(bytes) => Some(bytes@),
                    None => None,
                },
            },
            Action::Read { root, path } => ActionView::Read { root: root@, path: path@ },
            Action::Remove { root, path } => ActionView::Remove { root: root@, path: path@ },
            Action::Finished => ActionView::Finished,
            Action::Stopped => ActionView::Stopped,
        }
    }
}

/// The action that a plan begins with.
pub open spec fn first_action(p: Plan) -> ActionView {
    match p {
        Plan::Git { args, input, next } => ActionView::Git { args, input },
        Plan::Read { root, path, next } => ActionView::Read { root, path },
        Plan::Remove { root, path, next } => ActionView::Remove { root, path },
        Plan::Done(_) => ActionView::Finished,
        Plan::Stopped => ActionView::Stopped,
    }
}

enum Goal {
    Report,
    Op { toast: String, lists: Lists },
}

spec fn goal_of(g: Goal) -> GoalView {
    match g {
        Goal::Report => GoalView::Report,
        Goal::Op { toast, lists } => GoalView::Op { toast: toast@, lists },
    }
}

/// What follows a step.
enum Next {
    Gather { goal: Goal },
    Finish { toast: String, lists: Lists },
    NewCommit,
}

spec fn next_plan(n: Next) -> Plan {
    match n {
        Next::Gather { goal } => gather(goal_of(goal)),
        Next::Finish { toast, lists } => finish(OpDoneView::says(toast@), lists),
        Next::NewCommit => show_new_commit(),
    }
}

/// Files of which the storage is being found.
struct Files {
    entries: Vec<FileEntry>,
    filters: StringHashMap<String>,
    found: Vec<Option<StorageMode>>,
}

impl Files {
    /// What is left to do from the `i`-th file on.
    spec fn from(self, i: nat, goal: GoalView) -> Plan {
        gather_storage(
            self.entries.deep_view(),
            git::text_map(self.filters@),
            self.found@,
            i,
            goal,
        )
    }

    /// What is left to do from the index's side of the `i`-th file on.
    spec fn midway(self, i: nat, goal: GoalView) -> Plan {
        gather_next(
            self.entries.deep_view(),
            git::text_map(self.filters@),
            self.found@,
            i,
            goal,
        )
    }

    spec fn asks_former(self, i: int) -> bool {
        0 <= i < self.entries@.len() && self.entries@[i].deep_view().has_former()
    }

    spec fn asks_next(self, i: int) -> bool {
        0 <= i < self.entries@.len() && self.entries@[i].deep_view().has_next()
    }
}

/// What a worker waits for.
enum State {
    Done(Result<Answer, String>),
    Stopped,
    Step { args: Vec<String>, next: Next },
    Head { path: String },
    Restoring { paths: Vec<String>, at: usize, toast: String },
    Root { path: String },
    Removing { root: String, path: String },
    NewCommit,
    Pushing { args: Vec<String> },
    Status { goal: Goal },
    Filters { entries: Vec<FileEntry>, goal: Goal },
    Former { files: Files, at: usize, goal: Goal },
    Upcoming { files: Files, at: usize, goal: Goal },
    Branch { entries: Vec<FileEntry>, warning: Option<String>, goal: Goal },
    Upstream { entries: Vec<FileEntry>, warning: Option<String>, branch: String, goal: Goal },
    Stashes { done: OpDone },
    Locals { done: OpDone },
    Remotes { done: OpDone, locals: Vec<LocalBranch> },
    Log,
    Show { args: Vec<String> },
    UntrackedRoot { path: String },
    Untracked { root: String, path: String },
    Worktree { entry: FileEntry },
    Subject,
    TargetBranch,
    TargetUpstream { branch: String },
    TargetRemotes { branch: String },
}

/// What a worker in a state will do.
spec fn plan_of(s: State) -> Plan {
    match s {
        State::Done(r) => Plan::Done(git::outcome(r)),
        State::Stopped => Plan::Stopped,
        State::Step { args, next } => step(args.deep_view(), next_plan(next)),
        State::Head { path } => plan(JobView::Unstage { path: path@ }),
        State::Restoring { paths, at, toast } => if at < paths@.len() {
            restore_all(paths.deep_view().skip(at as int), show_state(toast@, Lists::Nothing))
        } else {
            Plan::Stopped
        },
        State::Root { path } => plan(JobView::DeleteUntracked { path: path@ }),
        State::Removing { root, path } => remove(
            root@,
            path@,
            show_state("deleted "@ + path@, Lists::Nothing),
        ),
        State::NewCommit => show_new_commit(),
        State::Pushing { args } => push_plan(args.deep_view()),
        State::Status { goal } => gather(goal_of(goal)),
        State::Filters { entries, goal } => if entries@.len() > 0 {
            gather_lfs(entries.deep_view(), goal_of(goal))
        } else {
            Plan::Stopped
        },
        State::Former { files, at, goal } => if files.asks_former(at as int) {
            files.from(at as nat, goal_of(goal))
        } else {
            Plan::Stopped
        },
        State::Upcoming { files, at, goal } => if files.asks_next(at as int) {
            files.midway(at as nat, goal_of(goal))
        } else {
            Plan::Stopped
        },
        State::Branch { entries, warning, goal } => gather_branch(
            entries.deep_view(),
            warning.deep_view(),
            goal_of(goal),
        ),
        State::Upstream { entries, warning, branch, goal } => gather_upstream(
            entries.deep_view(),
            warning.deep_view(),
            branch@,
            goal_of(goal),
        ),
        State::Stashes { done } => finish(done.deep_view(), Lists::Stashes),
        State::Locals { done } => finish(done.deep_view(), Lists::Branches),
        State::Remotes { done, locals } => finish_remotes(done.deep_view(), locals.deep_view()),
        State::Log => plan(JobView::FetchLog),
        State::Show { args } => show(args.deep_view()),
        State::UntrackedRoot { path } => untracked_root(path@),
        State::Untracked { root, path } => show_untracked(root@, path@),
        State::Worktree { entry } => diff_tree(entry.deep_view()),
        State::Subject => plan(JobView::LastSubject),
        State::TargetBranch => find_target(),
        State::TargetUpstream { branch } => find_upstream(branch@),
        State::TargetRemotes { branch } => find_remotes(branch@),
    }
}

fn failed(e: GitError) -> (s: State)
    ensures
        plan_of(s) == fail(e.deep_view()),
{
    State::Done(Err(e.message()))
}

fn say(t: String) -> (s: State)
    ensures
        plan_of(s) == told(t@),
{
    State::Done(Ok(Answer::Text(t)))
}

fn say_error(e: GitError) -> (s: State)
    ensures
        plan_of(s) == told("error: "@ + e.deep_view().text()),
{
    let message = e.message();
    say(concat("error: ", message.as_str()))
}

fn finishing(done: OpDone, lists: Lists) -> (s: State)
    ensures
        plan_of(s) == finish(done.deep_view(), lists),
{
    match lists {
        Lists::Nothing => State::Done(Ok(Answer::Op(done))),
        Lists::Stashes => State::Stashes { done },
        Lists::Branches => State::Locals { done },
    }
}

fn showing(toast: String) -> (s: State)
    ensures
        plan_of(s) == show_state(toast@, Lists::Nothing),
{
    State::Status { goal: Goal::Op { toast, lists: Lists::Nothing } }
}

fn going_on(next: Next) -> (s: State)
    ensures
        plan_of(s) == next_plan(next),
{
    match next {
        Next::Gather { goal } => State::Status { goal },
        Next::Finish { toast, lists } => {
            let done = OpDone { toast: Some(toast), ..OpDone::default() };
            assert(done.deep_view() == OpDoneView::says(toast@));
            finishing(done, lists)
        },
        Next::NewCommit => State::NewCommit,
    }
}

fn restoring(paths: Vec<String>, at: usize, toast: String) -> (s: State)
    requires
        at <= paths@.len(),
    ensures
        plan_of(s) == restore_all(
            paths.deep_view().skip(at as int),
            show_state(toast@, Lists::Nothing),
        ),
{
    if at < paths.len() {
        State::Restoring { paths, at, toast }
    } else {
        showing(toast)
    }
}

fn lfs_known(
    entries: Vec<FileEntry>,
    filters: Result<StringHashMap<String>, GitError>,
    found: Vec<Option<StorageMode>>,
    goal: Goal,
) -> (s: State)
    requires
        entries@.len() > 0,
    ensures
        plan_of(s) == match filters {
            Ok(m) => gather_branch(
                git::annotated(entries.deep_view(), git::text_map(m@), found@),
                None,
                goal_of(goal),
            ),
            Err(e) => gather_branch(
                entries.deep_view(),
                Some(e.deep_view().text()),
                goal_of(goal),
            ),
        },
{
    let mut entries = entries;
    match git::annotate_lfs(&mut entries, filters, &found) {
        Ok(_) => State::Branch { entries, warning: None, goal },
        Err(e) => State::Branch { entries, warning: Some(e.message()), goal },
    }
}

fn asking_storage(files: Files, at: usize, goal: Goal) -> (s: State)
    requires
        at <= files.entries@.len(),
        files.entries@.len() > 0,
    ensures
        plan_of(s) == files.from(at as nat, goal_of(goal)),
{
    let mut i: usize = at;
    while i < files.entries.len()
        invariant
            at <= i <= files.entries@.len(),
            files.from(at as nat, goal_of(goal)) == files.from(i as nat, goal_of(goal)),
        decreases files.entries@.len() - i,
    {
        assert(files.entries.deep_view()[i as int] == files.entries@[i as int].deep_view());
        if files.entries[i].asks_former() {
            return State::Former { files, at: i, goal };
        }
        if files.entries[i].asks_next() {
            return State::Upcoming { files, at: i, goal };
        }
        i += 1;
    }
    lfs_known(files.entries, Ok(files.filters), files.found, goal)
}

fn asking_next(files: Files, at: usize, goal: Goal) -> (s: State)
    requires
        at < files.entries@.len(),
    ensures
        plan_of(s) == files.midway(at as nat, goal_of(goal)),
{
    let count: usize = files.entries.len();
    assert(files.entries.deep_view()[at as int] == files.entries@[at as int].deep_view());
    if files.entries[at].asks_next() {
        State::Upcoming { files, at, goal }
    } else {
        asking_storage(files, at + 1, goal)
    }
}

fn asking_filters(entries: Vec<FileEntry>, goal: Goal) -> (s: State)
    ensures
        plan_of(s) == gather_lfs(entries.deep_view(), goal_of(goal)),
{
    if entries.len() == 0 {
        State::Branch { entries, warning: None, goal }
    } else {
        State::Filters { entries, goal }
    }
}

fn gathering_done(goal: Goal, snapshot: StatusSnapshot, warning: Option<String>) -> (s: State)
    ensures
        plan_of(s) == gathered(goal_of(goal), snapshot.deep_view(), warning.deep_view()),
{
    match goal {
        Goal::Report => State::Done(Ok(Answer::Status(StatusReport { snapshot, warning }))),
        Goal::Op { toast, lists } => {
            let done = OpDone { toast: Some(toast), status: Some(snapshot), ..OpDone::default() };
            finishing(done, lists)
        },
    }
}

fn diffing_index(entry: FileEntry) -> (s: State)
    ensures
        plan_of(s) == diff_index(entry.deep_view()),
{
    if entry.index != Stage::Unmodified {
        State::Show { args: git::diff_cached_args(entry.path.as_str()) }
    } else {
        say(String::new())
    }
}

fn diffing(entry: FileEntry) -> (s: State)
    ensures
        plan_of(s) == diff(entry.deep_view()),
{
    if entry.index == Stage::Untracked {
        State::UntrackedRoot { path: entry.path }
    } else if entry.worktree != Stage::Unmodified {
        State::Worktree { entry }
    } else {
        diffing_index(entry)
    }
}

// What a worker's state becomes once git has replied.

fn stepped(args: Vec<String>, next: Next, reply: &Reply) -> (s: State)
    ensures
        plan_of(s) == (step(args.deep_view(), next_plan(next))->Git_next)(reply.deep_view()),
{
    match git::run(args, reply) {
        Ok(_) => going_on(next),
        Err(e) => failed(e),
    }
}

fn head_told(path: String, reply: &Reply) -> (s: State)
    ensures
        plan_of(s) == (plan(JobView::Unstage { path: path@ })->Git_next)(reply.deep_view()),
{
    match git::has_head(reply) {
        Ok(has_head) => {
            let args = git::unstage_args(path.as_str(), has_head);
            let toast = concat("unstaged ", path.as_str());
            State::Step {
                args,
                next: Next::Gather { goal: Goal::Op { toast, lists: Lists::Nothing } },
            }
        },
        Err(e) => failed(e),
    }
}

fn restored(paths: Vec<String>, at: usize, toast: String, reply: &Reply) -> (s: State)
    requires
        at < paths@.len(),
    ensures
        plan_of(s) == (restore_all(
            paths.deep_view().skip(at as int),
            show_state(toast@, Lists::Nothing),
        )->Git_next)(reply.deep_view()),
{
    let count: usize = paths.len();
    let ghost rest = paths.deep_view().skip(at as int);
    assert(rest.skip(1) =~= paths.deep_view().skip(at + 1));
    match git::restore_worktree(paths[at].as_str(), reply) {
        Ok(_) => restoring(paths, at + 1, toast),
        Err(e) => failed(e),
    }
}

fn root_told(path: String, reply: &Reply) -> (s: State)
    ensures
        plan_of(s) == (plan(JobView::DeleteUntracked { path: path@ })->Git_next)(
            reply.deep_view(),
        ),
{
    match git::repo_root(reply) {
        Ok(root) => State::Removing { root, path },
        Err(e) => failed(e),
    }
}

fn committed(reply: &Reply) -> (s: State)
    ensures
        plan_of(s) == (show_new_commit()->Git_next)(reply.deep_view()),
{
    match git::short_head(reply) {
        Ok(sha) => showing(concat("committed ", sha.as_str())),
        Err(e) => failed(e),
    }
}

fn push_made(args: Vec<String>, reply: &Reply) -> (s: State)
    ensures
        plan_of(s) == (push_plan(args.deep_view())->Git_next)(reply.deep_view()),
{
    match git::push(reply) {
        Ok(said) => {
            let lines = split_lines(said.as_str());
            let first = if lines.len() == 0 {
                String::new()
            } else {
                lines[0].clone()
            };
            assert(first@ =~= first_line(said@));
            showing(concat("pushed: ", first.as_str()))
        },
        Err(e) => failed(e),
    }
}

fn status_told(goal: Goal, reply: &Reply) -> (s: State)
    ensures
        plan_of(s) == (gather(goal_of(goal))->Git_next)(reply.deep_view()),
{
    match git::read_status(reply) {
        Some(Ok(entries)) => asking_filters(entries, goal),
        Some(Err(e)) => failed(e),
        None => State::Stopped,
    }
}

fn filters_told(entries: Vec<FileEntry>, goal: Goal, reply: &Reply) -> (s: State)
    requires
        entries@.len() > 0,
    ensures
        plan_of(s) == (gather_lfs(entries.deep_view(), goal_of(goal))->Git_next)(reply.deep_view()),
{
    match git::attr_filter(&entries, reply) {
        Ok(filters) => {
            let found: Vec<Option<StorageMode>> = Vec::new();
            assert(found@ =~= seq![]);
            asking_storage(Files { entries, filters, found }, 0, goal)
        },
        Err(e) => lfs_known(entries, Err(e), Vec::new(), goal),
    }
}

fn former_told(files: Files, at: usize, goal: Goal, reply: &Reply) -> (s: State)
    requires
        files.asks_former(at as int),
    ensures
        plan_of(s) == (files.from(at as nat, goal_of(goal))->Git_next)(reply.deep_view()),
{
    let mut files = files;
    assert(files.entries.deep_view()[at as int] == files.entries@[at as int].deep_view());
    files.found.push(git::storage_of(reply));
    asking_next(files, at, goal)
}

fn upcoming_told(files: Files, at: usize, goal: Goal, reply: &Reply) -> (s: State)
    requires
        files.asks_next(at as int),
    ensures
        plan_of(s) == (files.midway(at as nat, goal_of(goal))->Git_next)(reply.deep_view()),
{
    let count: usize = files.entries.len();
    let mut files = files;
    assert(files.entries.deep_view()[at as int] == files.entries@[at as int].deep_view());
    files.found.push(git::storage_of(reply));
    asking_storage(files, at + 1, goal)
}

fn branch_told(
    entries: Vec<FileEntry>,
    warning: Option<String>,
    goal: Goal,
    reply: &Reply,
) -> (s: State)
    ensures
        plan_of(s) == (gather_branch(entries.deep_view(), warning.deep_view(), goal_of(goal))->Git_next)(reply.deep_view()),
{
    let branch = match git::current_branch(reply) {
        Ok(name) => name,
        Err(_) => "(detached)".to_string(),
    };
    State::Upstream { entries, warning, branch, goal }
}

fn upstream_told(
    entries: Vec<FileEntry>,
    warning: Option<String>,
    branch: String,
    goal: Goal,
    reply: &Reply,
) -> (s: State)
    ensures
        plan_of(s) == (gather_upstream(
            entries.deep_view(),
            warning.deep_view(),
            branch@,
            goal_of(goal),
        )->Git_next)(reply.deep_view()),
{
    let upstream = match git::upstream(reply) {
        Ok(up) => up,
        Err(_) => None,
    };
    gathering_done(goal, StatusSnapshot { entries, branch, upstream }, warning)
}

fn stashes_told(done: OpDone, reply: &Reply) -> (s: State)
    ensures
        plan_of(s) == (finish(done.deep_view(), Lists::Stashes)->Git_next)(reply.deep_view()),
{
    let stashes = match git::stash_list(reply) {
        Ok(list) => list,
        Err(_) => Vec::new(),
    };
    assert(stashes.deep_view() =~= stashes_in(reply.deep_view()));
    State::Done(Ok(Answer::Op(OpDone { stashes: Some(stashes), ..done })))
}

fn locals_told(done: OpDone, reply: &Reply) -> (s: State)
    ensures
        plan_of(s) == (finish(done.deep_view(), Lists::Branches)->Git_next)(reply.deep_view()),
{
    let locals = match git::local_branches(reply) {
        Ok(list) => list,
        Err(_) => Vec::new(),
    };
    assert(locals.deep_view() =~= locals_in(reply.deep_view()));
    State::Remotes { done, locals }
}

fn remotes_told(done: OpDone, locals: Vec<LocalBranch>, reply: &Reply) -> (s: State)
    ensures
        plan_of(s) == (finish_remotes(done.deep_view(), locals.deep_view())->Git_next)(reply.deep_view()),
{
    let remotes = match git::remote_branches(reply) {
        Ok(list) => list,
        Err(_) => Vec::new(),
    };
    assert(remotes.deep_view() =~= remotes_in(reply.deep_view()));
    let branches = BranchesSnapshot { locals, remotes };
    State::Done(Ok(Answer::Op(OpDone { branches: Some(branches), ..done })))
}

fn log_told(reply: &Reply) -> (s: State)
    ensures
        plan_of(s) == (plan(JobView::FetchLog)->Git_next)(reply.deep_view()),
{
    let commits = match git::log(LOG_LIMIT, reply) {
        Ok(list) => list,
        Err(_) => Vec::new(),
    };
    assert(commits.deep_view() =~= commits_in(reply.deep_view()));
    State::Done(Ok(Answer::Op(OpDone { log: Some(commits), ..OpDone::default() })))
}

fn shown(args: Vec<String>, reply: &Reply) -> (s: State)
    ensures
        plan_of(s) == (show(args.deep_view())->Git_next)(reply.deep_view()),
{
    match git::run(args, reply) {
        Ok(s) => say(s),
        Err(e) => say_error(e),
    }
}

fn untracked_root_told(path: String, reply: &Reply) -> (s: State)
    ensures
        plan_of(s) == (untracked_root(path@)->Git_next)(reply.deep_view()),
{
    match git::repo_root(reply) {
        Ok(root) => State::Untracked { root, path },
        Err(e) => say_error(e),
    }
}

fn worktree_told(entry: FileEntry, reply: &Reply) -> (s: State)
    ensures
        plan_of(s) == (diff_tree(entry.deep_view())->Git_next)(reply.deep_view()),
{
    match git::diff_worktree(entry.path.as_str(), reply) {
        Ok(s) => if is_blank(s.as_str()) {
            diffing_index(entry)
        } else {
            say(s)
        },
        Err(_) => diffing_index(entry),
    }
}

fn subject_told(reply: &Reply) -> (s: State)
    ensures
        plan_of(s) == (plan(JobView::LastSubject)->Git_next)(reply.deep_view()),
{
    match git::last_commit_subject(reply) {
        Ok(subject) => say(subject),
        Err(_) => say(String::new()),
    }
}

fn target_branch_told(reply: &Reply) -> (s: State)
    ensures
        plan_of(s) == (find_target()->Git_next)(reply.deep_view()),
{
    match git::current_branch(reply) {
        Ok(branch) => State::TargetUpstream { branch },
        Err(e) => State::Done(Ok(Answer::Push(PushTarget::NoBranch { message: e.message() }))),
    }
}

fn target_upstream_told(branch: String, reply: &Reply) -> (s: State)
    ensures
        plan_of(s) == (find_upstream(branch@)->Git_next)(reply.deep_view()),
{
    match git::upstream(reply) {
        Ok(Some(upstream)) => State::Done(
            Ok(Answer::Push(PushTarget::Upstream { upstream, branch })),
        ),
        Ok(None) => State::TargetRemotes { branch },
        Err(e) => failed(e),
    }
}

fn target_remotes_told(branch: String, reply: &Reply) -> (s: State)
    ensures
        plan_of(s) == (find_remotes(branch@)->Git_next)(reply.deep_view()),
{
    match git::remotes(reply) {
        Ok(remotes) => State::Done(Ok(Answer::Push(PushTarget::Remotes { remotes, branch }))),
        Err(e) => failed(e),
    }
}

fn after_git(state: State, reply: &Reply) -> (s: State)
    requires
        plan_of(state) is Git,
    ensures
        plan_of(s) == (plan_of(state)->Git_next)(reply.deep_view()),
{
    match state {
        State::Step { args, next } => stepped(args, next, reply),
        State::Head { path } => head_told(path, reply),
        State::Restoring { paths, at, toast } => restored(paths, at, toast, reply),
        State::Root { path } => root_told(path, reply),
        State::NewCommit => committed(reply),
        State::Pushing { args } => push_made(args, reply),
        State::Status { goal } => status_told(goal, reply),
        State::Filters { entries, goal } => filters_told(entries, goal, reply),
        State::Former { files, at, goal } => former_told(files, at, goal, reply),
        State::Upcoming { files, at, goal } => upcoming_told(files, at, goal, reply),
        State::Branch { entries, warning, goal } => branch_told(entries, warning, goal, reply),
        State::Upstream { entries, warning, branch, goal } => upstream_told(entries, warning, branch, goal, reply),
        State::Stashes { done } => stashes_told(done, reply),
        State::Locals { done } => locals_told(done, reply),
        State::Remotes { done, locals } => remotes_told(done, locals, reply),
        State::Log => log_told(reply),
        State::Show { args } => shown(args, reply),
        State::UntrackedRoot { path } => untracked_root_told(path, reply),
        State::Worktree { entry } => worktree_told(entry, reply),
        State::Subject => subject_told(reply),
        State::TargetBranch => target_branch_told(reply),
        State::TargetUpstream { branch } => target_upstream_told(branch, reply),
        State::TargetRemotes { branch } => target_remotes_told(branch, reply),
        _ => State::Stopped,
    }
}

fn after_read(state: State, content: &Option<String>) -> (s: State)
    requires
        plan_of(state) is Read,
    ensures
        plan_of(s) == (plan_of(state)->Read_next)(content.deep_view()),
{
    match state {
        State::Untracked { root, path } => say(git::diff_untracked(path.as_str(), content)),
        _ => State::Stopped,
    }
}

fn after_remove(state: State, removed: bool) -> (s: State)
    requires
        plan_of(state) is Remove,
    ensures
        plan_of(s) == (plan_of(state)->Remove_next)(removed),
{
    match state {
        State::Removing { root, path } => match git::delete_untracked(path.as_str(), removed) {
            Ok(_) => showing(concat("deleted ", path.as_str())),
            Err(e) => failed(e),
        },
        _ => State::Stopped,
    }
}

/// A call of git without input.
fn call(args: Vec<String>) -> (a: Action)
    ensures
        a.deep_view() == (ActionView::Git { args: args.deep_view(), input: None }),
{
    Action::Git { args, input: None }
}

/// What a worker in a state wants done.
fn wanted(state: &State) -> (a: Action)
    ensures
        a.deep_view() == first_action(plan_of(*state)),
{
    match state {
        State::Done(_) => Action::Finished,
        State::Stopped => Action::Stopped,
        State::Step { args, next } => call(copies(args)),
        State::Head { path } => call(git::head_args()),
        State::Restoring { paths, at, toast } => {
            if *at < paths.len() {
                assert(paths.deep_view().skip(*at as int)[0] == paths@[*at as int]@);
                call(git::restore_worktree_args(paths[*at].as_str()))
            } else {
                Action::Stopped
            }
        },
        State::Root { path } => call(git::repo_root_args()),
        State::Removing { root, path } => Action::Remove { root: root.clone(), path: path.clone() },
        State::NewCommit => call(git::short_head_args()),
        State::Pushing { args } => call(copies(args)),
        State::Status { goal } => call(git::status_args()),
        State::Filters { entries, goal } => {
            if entries.len() > 0 {
                Action::Git {
                    args: git::attr_filter_args(),
                    input: Some(git::attr_filter_input(entries)),
                }
            } else {
                Action::Stopped
            }
        },
        State::Former { files, at, goal } => {
            if *at < files.entries.len() && files.entries[*at].asks_former() {
                assert(files.entries.deep_view()[*at as int] == files.entries@[*at as int].deep_view());
                call(git::blob_args("HEAD:", files.entries[*at].path.as_str()))
            } else {
                Action::Stopped
            }
        },
        State::Upcoming { files, at, goal } => {
            if *at < files.entries.len() && files.entries[*at].asks_next() {
                assert(files.entries.deep_view()[*at as int] == files.entries@[*at as int].deep_view());
                call(git::blob_args(":", files.entries[*at].path.as_str()))
            } else {
                Action::Stopped
            }
        },
        State::Branch { entries, warning, goal } => call(git::current_branch_args()),
        State::Upstream { entries, warning, branch, goal } => call(git::upstream_args()),
        State::Stashes { done } => call(git::stash_list_args()),
        State::Locals { done } => call(git::local_branches_args()),
        State::Remotes { done, locals } => call(git::remote_branches_args()),
        State::Log => call(git::log_args(LOG_LIMIT)),
        State::Show { args } => call(copies(args)),
        State::UntrackedRoot { path } => call(git::repo_root_args()),
        State::Untracked { root, path } => Action::Read { root: root.clone(), path: path.clone() },
        State::Worktree { entry } => call(git::diff_worktree_args(entry.path.as_str())),
        State::Subject => call(git::last_commit_subject_args()),
        State::TargetBranch => call(git::current_branch_args()),
        State::TargetUpstream { branch } => call(git::upstream_args()),
        State::TargetRemotes { branch } => call(git::remotes_args()),
    }
}

/// A step behind which the state is gathered.
fn then_show(args: Vec<String>, toast: String, lists: Lists) -> (s: State)
    ensures
        plan_of(s) == step(args.deep_view(), show_state(toast@, lists)),
{
    State::Step { args, next: Next::Gather { goal: Goal::Op { toast, lists } } }
}

/// A step behind which only lists are fetched.
fn then_finish(args: Vec<String>, toast: String, lists: Lists) -> (s: State)
    ensures
        plan_of(s) == step(args.deep_view(), finish(OpDoneView::says(toast@), lists)),
{
    State::Step { args, next: Next::Finish { toast, lists } }
}

/// The state in which a job begins.
fn begin(job: Job) -> (s: State)
    ensures
        plan_of(s) == plan(job.deep_view()),
{
    match job {
        Job::StageAll => then_show(
            git::stage_all_args(),
            "staged all".to_string(),
            Lists::Nothing,
        ),
        Job::Stage { path } => then_show(
            git::stage_args(path.as_str()),
            concat("staged ", path.as_str()),
            Lists::Nothing,
        ),
        Job::Unstage { path } => State::Head { path },
        Job::Refresh => showing("refreshed".to_string()),
        Job::FetchLog => State::Log,
        Job::FetchStashes => State::Stashes { done: OpDone::default() },
        Job::FetchBranches => State::Locals { done: OpDone::default() },
        Job::Checkout { name } => then_show(
            git::checkout_branch_args(name.as_str()),
            concat("checked out ", name.as_str()),
            Lists::Branches,
        ),
        Job::CreateBranch { name } => then_finish(
            git::branch_create_args(name.as_str()),
            concat("created ", name.as_str()),
            Lists::Branches,
        ),
        Job::DeleteBranch { name, force } => then_finish(
            git::branch_delete_args(name.as_str(), force),
            concat("deleted ", name.as_str()),
            Lists::Branches,
        ),
        Job::RestoreFolder { path, restore } => {
            assert(restore.deep_view().skip(0) =~= restore.deep_view());
            restoring(restore, 0, concat("restored folder ", path.as_str()))
        },
        Job::Restore { path } => then_show(
            git::restore_worktree_args(path.as_str()),
            concat("restored ", path.as_str()),
            Lists::Nothing,
        ),
        Job::DeleteUntracked { path } => State::Root { path },
        Job::StashApply { reference } => then_show(
            git::stash_apply_args(reference.as_str()),
            concat("applied ", reference.as_str()),
            Lists::Stashes,
        ),
        Job::StashPop { reference } => then_show(
            git::stash_pop_args(reference.as_str()),
            concat("popped ", reference.as_str()),
            Lists::Stashes,
        ),
        Job::StashDrop { reference } => then_finish(
            git::stash_drop_args(reference.as_str()),
            concat("dropped ", reference.as_str()),
            Lists::Stashes,
        ),
        Job::Commit { subject, amend } => {
            proof {
                reveal_strlit("");
                assert(""@ =~= Seq::<char>::empty());
            }
            State::Step {
                args: git::commit_args(subject.as_str(), "", amend),
                next: Next::NewCommit,
            }
        },
        Job::Push { remote, branch, set_upstream } => State::Pushing {
            args: git::push_args(remote.as_str(), branch.as_str(), set_upstream),
        },
        Job::Status => State::Status { goal: Goal::Report },
        Job::Diff { entry } => diffing(entry),
        Job::ShowCommit { sha } => State::Show { args: git::show_commit_args(sha.as_str()) },
        Job::ShowStash { reference } => State::Show {
            args: git::stash_show_args(reference.as_str()),
        },
        Job::LastSubject => State::Subject,
        Job::FindPushTarget => State::TargetBranch,
    }
}

/// One who carries out a job step by step. It does nothing itself: it says what
/// is to be done and is told what came of it.
pub struct Worker {
    state: State,
}

impl View for Worker {
    type V = Plan;

    /// What is left to do.
    closed spec fn view(&self) -> Plan {
        plan_of(self.state)
    }
}

impl Worker {
    /// A worker with a job before it.
    pub fn new(job: Job) -> (w: Worker)
        ensures
            w@ == plan(job.deep_view()),
    {
        Worker { state: begin(job) }
    }

    /// What is to be done next.
    pub fn action(&self) -> (a: Action)
        ensures
            a.deep_view() == first_action(self@),
    {
        wanted(&self.state)
    }

    /// git was called and replied.
    pub fn git_replied(&mut self, reply: &Reply)
        requires
            old(self)@ is Git,
        ensures
            final(self)@ == (old(self)@->Git_next)(reply.deep_view()),
            decreases_to!(old(self)@ => final(self)@),
    {
        let mut state = State::Stopped;
        std::mem::swap(&mut state, &mut self.state);
        self.state = after_git(state, reply);
    }

    /// The file was read; there is no content where it could not be read as text.
    pub fn file_read(&mut self, content: &Option<String>)
        requires
            old(self)@ is Read,
        ensures
            final(self)@ == (old(self)@->Read_next)(content.deep_view()),
            decreases_to!(old(self)@ => final(self)@),
    {
        let mut state = State::Stopped;
        std::mem::swap(&mut state, &mut self.state);
        self.state = after_read(state, content);
    }

    /// The file was removed, or it could not be.
    pub fn file_removed(&mut self, removed: bool)
        requires
            old(self)@ is Remove,
        ensures
            final(self)@ == (old(self)@->Remove_next)(removed),
            decreases_to!(old(self)@ => final(self)@),
    {
        let mut state = State::Stopped;
        std::mem::swap(&mut state, &mut self.state);
        self.state = after_remove(state, removed);
    }

    /// What the job brought, once it is done.
    pub fn result(self) -> (r: Option<Result<Answer, String>>)
        ensures
            match r {
                Some(found) => self@ == Plan::Done(git::outcome(found)),
                None => !(self@ is Done),
            },
    {
        match self.state {
            State::Done(r) => Some(r),
            _ => None,
        }
    }
}

} // verus!
