//! What holds of jobs and of the state, whatever git replies and whichever keys
//! are pressed.

use crate::app::{
    AppView, BranchFocus, BranchesStateView, CommitInputView, ConfirmDialogView,
    ConfirmKindView, DiffView, Focus, Key, KeyCode, ModalView, NewBranchInputView, PolledView,
    PushDialogView, Tab,
};
use crate::git::{self, FileEntryView, ReplyView, Stage, StorageMode};
use crate::model;
use crate::rows;
use crate::text;
use crate::tree::{self, Side};
use crate::work::{self, AnswerView, GoalView, JobView, Lists, OpDoneView, Plan};
use vstd::prelude::*;
use vstd::utf8;

verus! {

// ---------------------------------------------------------------------------
// Jobs

/// Which way a plan may take: how it may end, and which file it may remove.
pub struct Course {
    pub end: spec_fn(Result<AnswerView, Seq<char>>) -> bool,
    pub removed: Option<Seq<char>>,
}

/// Whether a plan keeps to a course, whatever comes of its actions.
pub open spec fn keeps_to(p: Plan, course: Course) -> bool
    decreases p,
{
    match p {
        Plan::Done(r) => (course.end)(r),
        Plan::Stopped => true,
        Plan::Git { args, input, next } => forall|r: ReplyView|
            keeps_to(#[trigger] next(r), course),
        Plan::Read { root, path, next } => forall|c: Option<Seq<char>>|
            keeps_to(#[trigger] next(c), course),
        Plan::Remove { root, path, next } => {
            &&& course.removed == Some(path)
            &&& forall|b: bool| keeps_to(#[trigger] next(b), course)
        },
    }
}

/// The course of a job. A job that shows a text always brings one; the others can
/// fail. A file is removed only to delete it, and then it is the one to delete.
pub open spec fn course_of(job: JobView) -> Course {
    match job {
        JobView::Diff { .. } | JobView::ShowCommit { .. } | JobView::ShowStash { .. }
        | JobView::LastSubject => to_text(),
        JobView::Status => to_status(),
        JobView::FindPushTarget => to_target(),
        JobView::DeleteUntracked { path } => Course { removed: Some(path), ..to_op() },
        _ => to_op(),
    }
}

/// To a text; nothing is removed.
pub open spec fn to_text() -> Course {
    Course {
        end: |r: Result<AnswerView, Seq<char>>| r matches Ok(AnswerView::Text(_)),
        removed: None,
    }
}

/// To the state of the working tree, or to a failure; nothing is removed.
pub open spec fn to_status() -> Course {
    Course {
        end: |r: Result<AnswerView, Seq<char>>| r is Err || r matches Ok(AnswerView::Status(_)),
        removed: None,
    }
}

/// To where to push to, or to a failure; nothing is removed.
pub open spec fn to_target() -> Course {
    Course {
        end: |r: Result<AnswerView, Seq<char>>| r is Err || r matches Ok(AnswerView::Push(_)),
        removed: None,
    }
}

/// To what a job in the background brings, or to a failure; nothing is removed.
pub open spec fn to_op() -> Course {
    Course {
        end: |r: Result<AnswerView, Seq<char>>| r is Err || r matches Ok(AnswerView::Op(_)),
        removed: None,
    }
}

spec fn to_goal(goal: GoalView) -> Course {
    match goal {
        GoalView::Report => to_status(),
        GoalView::Op { .. } => to_op(),
    }
}

/// A plan that removes nothing keeps to a course on which something may be
/// removed.
proof fn lemma_keeps_more(p: Plan, course: Course, path: Seq<char>)
    requires
        course.removed is None,
        keeps_to(p, course),
    ensures
        keeps_to(p, Course { removed: Some(path), ..course }),
    decreases p,
{
    let more = Course { removed: Some(path), ..course };
    match p {
        Plan::Git { args, input, next } => {
            assert forall|r: ReplyView| keeps_to(#[trigger] next(r), more) by {
                lemma_keeps_more(next(r), course, path);
            }
        },
        Plan::Read { root, path: file, next } => {
            assert forall|c: Option<Seq<char>>| keeps_to(#[trigger] next(c), more) by {
                lemma_keeps_more(next(c), course, path);
            }
        },
        _ => {},
    }
}

proof fn lemma_step_keeps(
    args: Seq<Seq<char>>,
    next: Plan,
    course: Course,
)
    requires
        keeps_to(next, course),
        forall|m: Seq<char>| #[trigger] (course.end)(Err(m)),
    ensures
        keeps_to(work::step(args, next), course),
{
    let p = work::step(args, next);
    assert forall|r: ReplyView| keeps_to(#[trigger] (p->Git_next)(r), course) by {}
}

proof fn lemma_finish_keeps(done: OpDoneView, lists: Lists)
    ensures
        keeps_to(work::finish(done, lists), to_op()),
{
    let p = work::finish(done, lists);
    if lists == Lists::Branches {
        assert forall|r: ReplyView| keeps_to(#[trigger] (p->Git_next)(r), to_op()) by {
            let q = work::finish_remotes(done, work::locals_in(r));
            assert forall|s: ReplyView| keeps_to(#[trigger] (q->Git_next)(s), to_op()) by {}
        }
    } else if lists == Lists::Stashes {
        assert forall|r: ReplyView| keeps_to(#[trigger] (p->Git_next)(r), to_op()) by {}
    }
}

proof fn lemma_branch_keeps(
    entries: Seq<FileEntryView>,
    warning: Option<Seq<char>>,
    goal: GoalView,
)
    ensures
        keeps_to(work::gather_branch(entries, warning, goal), to_goal(goal)),
{
    let p = work::gather_branch(entries, warning, goal);
    assert forall|r: ReplyView| keeps_to(#[trigger] (p->Git_next)(r), to_goal(goal)) by {
        let q = work::gather_upstream(entries, warning, work::branch_in(r), goal);
        assert forall|s: ReplyView| keeps_to(#[trigger] (q->Git_next)(s), to_goal(goal)) by {
            let snapshot = work::StatusSnapshotView {
                entries,
                branch: work::branch_in(r),
                upstream: work::upstream_in(s),
            };
            if let GoalView::Op { toast, lists } = goal {
                lemma_finish_keeps(
                    OpDoneView { status: Some(snapshot), ..OpDoneView::says(toast) },
                    lists,
                );
            }
        }
    }
}

proof fn lemma_storage_keeps(
    entries: Seq<FileEntryView>,
    filters: Map<Seq<char>, Seq<char>>,
    found: Seq<Option<StorageMode>>,
    i: nat,
    goal: GoalView,
)
    ensures
        keeps_to(work::gather_storage(entries, filters, found, i, goal), to_goal(goal)),
    decreases entries.len() - i, 1nat,
{
    let p = work::gather_storage(entries, filters, found, i, goal);
    if i >= entries.len() {
        lemma_branch_keeps(git::annotated(entries, filters, found), None, goal);
    } else if entries[i as int].has_former() {
        assert forall|r: ReplyView| keeps_to(#[trigger] (p->Git_next)(r), to_goal(goal)) by {
            lemma_next_keeps(entries, filters, found.push(git::storage_in(r)), i, goal);
        }
    } else {
        lemma_next_keeps(entries, filters, found, i, goal);
    }
}

proof fn lemma_next_keeps(
    entries: Seq<FileEntryView>,
    filters: Map<Seq<char>, Seq<char>>,
    found: Seq<Option<StorageMode>>,
    i: nat,
    goal: GoalView,
)
    ensures
        keeps_to(work::gather_next(entries, filters, found, i, goal), to_goal(goal)),
    decreases entries.len() - i, 0nat,
{
    let p = work::gather_next(entries, filters, found, i, goal);
    if i >= entries.len() {
        lemma_branch_keeps(git::annotated(entries, filters, found), None, goal);
    } else if entries[i as int].has_next() {
        assert forall|r: ReplyView| keeps_to(#[trigger] (p->Git_next)(r), to_goal(goal)) by {
            lemma_storage_keeps(entries, filters, found.push(git::storage_in(r)), i + 1, goal);
        }
    } else {
        lemma_storage_keeps(entries, filters, found, i + 1, goal);
    }
}

proof fn lemma_gather_keeps(goal: GoalView)
    ensures
        keeps_to(work::gather(goal), to_goal(goal)),
{
    let p = work::gather(goal);
    let course = to_goal(goal);
    assert forall|r: ReplyView| keeps_to(#[trigger] (p->Git_next)(r), course) by {
        if let Some(Ok(entries)) = git::status_of(r) {
            let q = work::gather_lfs(entries, goal);
            if entries.len() == 0 {
                lemma_branch_keeps(entries, None, goal);
            } else {
                assert forall|s: ReplyView| keeps_to(#[trigger] (q->Git_next)(s), course) by {
                    match git::filters_of(s) {
                        Ok(m) => lemma_storage_keeps(entries, m, seq![], 0, goal),
                        Err(e) => lemma_branch_keeps(entries, Some(e.text()), goal),
                    }
                }
            }
        }
    }
}

proof fn lemma_show_state_keeps(toast: Seq<char>, lists: Lists)
    ensures
        keeps_to(work::show_state(toast, lists), to_op()),
{
    lemma_gather_keeps(GoalView::Op { toast, lists });
}

proof fn lemma_restore_keeps(paths: Seq<Seq<char>>, next: Plan)
    requires
        keeps_to(next, to_op()),
    ensures
        keeps_to(work::restore_all(paths, next), to_op()),
    decreases paths.len(),
{
    if paths.len() > 0 {
        lemma_restore_keeps(paths.skip(1), next);
        lemma_step_keeps(
            git::restore_worktree_call(paths[0]),
            work::restore_all(paths.skip(1), next),
            to_op(),
        );
    }
}

proof fn lemma_delete_keeps(path: Seq<char>, next: Plan)
    requires
        keeps_to(next, to_op()),
    ensures
        keeps_to(work::delete(path, next), Course { removed: Some(path), ..to_op() }),
{
    let course = Course { removed: Some(path), ..to_op() };
    let p = work::delete(path, next);
    lemma_keeps_more(next, to_op(), path);
    assert forall|r: ReplyView| keeps_to(#[trigger] (p->Git_next)(r), course) by {
        if let Ok(root) = git::tidy(git::ran(git::root_call(), r)) {
            let q = work::remove(root, path, next);
            assert forall|b: bool| keeps_to(#[trigger] (q->Remove_next)(b), course) by {}
        }
    }
}

proof fn lemma_diff_keeps(entry: FileEntryView)
    ensures
        keeps_to(work::diff(entry), to_text()),
{
    let course = to_text();
    let index = work::diff_index(entry);
    assert(keeps_to(index, course)) by {
        if entry.index != Stage::Unmodified {
            lemma_show_keeps(git::diff_cached_call(entry.path));
        }
    }
    let p = work::diff(entry);
    if entry.index == Stage::Untracked {
        assert forall|r: ReplyView| keeps_to(#[trigger] (p->Git_next)(r), course) by {
            if let Ok(root) = git::tidy(git::ran(git::root_call(), r)) {
                let q = work::show_untracked(root, entry.path);
                assert forall|c: Option<Seq<char>>|
                    keeps_to(#[trigger] (q->Read_next)(c), course) by {}
            }
        }
    } else if entry.worktree != Stage::Unmodified {
        assert forall|r: ReplyView| keeps_to(#[trigger] (p->Git_next)(r), course) by {}
    }
}

proof fn lemma_show_keeps(args: Seq<Seq<char>>)
    ensures
        keeps_to(work::show(args), to_text()),
{
    let p = work::show(args);
    assert forall|r: ReplyView| keeps_to(#[trigger] (p->Git_next)(r), to_text()) by {}
}

proof fn lemma_target_keeps()
    ensures
        keeps_to(work::find_target(), to_target()),
{
    let course = to_target();
    let p = work::find_target();
    assert forall|r: ReplyView| keeps_to(#[trigger] (p->Git_next)(r), course) by {
        if let Ok(branch) = git::tidy(git::ran(git::branch_call(), r)) {
            let q = work::find_upstream(branch);
            assert forall|s: ReplyView| keeps_to(#[trigger] (q->Git_next)(s), course) by {
                let o = work::find_remotes(branch);
                assert forall|t: ReplyView| keeps_to(#[trigger] (o->Git_next)(t), course) by {}
            }
        }
    }
}

/// Whatever git replies, a job ends with an answer of its kind: a difference, the
/// details of a commit or a stash and the last subject with a text, never with a
/// failure; the state of the working tree, the target of a push and the jobs in
/// the background with theirs or with a failure. No job removes a file but the one
/// that deletes an untracked file, and it removes no other.
pub proof fn law_jobs_end(job: JobView)
    ensures
        keeps_to(work::plan(job), course_of(job)),
{
    let p = work::plan(job);
    let course = course_of(job);
    match job {
        JobView::StageAll => {
            lemma_show_state_keeps("staged all"@, Lists::Nothing);
            lemma_step_keeps(
                git::stage_all_call(),
                work::show_state("staged all"@, Lists::Nothing),
                course,
            );
        },
        JobView::Stage { path } => {
            lemma_show_state_keeps("staged "@ + path, Lists::Nothing);
            lemma_step_keeps(
                git::stage_call(path),
                work::show_state("staged "@ + path, Lists::Nothing),
                course,
            );
        },
        JobView::Unstage { path } => {
            let last = work::show_state("unstaged "@ + path, Lists::Nothing);
            lemma_show_state_keeps("unstaged "@ + path, Lists::Nothing);
            assert forall|r: ReplyView| keeps_to(#[trigger] (p->Git_next)(r), course) by {
                if let Ok(has_head) = git::head_of(r) {
                    lemma_step_keeps(git::unstage_call(path, has_head), last, course);
                }
            }
        },
        JobView::Refresh => lemma_show_state_keeps("refreshed"@, Lists::Nothing),
        JobView::FetchLog => {
            assert forall|r: ReplyView| keeps_to(#[trigger] (p->Git_next)(r), course) by {}
        },
        JobView::FetchStashes => lemma_finish_keeps(OpDoneView::nothing(), Lists::Stashes),
        JobView::FetchBranches => lemma_finish_keeps(OpDoneView::nothing(), Lists::Branches),
        JobView::Checkout { name } => {
            lemma_show_state_keeps("checked out "@ + name, Lists::Branches);
            lemma_step_keeps(
                git::checkout_branch_call(name),
                work::show_state("checked out "@ + name, Lists::Branches),
                course,
            );
        },
        JobView::CreateBranch { name } => {
            let done = OpDoneView::says("created "@ + name);
            lemma_finish_keeps(done, Lists::Branches);
            lemma_step_keeps(
                git::branch_create_call(name),
                work::finish(done, Lists::Branches),
                course,
            );
        },
        JobView::DeleteBranch { name, force } => {
            let done = OpDoneView::says("deleted "@ + name);
            lemma_finish_keeps(done, Lists::Branches);
            lemma_step_keeps(
                git::branch_delete_call(name, force),
                work::finish(done, Lists::Branches),
                course,
            );
        },
        JobView::RestoreFolder { path, restore } => {
            let last = work::show_state("restored folder "@ + path, Lists::Nothing);
            lemma_show_state_keeps("restored folder "@ + path, Lists::Nothing);
            lemma_restore_keeps(restore, last);
        },
        JobView::Restore { path } => {
            lemma_show_state_keeps("restored "@ + path, Lists::Nothing);
            lemma_step_keeps(
                git::restore_worktree_call(path),
                work::show_state("restored "@ + path, Lists::Nothing),
                course,
            );
        },
        JobView::DeleteUntracked { path } => {
            lemma_show_state_keeps("deleted "@ + path, Lists::Nothing);
            lemma_delete_keeps(path, work::show_state("deleted "@ + path, Lists::Nothing));
        },
        JobView::StashApply { reference } => {
            lemma_show_state_keeps("applied "@ + reference, Lists::Stashes);
            lemma_step_keeps(
                git::stash_apply_call(reference),
                work::show_state("applied "@ + reference, Lists::Stashes),
                course,
            );
        },
        JobView::StashPop { reference } => {
            lemma_show_state_keeps("popped "@ + reference, Lists::Stashes);
            lemma_step_keeps(
                git::stash_pop_call(reference),
                work::show_state("popped "@ + reference, Lists::Stashes),
                course,
            );
        },
        JobView::StashDrop { reference } => {
            let done = OpDoneView::says("dropped "@ + reference);
            lemma_finish_keeps(done, Lists::Stashes);
            lemma_step_keeps(
                git::stash_drop_call(reference),
                work::finish(done, Lists::Stashes),
                course,
            );
        },
        JobView::Commit { subject, amend } => {
            let q = work::show_new_commit();
            assert forall|r: ReplyView| keeps_to(#[trigger] (q->Git_next)(r), course) by {
                if let Ok(sha) = git::tidy(git::ran(git::short_head_call(), r)) {
                    lemma_show_state_keeps("committed "@ + sha, Lists::Nothing);
                }
            }
            lemma_step_keeps(git::commit_call(subject, seq![], amend), q, course);
        },
        JobView::Push { remote, branch, set_upstream } => {
            assert forall|r: ReplyView| keeps_to(#[trigger] (p->Git_next)(r), course) by {
                if let Ok(said) = git::pushed(r) {
                    lemma_show_state_keeps(
                        "pushed: "@ + work::first_line(said),
                        Lists::Nothing,
                    );
                }
            }
        },
        JobView::Status => lemma_gather_keeps(GoalView::Report),
        JobView::Diff { entry } => lemma_diff_keeps(entry),
        JobView::ShowCommit { sha } => lemma_show_keeps(git::show_commit_call(sha)),
        JobView::ShowStash { reference } => lemma_show_keeps(git::stash_show_call(reference)),
        JobView::LastSubject => {
            assert forall|r: ReplyView| keeps_to(#[trigger] (p->Git_next)(r), course) by {}
        },
        JobView::FindPushTarget => lemma_target_keeps(),
    }
}

/// What is left of a plan when git has given some replies.
pub open spec fn after(p: Plan, replies: Seq<ReplyView>) -> Plan
    decreases replies.len(),
{
    if replies.len() == 0 {
        p
    } else {
        match p {
            Plan::Git { args, input, next } => after(next(replies[0]), replies.skip(1)),
            _ => p,
        }
    }
}

pub proof fn lemma_after_add(p: Plan, a: Seq<ReplyView>, b: Seq<ReplyView>)
    ensures
        after(p, a + b) == after(after(p, a), b),
    decreases a.len(),
{
    if a.len() == 0 {
        assert(a + b =~= b);
    } else {
        assert((a + b).skip(1) =~= a.skip(1) + b);
        match p {
            Plan::Git { args, input, next } => lemma_after_add(next(a[0]), a.skip(1), b),
            _ => {
                assert(after(p, b) == p);
            },
        }
    }
}

/// The storages that replies tell.
pub open spec fn storages(replies: Seq<ReplyView>) -> Seq<Option<StorageMode>> {
    Seq::new(replies.len(), |i: int| git::storage_in(replies[i]))
}

pub proof fn lemma_one_reply(p: Plan, r: ReplyView)
    requires
        p is Git,
    ensures
        after(p, seq![r]) == (p->Git_next)(r),
{
    let next = (p->Git_next)(r);
    assert(seq![r].skip(1) =~= seq![]);
    assert(after(next, seq![r].skip(1)) == next);
}

pub proof fn lemma_branch_after(
    entries: Seq<FileEntryView>,
    warning: Option<Seq<char>>,
    goal: GoalView,
    branch: ReplyView,
    upstream: ReplyView,
)
    ensures
        after(work::gather_branch(entries, warning, goal), seq![branch, upstream])
            == work::gathered(
            goal,
            work::StatusSnapshotView {
                entries,
                branch: work::branch_in(branch),
                upstream: work::upstream_in(upstream),
            },
            warning,
        ),
{
    let p = work::gather_branch(entries, warning, goal);
    let q = work::gather_upstream(entries, warning, work::branch_in(branch), goal);
    assert(seq![branch, upstream] =~= seq![branch] + seq![upstream]);
    lemma_after_add(p, seq![branch], seq![upstream]);
    lemma_one_reply(p, branch);
    lemma_one_reply(q, upstream);
}

proof fn lemma_asked_mono(entries: Seq<FileEntryView>, i: int, n: int)
    requires
        0 <= i <= n,
    ensures
        git::asked_before(entries, i) <= git::asked_before(entries, n),
    decreases n - i,
{
    if i < n {
        lemma_asked_mono(entries, i, n - 1);
    }
}

/// The replies of the files from the `i`-th on are taken one by one.
pub proof fn lemma_storage_after(
    entries: Seq<FileEntryView>,
    filters: Map<Seq<char>, Seq<char>>,
    replies: Seq<ReplyView>,
    i: nat,
    goal: GoalView,
)
    requires
        i <= entries.len(),
        replies.len() == git::asked_before(entries, entries.len() as int),
    ensures
        ({
            let n = git::asked_before(entries, i as int) as int;
            after(
                work::gather_storage(entries, filters, storages(replies.take(n)), i, goal),
                replies.skip(n),
            )
        }) == work::gather_branch(
            git::annotated(entries, filters, storages(replies)),
            None,
            goal,
        ),
    decreases entries.len() - i,
{
    let n = git::asked_before(entries, i as int) as int;
    let p = work::gather_storage(entries, filters, storages(replies.take(n)), i, goal);
    if i == entries.len() {
        assert(replies.take(n) =~= replies);
        assert(replies.skip(n) =~= seq![]);
    } else {
        let e = entries[i as int];
        lemma_asked_mono(entries, i as int + 1, entries.len() as int);
        let m = if e.has_former() {
            n + 1
        } else {
            n
        };
        let q = work::gather_next(entries, filters, storages(replies.take(m)), i, goal);
        assert(after(p, replies.skip(n)) == after(q, replies.skip(m))) by {
            if e.has_former() {
                assert(storages(replies.take(m)) =~= storages(replies.take(n)).push(
                    git::storage_in(replies[n]),
                ));
                assert(replies.skip(n)[0] == replies[n]);
                assert(replies.skip(n).skip(1) =~= replies.skip(m));
            }
        }
        let k = git::asked_before(entries, i as int + 1) as int;
        let o = work::gather_storage(entries, filters, storages(replies.take(k)), i + 1, goal);
        assert(after(q, replies.skip(m)) == after(o, replies.skip(k))) by {
            if e.has_next() {
                assert(storages(replies.take(k)) =~= storages(replies.take(m)).push(
                    git::storage_in(replies[m]),
                ));
                assert(replies.skip(m)[0] == replies[m]);
                assert(replies.skip(m).skip(1) =~= replies.skip(k));
            }
        }
        lemma_storage_after(entries, filters, replies, i + 1, goal);
    }
}

/// A report of the state of the working tree.
pub open spec fn reported(
    entries: Seq<FileEntryView>,
    warning: Option<Seq<char>>,
    branch: ReplyView,
    upstream: ReplyView,
) -> Plan {
    Plan::Done(
        Ok(
            AnswerView::Status(
                work::StatusReportView {
                    snapshot: work::StatusSnapshotView {
                        entries,
                        branch: work::branch_in(branch),
                        upstream: work::upstream_in(upstream),
                    },
                    warning,
                },
            ),
        ),
    )
}

/// What the state of the working tree is told to be, given the replies: the files
/// of the status, and whether they belong to the large-file storage as the filters
/// say; how the last commit and the index have them as the replies about each file
/// tell, in turn; and the branch and its upstream. Where the filters could not be
/// had the files stay as the status lists them, and the reason is told.
pub proof fn law_status_told(
    status: ReplyView,
    entries: Seq<FileEntryView>,
    filters: ReplyView,
    storage: Seq<ReplyView>,
    branch: ReplyView,
    upstream: ReplyView,
)
    requires
        git::status_of(status) == Some(Ok::<_, git::GitErrorView>(entries)),
        storage.len() == git::asked_before(entries, entries.len() as int),
    ensures
        entries.len() == 0 ==> after(
            work::plan(JobView::Status),
            seq![status] + seq![branch, upstream],
        ) == reported(entries, None, branch, upstream),
        entries.len() > 0 ==> match git::filters_of(filters) {
            Ok(m) => after(
                work::plan(JobView::Status),
                seq![status] + seq![filters] + storage + seq![branch, upstream],
            ) == reported(
                git::annotated(entries, m, storages(storage)),
                None,
                branch,
                upstream,
            ),
            Err(e) => after(
                work::plan(JobView::Status),
                seq![status] + seq![filters] + seq![branch, upstream],
            ) == reported(entries, Some(e.text()), branch, upstream),
        },
{
    let goal = GoalView::Report;
    let p = work::plan(JobView::Status);
    let q = work::gather_lfs(entries, goal);
    let end = seq![branch, upstream];
    lemma_one_reply(p, status);
    if entries.len() == 0 {
        lemma_after_add(p, seq![status], end);
        lemma_branch_after(entries, None, goal, branch, upstream);
    } else {
        lemma_after_add(p, seq![status], seq![filters]);
        lemma_one_reply(q, filters);
        match git::filters_of(filters) {
            Ok(m) => {
                let o = work::gather_storage(entries, m, seq![], 0, goal);
                lemma_after_add(p, seq![status] + seq![filters], storage);
                lemma_after_add(p, seq![status] + seq![filters] + storage, end);
                lemma_storage_after(entries, m, storage, 0, goal);
                assert(storages(storage.take(0)) =~= seq![]);
                assert(storage.skip(0) =~= storage);
                lemma_branch_after(
                    git::annotated(entries, m, storages(storage)),
                    None,
                    goal,
                    branch,
                    upstream,
                );
            },
            Err(e) => {
                lemma_after_add(p, seq![status] + seq![filters], end);
                lemma_branch_after(entries, Some(e.text()), goal, branch, upstream);
            },
        }
    }
}

/// The files of a status come with nothing known of their storage.
pub proof fn law_status_plain(data: Seq<u8>, entries: Seq<FileEntryView>)
    requires
        git::porcelain(data) == Some(Ok::<_, git::GitErrorView>(entries)),
    ensures
        forall|i: int|
            0 <= i < entries.len() ==> (#[trigger] entries[i]) == FileEntryView::plain(
                entries[i].path,
                entries[i].index,
                entries[i].worktree,
            ),
    decreases data.len(),
{
    git::lemma_first_zero(data);
    let tail = git::behind_zero(data);
    git::lemma_first_zero(tail);
    if data.len() > 0 {
        let record = data.take(git::first_zero(data));
        if record.len() == 0 {
            law_status_plain(tail, entries);
        } else {
            match git::read_record(record[0], utf8::decode_utf8(record)) {
                git::Record::Entry(e) => law_status_plain(tail, git::porcelain(tail)->0->Ok_0),
                git::Record::Renamed(e) => {
                    let rest = git::behind_zero(tail);
                    law_status_plain(rest, git::porcelain(rest)->0->Ok_0)
                },
                _ => law_status_plain(tail, entries),
            }
        }
    }
}

// ---------------------------------------------------------------------------
// The state

/// While a job runs a key changes nothing but whether the program ends, and asks
/// for nothing; where a text is being written it changes nothing at all.
pub proof fn law_keys_wait(a: AppView, key: Key)
    requires
        a.pending is Some,
    ensures
        a.on_key(key).1 is None,
        a.on_key(key).0 == (AppView { quit: a.on_key(key).0.quit, ..a }),
        a.modal is Commit || a.modal is NewBranch ==> a.on_key(key).0 == a,
        key.code != KeyCode::Char('q') ==> a.on_key(key).0 == a,
{
}

/// Whether a job gives something up.
pub open spec fn gives_up(job: JobView) -> bool {
    job is RestoreFolder || job is Restore || job is DeleteUntracked || job is StashPop
        || job is StashDrop || job is DeleteBranch
}

/// Whether two states know the same of the repository, at the same time.
pub open spec fn same_repository(a: AppView, b: AppView) -> bool {
    &&& b.entries == a.entries
    &&& b.branch == a.branch
    &&& b.upstream == a.upstream
    &&& b.log.commits == a.log.commits
    &&& b.stash.stashes == a.stash.stashes
    &&& b.branches.locals == a.branches.locals
    &&& b.branches.remotes == a.branches.remotes
    &&& b.clock == a.clock
}

/// Whether the row under the cursor has a path.
pub open spec fn path_at_cursor(a: AppView, path: Seq<char>) -> bool {
    a.cursor < a.rows.len() && a.rows[a.cursor as int].path == path
}

/// Whether a stash stands under the cursor of the list of stashes.
pub open spec fn stash_at_cursor(a: AppView, reference: Seq<char>) -> bool {
    a.stash.cursor < a.stash.stashes.len() && a.stash.stashes[a.stash.cursor as int].reference
        == reference
}

/// Whether a branch stands under the cursor of the list of branches that has the
/// focus.
pub open spec fn branch_at_cursor(a: AppView, name: Seq<char>) -> bool {
    if a.branches.focus == BranchFocus::Local {
        a.branches.local_cursor < a.branches.locals.len()
            && a.branches.locals[a.branches.local_cursor as int].name == name
    } else {
        a.branches.remote_cursor < a.branches.remotes.len()
            && a.branches.remotes[a.branches.remote_cursor as int].name == name
    }
}

/// Whether a job that a key may start is about what the key was pressed on: what is
/// under the cursor, or what the dialog shows.
pub open spec fn meant(a: AppView, job: JobView) -> bool {
    match job {
        JobView::Stage { path } | JobView::Unstage { path } => path_at_cursor(a, path),
        JobView::StashApply { reference } => stash_at_cursor(a, reference),
        JobView::Checkout { name } => branch_at_cursor(a, name),
        JobView::Push { remote, branch, set_upstream } => set_upstream && a.modal
            == ModalView::Push(PushDialogView::Confirm { remote, branch }),
        JobView::Commit { subject, amend } => a.modal == ModalView::Commit(
            CommitInputView { subject, amend },
        ),
        JobView::CreateBranch { .. } => a.modal is NewBranch,
        _ => true,
    }
}

/// Whether a question that a key may raise is about what the key was pressed on.
pub open spec fn meant_question(a: AppView, kind: ConfirmKindView) -> bool {
    match kind {
        ConfirmKindView::Restore { path, is_dir } => path_at_cursor(a, path)
            && a.rows[a.cursor as int].is_dir == is_dir,
        ConfirmKindView::DeleteUntracked { path } => path_at_cursor(a, path)
            && a.rows[a.cursor as int].agg.untracked > 0,
        ConfirmKindView::StashPop { reference } => stash_at_cursor(a, reference),
        ConfirmKindView::StashDrop { reference } => stash_at_cursor(a, reference),
        ConfirmKindView::CommitDespiteLfs { pending } => a.modal == ModalView::Commit(pending),
        ConfirmKindView::BranchDelete { name, .. } => a.branches.focus == BranchFocus::Local
            && branch_at_cursor(a, name),
    }
}

/// Whether a job is one that a state without a question may start.
spec fn harmless(a: AppView, job: JobView) -> bool {
    &&& !gives_up(job)
    &&& meant(a, job)
    &&& job matches JobView::Commit { subject, .. } ==> {
        &&& !text::blank(subject)
        &&& git::kept(a.entries, model::offender()).len() == 0
    }
}

/// Whether a question is one that a state may ask.
spec fn proper(a: AppView, kind: ConfirmKindView) -> bool {
    match kind {
        ConfirmKindView::CommitDespiteLfs { pending } => !text::blank(pending.subject),
        ConfirmKindView::BranchDelete { name, .. } => {
            &&& a.branches.local_cursor < a.branches.locals.len()
            &&& !a.branches.locals[a.branches.local_cursor as int].is_head
            &&& name == a.branches.locals[a.branches.local_cursor as int].name
        },
        _ => true,
    }
}

/// Whether a state without a question may become another at a key.
spec fn sound(a: AppView, b: AppView) -> bool {
    &&& same_repository(a, b)
    &&& b.pending matches Some(p) ==> a.pending is Some || harmless(a, p.job)
    &&& b.modal matches ModalView::Confirm(c) ==> proper(a, c.kind) && meant_question(a, c.kind)
}

proof fn lemma_diff_sound(a: AppView)
    requires
        !(a.modal is Confirm),
    ensures
        sound(a, a.with_diff().0),
{
}

proof fn lemma_folded_sound(a: AppView, collapsed: Set<Seq<char>>)
    requires
        !(a.modal is Confirm),
    ensures
        sound(a, a.folded(collapsed).0),
{
}

proof fn lemma_files_sound(a: AppView, key: Key)
    requires
        !(a.modal is Confirm),
    ensures
        sound(a, a.on_files(key).0),
{
    if let Some(m) = model::move_of(key.code) {
        if let Some(c) = model::moved(a.cursor, a.rows.len(), m) {
            lemma_diff_sound(AppView { cursor: c, ..a });
        }
    } else if let Some(r) = a.current() {
        lemma_folded_sound(a, a.collapsed.remove(r.path));
        lemma_folded_sound(a, a.collapsed.insert(r.path));
        let above = model::row_at(a.rows, model::parent(r.path)) as usize;
        lemma_diff_sound(AppView { cursor: above, ..a });
        assert(sound(a, a.gone_right().0));
        assert(sound(a, a.gone_left().0));
        assert(sound(a, a.toggled().0));
        assert(sound(a, a.restaged()));
        assert(sound(a, a.unstaging()));
        assert(sound(a, a.discarding()));
    }
}

proof fn lemma_diff_keys_sound(a: AppView, key: Key)
    requires
        !(a.modal is Confirm),
    ensures
        sound(a, a.on_diff(key)),
{
}

proof fn lemma_stash_sound(a: AppView, key: Key)
    requires
        !(a.modal is Confirm),
    ensures
        sound(a, a.on_stash_list(key).0),
        sound(a, a.on_stash_details(key)),
{
    assert(sound(a, a.applying_stash()));
    assert(sound(a, a.popping_stash()));
    assert(sound(a, a.dropping_stash()));
}

proof fn lemma_log_sound(a: AppView, key: Key)
    requires
        !(a.modal is Confirm),
    ensures
        sound(a, a.on_log_list(key).0),
        sound(a, a.on_log_details(key)),
{
}

proof fn lemma_branches_sound(a: AppView, key: Key)
    requires
        !(a.modal is Confirm),
    ensures
        sound(a, a.on_branches(key)),
{
    assert(sound(a, a.checking_out()));
    assert(sound(a, a.deleting_branch(false)));
    assert(sound(a, a.deleting_branch(true)));
}

proof fn lemma_switched_sound(a: AppView, tab: Tab)
    requires
        !(a.modal is Confirm),
    ensures
        sound(a, a.switched(tab).0),
{
    let there = AppView {
        tab,
        cursor: 0,
        diff_view: DiffView::Hidden,
        focus: Focus::Files,
        ..a
    }.rebuilt();
    lemma_diff_sound(there);
}

proof fn lemma_commit_sound(a: AppView, c: CommitInputView, key: Key)
    requires
        a.modal == ModalView::Commit(c),
    ensures
        sound(a, a.on_commit(c, key).0),
{
    assert(sound(a, a.submitted(c)));
}

proof fn lemma_push_sound(a: AppView, d: PushDialogView, key: Key)
    requires
        a.modal == ModalView::Push(d),
    ensures
        sound(a, a.on_push(d, key)),
{
}

proof fn lemma_new_branch_sound(a: AppView, n: NewBranchInputView, key: Key)
    requires
        a.modal == ModalView::NewBranch(n),
    ensures
        sound(a, a.on_new_branch(n, key)),
{
}

proof fn lemma_view_sound(a: AppView, key: Key)
    requires
        a.modal is Nothing,
    ensures
        sound(a, a.on_view(key).0),
{
    lemma_switched_sound(a, Tab::Status);
    lemma_switched_sound(a, Tab::Stash);
    lemma_switched_sound(a, Tab::Log);
    lemma_switched_sound(a, Tab::Branches);
    lemma_files_sound(a, key);
    lemma_diff_keys_sound(a, key);
    lemma_stash_sound(a, key);
    lemma_log_sound(a, key);
    lemma_branches_sound(a, key);
}

proof fn lemma_key_sound(a: AppView, key: Key)
    requires
        a.pending is None,
        !(a.modal is Confirm),
    ensures
        sound(a, a.on_key(key).0),
{
    match a.modal {
        ModalView::Nothing => lemma_view_sound(a, key),
        ModalView::Commit(c) => lemma_commit_sound(a, c, key),
        ModalView::Push(d) => lemma_push_sound(a, d, key),
        ModalView::NewBranch(n) => lemma_new_branch_sound(a, n, key),
        ModalView::Confirm(_) => {},
    }
}

proof fn lemma_confirm_keeps(a: AppView, c: ConfirmDialogView, key: Key)
    requires
        a.modal == ModalView::Confirm(c),
        a.pending is None,
    ensures
        same_repository(a, a.on_confirm(c, key)),
        key.code != KeyCode::Char('y') && key.code != KeyCode::Char('Y') ==> a.on_confirm(
            c,
            key,
        ).pending is None,
        a.on_confirm(c, key).pending matches Some(p) ==> (p.job is Commit ==> (c.kind
            matches ConfirmKindView::CommitDespiteLfs { pending } && p.job == (JobView::Commit {
            subject: pending.subject,
            amend: pending.amend,
        }))),
{
}

/// No key changes what is known of the repository, nor the time.
pub proof fn law_keys_keep(a: AppView, key: Key)
    ensures
        same_repository(a, a.on_key(key).0),
{
    if a.pending is None {
        if let ModalView::Confirm(c) = a.modal {
            lemma_confirm_keeps(a, c, key);
        } else {
            lemma_key_sound(a, key);
        }
    }
}

/// A job that a key starts, other than by an answer to a question, is about what the
/// key was pressed on: the row, the stash or the branch under the cursor, the commit
/// that was written, the push that was proposed.
pub proof fn law_jobs_meant(a: AppView, key: Key)
    requires
        a.pending is None,
        !(a.modal is Confirm),
        a.on_key(key).0.pending is Some,
    ensures
        meant(a, a.on_key(key).0.pending->0.job),
{
    lemma_key_sound(a, key);
}

/// A commit is started by the key that hands it in, or by a yes to the question about
/// it.
pub proof fn law_commits_meant(a: AppView, key: Key)
    requires
        a.pending is None,
        a.on_key(key).0.pending is Some,
        a.on_key(key).0.pending->0.job is Commit,
    ensures
        match a.modal {
            ModalView::Confirm(c) => c.kind is CommitDespiteLfs && (key.code == KeyCode::Char('y')
                || key.code == KeyCode::Char('Y')),
            _ => meant(a, a.on_key(key).0.pending->0.job) && git::kept(
                a.entries,
                model::offender(),
            ).len() == 0,
        },
{
    if let ModalView::Confirm(c) = a.modal {
        lemma_confirm_keeps(a, c, key);
    } else {
        lemma_key_sound(a, key);
    }
}

/// A question that a key raises is about what the key was pressed on: the row, the
/// stash or the local branch under the cursor, or the commit that was written.
pub proof fn law_questions_meant(a: AppView, key: Key)
    requires
        a.pending is None,
        !(a.modal is Confirm),
        a.on_key(key).0.modal is Confirm,
    ensures
        meant_question(a, a.on_key(key).0.modal->Confirm_0.kind),
{
    lemma_key_sound(a, key);
}

/// A job that gives something up is started only by a yes to a question that was
/// asked before.
pub proof fn law_nothing_lost_unasked(a: AppView, key: Key)
    requires
        a.pending is None,
        a.on_key(key).0.pending matches Some(p) && gives_up(p.job),
    ensures
        a.modal is Confirm,
        key.code == KeyCode::Char('y') || key.code == KeyCode::Char('Y'),
{
    if let ModalView::Confirm(c) = a.modal {
        lemma_confirm_keeps(a, c, key);
    } else {
        lemma_key_sound(a, key);
    }
}

/// A commit is started with a subject that is not blank and while no file that
/// belongs to the large-file storage would be committed as it is, or else by a
/// yes to the question about that commit.
pub proof fn law_commits_guarded(a: AppView, key: Key)
    requires
        a.pending is None,
        a.on_key(key).0.pending matches Some(p) && p.job is Commit,
    ensures
        ({
            let job = a.on_key(key).0.pending->0.job;
            ||| {
                &&& !text::blank(job->Commit_subject)
                &&& git::kept(a.entries, model::offender()).len() == 0
            }
            ||| a.modal matches ModalView::Confirm(c) && (c.kind
                matches ConfirmKindView::CommitDespiteLfs { pending } && job == (
            JobView::Commit { subject: pending.subject, amend: pending.amend }))
        }),
{
    if let ModalView::Confirm(c) = a.modal {
        lemma_confirm_keeps(a, c, key);
    } else {
        lemma_key_sound(a, key);
    }
}

/// The question about a commit is asked only if the commit has a subject.
pub proof fn law_commit_questions(a: AppView, key: Key)
    requires
        a.pending is None,
        !(a.modal is Confirm),
        a.on_key(key).0.modal matches ModalView::Confirm(c) && c.kind is CommitDespiteLfs,
    ensures
        a.on_key(key).0.modal matches ModalView::Confirm(c) && (c.kind
            matches ConfirmKindView::CommitDespiteLfs { pending } && !text::blank(
            pending.subject,
        )),
{
    lemma_key_sound(a, key);
}

/// It is never asked whether to delete the current branch.
pub proof fn law_head_kept(a: AppView, key: Key)
    requires
        a.pending is None,
        !(a.modal is Confirm),
        a.on_key(key).0.modal matches ModalView::Confirm(c) && c.kind is BranchDelete,
    ensures
        a.branches.local_cursor < a.branches.locals.len(),
        !a.branches.locals[a.branches.local_cursor as int].is_head,
        a.on_key(key).0.modal matches ModalView::Confirm(c) && (c.kind
            matches ConfirmKindView::BranchDelete { name, .. } && name
            == a.branches.locals[a.branches.local_cursor as int].name),
{
    lemma_key_sound(a, key);
}

proof fn lemma_kept_from(list: Seq<FileEntryView>, read: spec_fn(FileEntryView) -> Option<Seq<char>>)
    ensures
        forall|i: int|
            0 <= i < git::kept(list, read).len() ==> exists|j: int|
                0 <= j < list.len() && read(#[trigger] list[j]) == Some(
                    #[trigger] git::kept(list, read)[i],
                ),
    decreases list.len(),
{
    if list.len() > 0 {
        let d = list.drop_last();
        lemma_kept_from(d, read);
        let k = git::kept(list, read);
        let before = git::kept(d, read);
        assert forall|i: int| 0 <= i < k.len() implies exists|j: int|
            0 <= j < list.len() && read(#[trigger] list[j]) == Some(#[trigger] k[i]) by {
            if i < before.len() {
                assert(k[i] == before[i]);
                let j = choose|j: int|
                    0 <= j < d.len() && read(#[trigger] d[j]) == Some(before[i]);
                assert(list[j] == d[j]);
            } else {
                assert(read(list[list.len() - 1]) == Some(k[i]));
            }
        }
    }
}

/// Whether a path is that of a file below a folder that is tracked and changed in
/// the working tree.
pub open spec fn restorable(
    entries: Seq<FileEntryView>,
    folder: Seq<char>,
    path: Seq<char>,
) -> bool {
    exists|j: int|
        0 <= j < entries.len() && (#[trigger] entries[j]).path == path && text::begins(
            path,
            folder + "/"@,
        ) && entries[j].index != Stage::Untracked && entries[j].worktree != Stage::Unmodified
}

/// After a yes to the question about a folder only tracked files below it that
/// changed are restored, and no file is removed.
pub proof fn law_folder_restored(a: AppView, c: ConfirmDialogView, folder: Seq<char>, key: Key)
    requires
        a.pending is None,
        a.modal == ModalView::Confirm(c),
        c.kind == (ConfirmKindView::Restore { path: folder, is_dir: true }),
        key.code == KeyCode::Char('y') || key.code == KeyCode::Char('Y'),
    ensures
        a.on_key(key).0.pending is Some,
        a.on_key(key).0.pending->0.job matches JobView::RestoreFolder { path, restore } && {
            &&& path == folder
            &&& restore == git::kept(a.entries, model::to_restore(folder))
            &&& forall|i: int|
                0 <= i < restore.len() ==> restorable(a.entries, folder, #[trigger] restore[i])
        },
        keeps_to(work::plan(a.on_key(key).0.pending->0.job), to_op()),
{
    let back = git::kept(a.entries, model::to_restore(folder));
    lemma_kept_from(a.entries, model::to_restore(folder));
    assert forall|i: int| 0 <= i < back.len() implies restorable(
        a.entries,
        folder,
        #[trigger] back[i],
    ) by {
        let j = choose|j: int|
            0 <= j < a.entries.len() && model::to_restore(folder)(#[trigger] a.entries[j])
                == Some(back[i]);
        assert(a.entries[j].path == back[i]);
    }
    law_jobs_end(a.on_key(key).0.pending->0.job);
}

proof fn lemma_row_at(rows: Seq<crate::tree::RowView>, path: Seq<char>)
    ensures
        model::row_at(rows, path) <= rows.len(),
        model::row_at(rows, path) < rows.len() ==> rows[model::row_at(rows, path) as int].path == path,
        forall|i: int|
            0 <= i < model::row_at(rows, path) && i < rows.len() ==> (#[trigger] rows[i]).path
                != path,
    decreases rows.len(),
{
    if rows.len() > 0 && rows[0].path != path {
        let t = rows.skip(1);
        lemma_row_at(t, path);
        assert forall|i: int| 0 <= i < model::row_at(rows, path) && i < rows.len() implies (
        #[trigger] rows[i]).path != path by {
            if i > 0 {
                assert(t[i - 1] == rows[i]);
            }
        }
    }
}

/// When the files are told anew the cursor stays on its path, if that is still
/// shown.
pub proof fn law_cursor_stays(a: AppView, entries: Seq<FileEntryView>, i: int)
    requires
        a.current_path() is Some,
        0 <= i < model::both_rows(entries, a.collapsed).len() <= usize::MAX,
        model::both_rows(entries, a.collapsed)[i].path == a.current_path()->0,
    ensures
        a.with_entries(entries).current_path() == a.current_path(),
{
    let rows = model::both_rows(entries, a.collapsed);
    lemma_row_at(rows, a.current_path()->0);
}

proof fn lemma_rows_expanded(a: AppView, i: int)
    requires
        a.in_order(),
        0 <= i < a.rows.len(),
        a.rows[i].is_dir,
    ensures
        a.rows[i].expanded == !a.collapsed.contains(a.rows[i].path),
{
    rows::law_rows_faithful(a.entries, a.collapsed, Side::Unstaged);
    rows::law_rows_faithful(a.entries, a.collapsed, Side::Staged);
    let before = tree::side_rows(a.entries, a.collapsed, Side::Unstaged);
    let after = tree::side_rows(a.entries, a.collapsed, Side::Staged);
    if i < before.len() {
        assert(a.rows[i] == before[i]);
    } else {
        assert(a.rows[i] == after[i - before.len()]);
    }
}

/// Unfolding a folder undoes folding it, if the cursor is still on it: the state
/// is what it was, with the folder described anew. Toggling a folder twice does the
/// same.
pub proof fn law_fold_undone(a: AppView)
    requires
        a.in_order(),
        a.current() matches Some(r) && r.is_dir && r.expanded,
        a.gone_left().0.cursor == a.cursor,
        a.gone_left().0.current() matches Some(r) && r.is_dir && r.path == a.current()->0.path,
    ensures
        a.toggled() == a.gone_left(),
        a.gone_left().0.gone_right() == a.with_diff(),
        a.gone_left().0.toggled() == a.with_diff(),
{
    let path = a.current()->0.path;
    let b = a.gone_left().0;
    lemma_rows_expanded(a, a.cursor as int);
    assert(b.in_order());
    lemma_rows_expanded(b, b.cursor as int);
    assert(b.collapsed.remove(path) =~= a.collapsed);
}

/// A job that ended, whatever it brought, makes room for the next.
pub proof fn law_job_taken(a: AppView, p: PolledView)
    requires
        a.pending is Some,
    ensures
        p is Running ==> a.polled(p) == (a, Seq::<JobView>::empty()),
        !(p is Running) ==> a.polled(p).0.pending is None,
        a.polled(p).1.len() <= 3,
{
}

/// Whether a cursor is where it was, or at the last place of a list that ends
/// before that, or at the first place of an empty list.
pub open spec fn still(before: usize, after: usize, len: nat) -> bool {
    if len == 0 {
        after == 0
    } else if before < len {
        after == before
    } else {
        after == len - 1
    }
}

/// Whether each list that a job brought replaced the one that was there, with its
/// cursor as near as the list allows, and a list that it did not bring stayed with
/// its cursor.
pub open spec fn lists_taken(a: AppView, done: OpDoneView, b: AppView) -> bool {
    &&& match done.log {
        Some(commits) => {
            &&& b.log.commits == commits
            &&& b.log.loaded
            &&& still(a.log.cursor, b.log.cursor, commits.len())
        },
        None => b.log.commits == a.log.commits && b.log.cursor == a.log.cursor,
    }
    &&& match done.stashes {
        Some(stashes) => {
            &&& b.stash.stashes == stashes
            &&& b.stash.loaded
            &&& still(a.stash.cursor, b.stash.cursor, stashes.len())
        },
        None => b.stash.stashes == a.stash.stashes && b.stash.cursor == a.stash.cursor,
    }
    &&& match done.branches {
        Some(s) => {
            &&& b.branches.locals == s.locals
            &&& b.branches.remotes == s.remotes
            &&& b.branches.loaded
            &&& still(a.branches.local_cursor, b.branches.local_cursor, s.locals.len())
            &&& still(a.branches.remote_cursor, b.branches.remote_cursor, s.remotes.len())
        },
        None => {
            &&& b.branches.locals == a.branches.locals
            &&& b.branches.remotes == a.branches.remotes
            &&& b.branches.local_cursor == a.branches.local_cursor
            &&& b.branches.remote_cursor == a.branches.remote_cursor
        },
    }
}

/// The lists that a job brought are taken, and the others stay, whether its end is
/// applied or polled for.
pub proof fn law_lists_taken(a: AppView, done: OpDoneView)
    ensures
        lists_taken(a, done, a.applied(done).0),
        a.pending is Some ==> lists_taken(a, done, a.polled(PolledView::Done(Ok(done))).0),
{
    lemma_lists_applied(a, done);
    let free = AppView { pending: None, ..a };
    lemma_lists_applied(free, done);
}

proof fn lemma_lists_applied(a: AppView, done: OpDoneView)
    ensures
        lists_taken(a, done, a.applied(done).0),
{
    let b = a.took_status(done.status).0;
    let c = b.took_log(done.log).0;
    let d = c.took_stashes(done.stashes).0;
    let e = d.took_branches(done.branches);
    assert(b.log.commits == a.log.commits && b.log.cursor == a.log.cursor);
    assert(b.stash == a.stash);
    assert(b.branches == (BranchesStateView { loaded: b.branches.loaded, ..a.branches }));
    assert(c.stash == b.stash && c.branches == b.branches);
    assert(d.log == c.log && d.branches == c.branches);
    assert(e.log == d.log && e.stash == d.stash);
}

/// The path of a file of which the index holds a change.
pub open spec fn committable() -> spec_fn(FileEntryView) -> Option<Seq<char>> {
    |e: FileEntryView|
        if model::in_index(e) {
            Some(e.path)
        } else {
            None
        }
}

/// Each file to be committed is counted once, in the large-file storage or
/// outside it.
pub proof fn law_staged_parts(entries: Seq<FileEntryView>)
    ensures
        model::staged_number(entries, false) + model::staged_number(entries, true) == git::kept(
            entries,
            committable(),
        ).len(),
    decreases entries.len(),
{
    if entries.len() > 0 {
        law_staged_parts(entries.drop_last());
    }
}

// ---------------------------------------------------------------------------
// What is read back

proof fn lemma_decimal(n: nat)
    ensures
        text::decimal(n).len() > 0,
        forall|i: int| 0 <= i < text::decimal(n).len() ==> text::is_digit(#[trigger] text::decimal(n)[i]),
        text::value(text::decimal(n)) == n,
    decreases n,
{
    let s = text::decimal(n);
    if n < 10 {
        assert(text::value(s.drop_last()) == 0);
        assert(s.last() as nat == 48 + n);
    } else {
        lemma_decimal(n / 10);
        let before = text::decimal(n / 10);
        assert(s.drop_last() =~= before);
        assert(s.last() as nat == 48 + n % 10);
        assert forall|i: int| 0 <= i < s.len() implies text::is_digit(#[trigger] s[i]) by {
            if i < before.len() {
                assert(s[i] == before[i]);
            }
        }
    }
}

/// A number that is written down is read back.
pub proof fn law_number_back(n: usize)
    ensures
        text::is_number(text::decimal(n as nat)),
        text::value(text::unsigned(text::decimal(n as nat))) == n,
{
    let s = text::decimal(n as nat);
    lemma_decimal(n as nat);
    assert(text::is_digit(s[0]));
    assert(text::unsigned(s) == s);
}

/// Nothing is taken off a text without white space at its ends.
proof fn lemma_trimmed_as_is(s: Seq<char>)
    requires
        s.len() > 0,
        !text::is_white(s[0]),
        !text::is_white(s.last()),
    ensures
        text::trimmed(s) == s,
{
}

proof fn lemma_not_gone(s: Seq<char>)
    requires
        !s.contains('g'),
    ensures
        !text::holds(s, "gone"@),
{
    reveal_strlit("gone");
    if text::holds(s, "gone"@) {
        let i = choose|i: int| text::stands_at(s, "gone"@, i);
        assert(s.subrange(i, i + "gone"@.len())[0] == s[i]);
        assert("gone"@[0] == 'g');
        assert(s[i] == 'g');
    }
}

/// What git puts in brackets is taken out of them.
proof fn lemma_track_inner(inner: Seq<char>)
    requires
        inner.len() > 0,
        inner[0] != '[',
        inner.last() != ']',
        !inner.contains('g'),
    ensures
        git::track("["@ + inner + "]"@) == (
            git::labelled(text::parts(inner, ','), "ahead "@),
            git::labelled(text::parts(inner, ','), "behind "@),
            false,
        ),
{
    reveal_strlit("[");
    reveal_strlit("]");
    let s = "["@ + inner + "]"@;
    assert(s[0] == '[' && s.last() == ']');
    lemma_trimmed_as_is(s);
    let rest = s.skip(1);
    assert(rest =~= inner + "]"@);
    assert(rest[0] == inner[0]);
    assert(text::strip_front(s, '[') == text::strip_front(rest, '['));
    assert(text::strip_front(rest, '[') == rest);
    assert(rest.drop_last() =~= inner);
    assert(text::strip_back(rest, ']') == text::strip_back(inner, ']'));
    assert(text::strip_back(inner, ']') == inner);
    lemma_not_gone(inner);
}

proof fn lemma_no_comma(s: Seq<char>)
    requires
        !s.contains(','),
    ensures
        text::parts(s, ',') == seq![s],
{
    text::lemma_first(s, ',');
    if text::first(s, ',') < s.len() {
        assert(s[text::first(s, ',')] == ',');
    }
}

/// A number with a label in front of it.
proof fn lemma_label(label: Seq<char>, n: usize)
    requires
        label.len() > 0,
        !text::is_white(label[0]),
        label[0] != '[',
        !label.contains('g'),
        !label.contains(','),
    ensures
        ({
            let part = label + text::decimal(n as nat);
            &&& text::trimmed(part) == part
            &&& text::begins(part, label)
            &&& git::count(part.skip(label.len() as int)) == n
            &&& !part.contains('g')
            &&& !part.contains(',')
            &&& part[0] == label[0]
            &&& part.last() != ']'
        }),
{
    let d = text::decimal(n as nat);
    let part = label + d;
    lemma_decimal(n as nat);
    law_number_back(n);
    assert(text::is_digit(d[d.len() - 1]));
    assert(part.last() == d[d.len() - 1]);
    lemma_trimmed_as_is(part);
    assert(part.take(label.len() as int) =~= label);
    assert(part.skip(label.len() as int) =~= d);
    assert forall|i: int| 0 <= i < part.len() implies part[i] != 'g' && part[i] != ',' by {
        if i < label.len() {
            assert(part[i] == label[i]);
            assert(label.contains(label[i]));
        } else {
            assert(part[i] == d[i - label.len()]);
        }
    }
}

/// What git says of a branch that is ahead of its upstream, behind it, or both,
/// is read back, and so is that an upstream is gone.
pub proof fn law_track_back(ahead: usize, behind: usize)
    ensures
        git::track("[ahead "@ + text::decimal(ahead as nat) + "]"@) == (ahead as nat, 0nat, false),
        git::track("[behind "@ + text::decimal(behind as nat) + "]"@) == (
            0nat,
            behind as nat,
            false,
        ),
        git::track(
            "[ahead "@ + text::decimal(ahead as nat) + ", behind "@ + text::decimal(behind as nat)
                + "]"@,
        ) == (ahead as nat, behind as nat, false),
        git::track("[gone]"@) == (0nat, 0nat, true),
{
    reveal_strlit("[ahead ");
    reveal_strlit("[behind ");
    reveal_strlit("ahead ");
    reveal_strlit("behind ");
    reveal_strlit(", behind ");
    reveal_strlit("[");
    let a = "ahead "@;
    let b = "behind "@;
    let none: Seq<Seq<char>> = seq![];
    let da = text::decimal(ahead as nat);
    let db = text::decimal(behind as nat);
    let left = a + da;
    let right = b + db;
    lemma_label(a, ahead);
    lemma_label(b, behind);
    assert(!text::begins(left, b)) by {
        if text::begins(left, b) {
            assert(left.take(b.len() as int)[0] == left[0]);
        }
    }
    assert(!text::begins(right, a)) by {
        if text::begins(right, a) {
            assert(right.take(a.len() as int)[0] == right[0]);
        }
    }
    assert(git::labelled(none, a) == 0 && git::labelled(none, b) == 0);
    // ahead
    lemma_track_inner(left);
    lemma_no_comma(left);
    assert("[ahead "@ =~= "["@ + a);
    assert("["@ + left + "]"@ =~= "[ahead "@ + da + "]"@);
    assert(seq![left].drop_last() =~= none);
    assert(git::labelled(seq![left], a) == ahead);
    assert(git::labelled(seq![left], b) == 0);
    // behind
    lemma_track_inner(right);
    lemma_no_comma(right);
    assert("[behind "@ =~= "["@ + b);
    assert("["@ + right + "]"@ =~= "[behind "@ + db + "]"@);
    assert(seq![right].drop_last() =~= none);
    assert(git::labelled(seq![right], b) == behind);
    assert(git::labelled(seq![right], a) == 0);
    // both
    let spaced = seq![' '] + right;
    let both = left + seq![','] + spaced;
    assert(", behind "@ =~= seq![',', ' '] + b);
    assert("["@ + both + "]"@ =~= "[ahead "@ + da + ", behind "@ + db + "]"@);
    assert(both[0] == left[0]);
    assert(both.last() == right.last());
    assert(!both.contains('g')) by {
        assert forall|i: int| 0 <= i < both.len() implies both[i] != 'g' by {
            if i < left.len() {
                assert(left.contains(left[i]));
            } else if i > left.len() + 1 {
                assert(both[i] == right[i - left.len() - 2]);
                assert(right.contains(right[i - left.len() - 2]));
            }
        }
    }
    lemma_track_inner(both);
    assert(text::parts(both, ',') =~= seq![left, spaced]) by {
        text::lemma_first(both, ',');
        let i = text::first(both, ',');
        assert(both[left.len() as int] == ',');
        assert(i <= left.len());
        if i < left.len() {
            assert(left[i] == ',');
            assert(left.contains(','));
        }
        assert(both.take(i) =~= left);
        assert(both.skip(i + 1) =~= spaced);
        assert(!spaced.contains(',')) by {
            assert forall|k: int| 0 <= k < spaced.len() implies spaced[k] != ',' by {
                if k > 0 {
                    assert(spaced[k] == right[k - 1]);
                    assert(right.contains(right[k - 1]));
                }
            }
        }
        lemma_no_comma(spaced);
    }
    let list = seq![left, spaced];
    assert(text::trimmed(spaced) == right) by {
        assert(spaced.skip(1) =~= right);
        assert(text::trim_front(spaced) == text::trim_front(right));
        assert(text::trim_front(right) == right);
    }
    assert(list.drop_last() =~= seq![left]);
    assert(git::labelled(list, b) == behind);
    assert(git::labelled(list, a) == ahead);
    // gone
    reveal_strlit("[gone]");
    reveal_strlit("gone");
    let g = "[gone]"@;
    lemma_trimmed_as_is(g);
    let inner = "gone"@;
    assert(g.skip(1).drop_last() =~= inner);
    assert(text::strip_front(g, '[') == text::strip_front(g.skip(1), '['));
    assert(text::strip_front(g.skip(1), '[') == g.skip(1));
    assert(text::strip_back(g.skip(1), ']') == text::strip_back(inner, ']'));
    assert(text::strip_back(inner, ']') == inner);
    assert(text::stands_at(inner, "gone"@, 0)) by {
        assert(inner.subrange(0, 4) =~= inner);
    }
}

/// A status record: fields and a path, with blanks between them.
pub open spec fn record_of(fields: Seq<Seq<char>>, path: Seq<char>) -> Seq<char> {
    text::joined(fields, " "@) + " "@ + path
}

/// Whether fields hold no blank and no zero character.
pub open spec fn clean(fields: Seq<Seq<char>>) -> bool {
    forall|i: int|
        0 <= i < fields.len() ==> !(#[trigger] fields[i]).contains(' ') && !fields[i].contains('\0')
}

/// A record, the zero byte behind it, and the rest of a status.
pub open spec fn status_bytes(record: Seq<char>, rest: Seq<u8>) -> Seq<u8> {
    utf8::encode_utf8(record) + seq![0u8] + rest
}

proof fn lemma_fields_back(fields: Seq<Seq<char>>, path: Seq<char>)
    requires
        clean(fields),
        fields.len() > 0,
    ensures
        text::first_parts(record_of(fields, path), ' ', (fields.len() + 1) as nat) == fields.push(
            path,
        ),
    decreases fields.len(),
{
    reveal_strlit(" ");
    let s = record_of(fields, path);
    let head = fields[0];
    let tail = fields.skip(1);
    let n = (fields.len() + 1) as nat;
    let later = if fields.len() == 1 {
        path
    } else {
        record_of(tail, path)
    };
    assert(s =~= head + seq![' '] + later) by {
        if fields.len() > 1 {
            text::lemma_joined_cons(fields, " "@);
        }
    }
    text::lemma_first(s, ' ');
    let i = text::first(s, ' ');
    assert(s[head.len() as int] == ' ');
    assert(i <= head.len());
    if i < head.len() {
        assert(head[i] == ' ');
        assert(fields[0].contains(' '));
    }
    assert(s.take(i) =~= head);
    assert(s.skip(i + 1) =~= later);
    if fields.len() == 1 {
        assert(text::first_parts(later, ' ', 1) == seq![path]);
        assert(text::first_parts(s, ' ', n) =~= fields.push(path));
    } else {
        assert forall|k: int| 0 <= k < tail.len() implies !(#[trigger] tail[k]).contains(' ')
            && !tail[k].contains('\0') by {
            assert(tail[k] == fields[k + 1]);
        }
        lemma_fields_back(tail, path);
        assert(text::first_parts(s, ' ', n) =~= fields.push(path));
    }
}

proof fn lemma_joined_clean(fields: Seq<Seq<char>>)
    requires
        clean(fields),
    ensures
        !text::joined(fields, " "@).contains('\0'),
    decreases fields.len(),
{
    reveal_strlit(" ");
    let j = text::joined(fields, " "@);
    if fields.len() == 1 {
        assert(!fields[0].contains('\0'));
    } else if fields.len() > 1 {
        let d = fields.drop_last();
        assert forall|k: int| 0 <= k < d.len() implies !(#[trigger] d[k]).contains(' ')
            && !d[k].contains('\0') by {
            assert(d[k] == fields[k]);
        }
        lemma_joined_clean(d);
        let before = text::joined(d, " "@);
        let last = fields.last();
        assert(!fields[fields.len() - 1].contains('\0'));
        assert forall|k: int| 0 <= k < j.len() implies j[k] != '\0' by {
            if k < before.len() {
                assert(before.contains(before[k]));
            } else if k > before.len() {
                assert(j[k] == last[k - before.len() - 1]);
                assert(last.contains(last[k - before.len() - 1]));
            }
        }
    }
}

/// A text without a zero character is encoded without a zero byte.
proof fn lemma_no_zero_byte(s: Seq<char>, i: int)
    requires
        !s.contains('\0'),
        0 <= i < utf8::encode_utf8(s).len(),
    ensures
        utf8::encode_utf8(s)[i] != 0,
{
    let b = utf8::encode_utf8(s);
    utf8::encode_utf8_valid_utf8(s);
    utf8::encode_utf8_decode_utf8(s);
    if b[i] == 0 {
        utf8::is_char_boundary_iff_is_leading_byte(b, i);
        utf8::decode_utf8_split(b, i);
        utf8::valid_utf8_split(b, i);
        let later = b.subrange(i, b.len() as int);
        let front = utf8::decode_utf8(b.subrange(0, i));
        assert(later[0] == 0);
        assert(utf8::codepoint_width_1(0u8) == 0) by (bit_vector);
        assert(utf8::decode_utf8(later)[0] == '\0');
        assert(s[front.len() as int] == '\0');
    }
}

/// The first record of a status is found.
pub proof fn lemma_record_found(record: Seq<char>, rest: Seq<u8>)
    requires
        record.len() > 0,
        !record.contains('\0'),
    ensures
        ({
            let data = status_bytes(record, rest);
            let bytes = data.take(git::first_zero(data));
            &&& data.len() > 0
            &&& bytes.len() > 0
            &&& utf8::valid_utf8(bytes)
            &&& utf8::decode_utf8(bytes) == record
            &&& git::first_zero(data) < data.len()
            &&& git::behind_zero(data) == rest
            &&& '\u{7f}' >= record[0] ==> bytes[0] == record[0] as u8
        }),
{
    let b = utf8::encode_utf8(record);
    let data = status_bytes(record, rest);
    utf8::encode_utf8_valid_utf8(record);
    utf8::encode_utf8_decode_utf8(record);
    git::lemma_first_zero(data);
    let z = git::first_zero(data);
    assert(data[b.len() as int] == 0);
    if z < b.len() {
        lemma_no_zero_byte(record, z);
        assert(data[z] == b[z]);
    }
    assert(z == b.len());
    assert(data.take(z) =~= b);
    assert(data.skip(z + 1) =~= rest);
    assert(b.len() > 0) by {
        if b.len() == 0 {
            assert(utf8::decode_utf8(b).len() == 0);
        }
    }
    if '\u{7f}' >= record[0] {
        let one = seq![record[0]];
        assert(utf8::is_ascii_chars(one));
        utf8::is_ascii_chars_encode_utf8(one);
        assert(one[0] as u8 == utf8::encode_utf8(one)[0]);
        assert(one.drop_first() =~= seq![]);
        assert(utf8::encode_utf8(one) =~= utf8::encode_scalar(record[0] as u32));
        assert(b[0] == utf8::encode_scalar(record[0] as u32)[0]);
    }
}

proof fn lemma_record_clean(fields: Seq<Seq<char>>, path: Seq<char>, first: Seq<char>)
    requires
        clean(fields),
        fields.len() > 1,
        fields[0] == first,
        first.len() == 1,
        !path.contains('\0'),
    ensures
        !record_of(fields, path).contains('\0'),
        record_of(fields, path).len() > 0,
        record_of(fields, path)[0] == first[0],
{
    reveal_strlit(" ");
    lemma_joined_clean(fields);
    text::lemma_joined_cons(fields, " "@);
    let front = text::joined(fields, " "@);
    let record = record_of(fields, path);
    assert forall|k: int| 0 <= k < record.len() implies record[k] != '\0' by {
        if k < front.len() {
            assert(front.contains(front[k]));
        } else if k > front.len() {
            assert(record[k] == path[k - front.len() - 1]);
            assert(path.contains(path[k - front.len() - 1]));
        }
    }
}

/// A record of a changed file is read back: its letters stand in the second of
/// its fields, its path behind them.
pub proof fn law_changed_read(fields: Seq<Seq<char>>, path: Seq<char>, rest: Seq<u8>)
    requires
        fields.len() == 8,
        fields[0] == "1"@,
        clean(fields),
        !path.contains('\0'),
    ensures
        git::porcelain(status_bytes(record_of(fields, path), rest)) == git::ahead_of(
            seq![
                FileEntryView::plain(
                    path,
                    Stage::of_letter(git::letter(fields[1], 0)),
                    Stage::of_letter(git::letter(fields[1], 1)),
                ),
            ],
            git::porcelain(rest),
        ),
{
    reveal_strlit("1");
    lemma_record_clean(fields, path, "1"@);
    lemma_record_found(record_of(fields, path), rest);
    lemma_fields_back(fields, path);
}

/// A record of a renamed file is read back, and its former path is passed over.
pub proof fn law_renamed_read(
    fields: Seq<Seq<char>>,
    path: Seq<char>,
    former: Seq<char>,
    rest: Seq<u8>,
)
    requires
        fields.len() == 9,
        fields[0] == "2"@,
        clean(fields),
        !path.contains('\0'),
        former.len() > 0,
        !former.contains('\0'),
    ensures
        git::porcelain(
            status_bytes(record_of(fields, path), status_bytes(former, rest)),
        ) == git::ahead_of(
            seq![
                FileEntryView::plain(
                    path,
                    Stage::of_letter(git::letter(fields[1], 0)),
                    Stage::of_letter(git::letter(fields[1], 1)),
                ),
            ],
            git::porcelain(rest),
        ),
{
    reveal_strlit("2");
    lemma_record_clean(fields, path, "2"@);
    lemma_record_found(record_of(fields, path), status_bytes(former, rest));
    lemma_record_found(former, rest);
    lemma_fields_back(fields, path);
}

/// A record of a file with conflicts is read back.
pub proof fn law_unmerged_read(fields: Seq<Seq<char>>, path: Seq<char>, rest: Seq<u8>)
    requires
        fields.len() == 10,
        fields[0] == "u"@,
        clean(fields),
        !path.contains('\0'),
    ensures
        git::porcelain(status_bytes(record_of(fields, path), rest)) == git::ahead_of(
            seq![FileEntryView::plain(path, Stage::Conflicted, Stage::Conflicted)],
            git::porcelain(rest),
        ),
{
    reveal_strlit("u");
    lemma_record_clean(fields, path, "u"@);
    lemma_record_found(record_of(fields, path), rest);
    lemma_fields_back(fields, path);
}

/// A record of an untracked file is read back.
pub proof fn law_untracked_read(path: Seq<char>, rest: Seq<u8>)
    requires
        !path.contains('\0'),
    ensures
        git::porcelain(status_bytes("? "@ + path, rest)) == git::ahead_of(
            seq![FileEntryView::plain(path, Stage::Untracked, Stage::Untracked)],
            git::porcelain(rest),
        ),
{
    reveal_strlit("? ");
    let record = "? "@ + path;
    assert forall|k: int| 0 <= k < record.len() implies record[k] != '\0' by {
        if k >= 2 {
            assert(record[k] == path[k - 2]);
            assert(path.contains(path[k - 2]));
        }
    }
    lemma_record_found(record, rest);
    assert(record.skip(2) =~= path);
}

/// A status that is empty lists no files.
pub proof fn law_clean_read()
    ensures
        git::porcelain(seq![]) == Some(Ok::<_, git::GitErrorView>(Seq::<FileEntryView>::empty())),
{
}

/// Whether a status is whole: a zero byte ends its last record, and where that is
/// of a renamed file, the former path behind it too.
pub open spec fn whole(data: Seq<u8>) -> bool
    decreases data.len(),
{
    proof {
        git::lemma_first_zero(data);
        git::lemma_first_zero(git::behind_zero(data));
    }
    let end = git::first_zero(data);
    let tail = git::behind_zero(data);
    if data.len() == 0 {
        true
    } else if end == data.len() {
        false
    } else if end > 0 && data[0] == 50 {
        git::first_zero(tail) < tail.len() && whole(git::behind_zero(tail))
    } else {
        whole(tail)
    }
}

proof fn lemma_zero_within(a: Seq<u8>, b: Seq<u8>)
    requires
        git::first_zero(a) < a.len(),
    ensures
        git::first_zero(a + b) == git::first_zero(a),
        (a + b).take(git::first_zero(a)) == a.take(git::first_zero(a)),
        git::behind_zero(a + b) == git::behind_zero(a) + b,
{
    let z = git::first_zero(a);
    let y = git::first_zero(a + b);
    git::lemma_first_zero(a);
    git::lemma_first_zero(a + b);
    if y < z {
        assert((a + b)[y] == a[y]);
    }
    assert((a + b)[z] == a[z]);
    assert((a + b).take(z) =~= a.take(z));
    assert((a + b).skip(z + 1) =~= a.skip(z + 1) + b);
}

/// A status that follows a whole one lists its files behind those of the first.
pub proof fn law_statuses_joined(a: Seq<u8>, b: Seq<u8>, x: Seq<FileEntryView>)
    requires
        whole(a),
        git::porcelain(a) == Some(Ok::<_, git::GitErrorView>(x)),
    ensures
        git::porcelain(a + b) == git::ahead_of(x, git::porcelain(b)),
    decreases a.len(),
{
    git::lemma_first_zero(a);
    let tail = git::behind_zero(a);
    git::lemma_first_zero(tail);
    if a.len() == 0 {
        assert(a + b =~= b);
        if let Some(Ok(y)) = git::porcelain(b) {
            assert(x + y =~= y);
        }
    } else {
        let record = a.take(git::first_zero(a));
        lemma_zero_within(a, b);
        if record.len() == 0 {
            law_statuses_joined(tail, b, x);
        } else {
            match git::read_record(record[0], utf8::decode_utf8(record)) {
                git::Record::Entry(e) => lemma_entry_joined(tail, b, e, x),
                git::Record::Renamed(e) => {
                    lemma_zero_within(tail, b);
                    lemma_entry_joined(git::behind_zero(tail), b, e, x);
                },
                _ => law_statuses_joined(tail, b, x),
            }
        }
    }
}

proof fn lemma_entry_joined(rest: Seq<u8>, b: Seq<u8>, e: FileEntryView, x: Seq<FileEntryView>)
    requires
        whole(rest),
        git::ahead_of(seq![e], git::porcelain(rest)) == Some(Ok::<_, git::GitErrorView>(x)),
    ensures
        git::ahead_of(seq![e], git::porcelain(rest + b)) == git::ahead_of(x, git::porcelain(b)),
    decreases rest.len() + 1,
{
    let y = git::porcelain(rest)->0->Ok_0;
    law_statuses_joined(rest, b, y);
    if let Some(Ok(z)) = git::porcelain(b) {
        assert(seq![e] + (y + z) =~= x + z);
    }
}

} // verus!
