//! How jobs run: which calls of git they make, in which order, and what their replies
//! lead to.

use crate::actions;
use crate::git::{self, FileEntryView, ReplyView, Stage, StorageMode};
use crate::laws;
use crate::outside;
use crate::text;
use crate::work::{
    self, AnswerView, BranchesSnapshotView, GoalView, JobView, Lists, OpDoneView, Plan,
    PushTargetView, StatusReportView, StatusSnapshotView,
};
use vstd::prelude::*;
use vstd::utf8;

verus! {

// ---------------------------------------------------------------------------
// Replies

/// The reply of a call that worked, with what it printed.
pub open spec fn worked(r: ReplyView, out: Seq<char>) -> bool {
    r matches ReplyView::Exited { success, stdout, stderr } && success && outside::lossy(stdout)
        == out
}

/// The reply of a call that did not work, with what it printed as its error.
pub open spec fn failed(r: ReplyView, err: Seq<char>) -> bool {
    r matches ReplyView::Exited { success, stdout, stderr } && !success && outside::lossy(stderr)
        == err
}

/// The reply of a call that was not made.
pub open spec fn not_made(r: ReplyView) -> bool {
    !(r is Exited)
}

/// Whether a plan ends with the message that a call did not work.
pub open spec fn ends_with_failure(p: Plan, args: Seq<Seq<char>>, r: ReplyView) -> bool {
    &&& forall|err: Seq<char>| #[trigger]
        failed(r, err) ==> p == Plan::Done(
            Err(
                "git "@ + outside::debug_list(args) + " failed: "@ + text::trimmed(err),
            ),
        )
    &&& not_made(r) ==> p == Plan::Done(Err("spawning git "@ + outside::debug_list(args)))
}

/// What a plan does when git has given it a reply.
pub open spec fn on_reply(p: Plan, r: ReplyView) -> Plan {
    (p->Git_next)(r)
}

/// Whether a plan makes a call first; where that works another plan follows, and where
/// it does not the message says why.
pub open spec fn calls_then(p: Plan, args: Seq<Seq<char>>, next: Plan) -> bool {
    &&& actions::calls(p, args)
    &&& forall|r: ReplyView, out: Seq<char>| #[trigger] worked(r, out) ==> on_reply(p, r) == next
    &&& forall|r: ReplyView| ends_with_failure(#[trigger] on_reply(p, r), args, r)
}

/// The state of the working tree is gathered anew to show a message, with no list, with
/// the stashes or with the branches.
pub open spec fn shows(message: Seq<char>, lists: Lists) -> Plan {
    work::gather(GoalView::Op { toast: message, lists })
}

/// What each job that changes the repository calls git with, and what it shows when that
/// has worked.
#[verifier::rlimit(40)]
pub proof fn law_changes_run(path: Seq<char>, name: Seq<char>, force: bool)
    ensures
        calls_then(
            work::plan(JobView::StageAll),
            seq!["add"@, "-A"@],
            shows("staged all"@, Lists::Nothing),
        ),
        calls_then(
            work::plan(JobView::Stage { path }),
            seq!["add"@, "-A"@, "--"@, path],
            shows("staged "@ + path, Lists::Nothing),
        ),
        calls_then(
            work::plan(JobView::Restore { path }),
            seq!["restore"@, "--"@, path],
            shows("restored "@ + path, Lists::Nothing),
        ),
        calls_then(
            work::plan(JobView::Checkout { name }),
            seq!["checkout"@, name],
            shows("checked out "@ + name, Lists::Branches),
        ),
        calls_then(
            work::plan(JobView::CreateBranch { name }),
            seq!["branch"@, name],
            work::finish(OpDoneView::says("created "@ + name), Lists::Branches),
        ),
        calls_then(
            work::plan(JobView::DeleteBranch { name, force }),
            seq![
                "branch"@,
                if force {
                    "-D"@
                } else {
                    "-d"@
                },
                name,
            ],
            work::finish(OpDoneView::says("deleted "@ + name), Lists::Branches),
        ),
        calls_then(
            work::plan(JobView::StashApply { reference: name }),
            seq!["stash"@, "apply"@, name],
            shows("applied "@ + name, Lists::Stashes),
        ),
        calls_then(
            work::plan(JobView::StashPop { reference: name }),
            seq!["stash"@, "pop"@, name],
            shows("popped "@ + name, Lists::Stashes),
        ),
        calls_then(
            work::plan(JobView::StashDrop { reference: name }),
            seq!["stash"@, "drop"@, name],
            work::finish(OpDoneView::says("dropped "@ + name), Lists::Stashes),
        ),
        work::plan(JobView::Refresh) == shows("refreshed"@, Lists::Nothing),
{
}

/// A path is taken out of the index by restoring it from the last commit; where there is
/// no commit yet it is removed from the index instead.
pub proof fn law_unstage_runs(path: Seq<char>, r: ReplyView, out: Seq<char>)
    ensures
        ({
            let p = work::plan(JobView::Unstage { path });
            let last = shows("unstaged "@ + path, Lists::Nothing);
            &&& actions::calls(p, seq!["rev-parse"@, "--verify"@, "HEAD"@])
            &&& worked(r, out) ==> calls_then(
                on_reply(p, r),
                seq!["restore"@, "--staged"@, "--"@, path],
                last,
            )
            &&& failed(r, out) ==> calls_then(
                on_reply(p, r),
                seq!["rm"@, "--cached"@, "--"@, path],
                last,
            )
            &&& not_made(r) ==> ends_with_failure(
                on_reply(p, r),
                seq!["rev-parse"@, "--verify"@, "HEAD"@],
                r,
            )
        }),
{
}

/// The files of a folder are restored one after the other, each by its path, up to the
/// first that cannot be; then the state is shown.
pub proof fn law_folder_runs(path: Seq<char>, list: Seq<Seq<char>>)
    ensures
        list.len() == 0 ==> work::plan(JobView::RestoreFolder { path, restore: list }) == shows(
            "restored folder "@ + path,
            Lists::Nothing,
        ),
        list.len() > 0 ==> calls_then(
            work::plan(JobView::RestoreFolder { path, restore: list }),
            seq!["restore"@, "--"@, list[0]],
            work::plan(JobView::RestoreFolder { path, restore: list.skip(1) }),
        ),
{
}

/// An untracked file is removed below the top of the working tree, which git is asked
/// for; then the state is shown.
pub proof fn law_delete_runs(path: Seq<char>, r: ReplyView, out: Seq<char>)
    ensures
        ({
            let p = work::plan(JobView::DeleteUntracked { path });
            let root = seq!["rev-parse"@, "--show-toplevel"@];
            let q = on_reply(p, r);
            &&& actions::calls(p, root)
            &&& ends_with_failure(q, root, r)
            &&& worked(r, out) ==> {
                &&& q is Remove
                &&& q->Remove_path == path
                &&& actions::core_of(out, q->Remove_root)
                &&& (q->Remove_next)(true) == shows("deleted "@ + path, Lists::Nothing)
                &&& (q->Remove_next)(false) == Plan::Done(Err("removing "@ + path))
            }
        }),
{
    text::law_trimmed(out);
}

/// A commit is made with its subject, or the last one is amended; then the short name of
/// the new commit is asked for and shown.
pub proof fn law_commit_runs(subject: Seq<char>, r: ReplyView, s: ReplyView, out: Seq<char>, sha: Seq<char>)
    ensures
        ({
            let p = work::plan(JobView::Commit { subject, amend: false });
            let q = work::plan(JobView::Commit { subject, amend: true });
            let head = seq!["rev-parse"@, "--short"@, "HEAD"@];
            &&& actions::calls(p, seq!["commit"@, "-m"@, subject])
            &&& actions::calls(q, seq!["commit"@, "--amend"@, "-m"@, subject])
            &&& ends_with_failure(on_reply(p, r), seq!["commit"@, "-m"@, subject], r)
            &&& ends_with_failure(on_reply(q, r), seq!["commit"@, "--amend"@, "-m"@, subject], r)
            &&& worked(r, out) ==> {
                &&& on_reply(p, r) == on_reply(q, r)
                &&& actions::calls(on_reply(p, r), head)
                &&& ends_with_failure(on_reply(on_reply(p, r), s), head, s)
                &&& worked(s, sha) ==> on_reply(on_reply(p, r), s) == shows(
                    "committed "@ + text::trimmed(sha),
                    Lists::Nothing,
                )
            }
        }),
{
    let none = Seq::<char>::empty();
    text::law_trimmed(none);
    assert(text::blank(none));
    assert(git::commit_call(subject, none, false) =~= seq!["commit"@, "-m"@, subject]);
    assert(git::commit_call(subject, none, true) =~= seq!["commit"@, "--amend"@, "-m"@, subject]);
}

/// A branch is pushed to a remote, which becomes its upstream where that is asked. The
/// first line of what git said is shown: of its error output, or of its output where
/// that is empty.
pub proof fn law_push_runs(remote: Seq<char>, branch: Seq<char>, r: ReplyView)
    ensures
        ({
            let p = work::plan(JobView::Push { remote, branch, set_upstream: true });
            let q = work::plan(JobView::Push { remote, branch, set_upstream: false });
            &&& actions::calls(p, seq!["push"@, "-u"@, remote, branch])
            &&& actions::calls(q, seq!["push"@, remote, branch])
            &&& on_reply(p, r) == on_reply(q, r)
            &&& r matches ReplyView::Exited { success, stdout, stderr } ==> {
                let err = outside::lossy(stderr);
                let said = text::trimmed(
                    if err.len() == 0 {
                        outside::lossy(stdout)
                    } else {
                        err
                    },
                );
                &&& !success ==> on_reply(p, r) == Plan::Done(
                    Err("push failed: "@ + text::trimmed(err)),
                )
                &&& success ==> exists|line: Seq<char>|
                    (if said.len() == 0 {
                        line.len() == 0
                    } else {
                        line == text::lines(said)[0]
                    }) && on_reply(p, r) == #[trigger] shows("pushed: "@ + line, Lists::Nothing)
            }
            &&& not_made(r) ==> on_reply(p, r) == Plan::Done(Err("spawning git push"@))
        }),
{
    if let ReplyView::Exited { success, stdout, stderr } = r {
        let err = outside::lossy(stderr);
        let said = text::trimmed(
            if err.len() == 0 {
                outside::lossy(stdout)
            } else {
                err
            },
        );
        let p = work::plan(JobView::Push { remote, branch, set_upstream: true });
        let line = work::first_line(said);
        text::law_lines_some(said);
        if success {
            assert(on_reply(p, r) == shows("pushed: "@ + line, Lists::Nothing));
        }
    }
}

// ---------------------------------------------------------------------------
// Differences

/// Whether a plan shows what a call prints, or why it printed nothing.
pub open spec fn shows_output(p: Plan, args: Seq<Seq<char>>) -> bool {
    &&& actions::calls(p, args)
    &&& forall|r: ReplyView, out: Seq<char>| #[trigger]
        worked(r, out) ==> on_reply(p, r) == Plan::Done(Ok(AnswerView::Text(out)))
    &&& forall|r: ReplyView, err: Seq<char>| #[trigger]
        failed(r, err) ==> on_reply(p, r) == Plan::Done(
            Ok(
                AnswerView::Text(
                    "error: "@ + ("git "@ + outside::debug_list(args) + " failed: "@
                        + text::trimmed(err)),
                ),
            ),
        )
}

/// A change that is only in the index is shown as git tells it, and a file that has not
/// changed at all shows nothing.
pub proof fn law_index_difference(e: FileEntryView)
    requires
        e.worktree == Stage::Unmodified,
        e.index != Stage::Untracked,
    ensures
        e.index != Stage::Unmodified ==> shows_output(
            work::plan(JobView::Diff { entry: e }),
            seq!["diff"@, "--cached"@, "--"@, e.path],
        ),
        e.index == Stage::Unmodified ==> work::plan(JobView::Diff { entry: e }) == Plan::Done(
            Ok(AnswerView::Text(Seq::<char>::empty())),
        ),
{
}

/// A change in the working tree is shown as git tells it. Where git tells none, or fails,
/// the change in the index is shown, if there is one.
pub proof fn law_tree_difference(e: FileEntryView, r: ReplyView, out: Seq<char>)
    requires
        e.worktree != Stage::Unmodified,
        e.index != Stage::Untracked,
    ensures
        ({
            let p = work::plan(JobView::Diff { entry: e });
            let blank = forall|k: int| 0 <= k < out.len() ==> text::is_white(#[trigger] out[k]);
            &&& actions::calls(p, seq!["diff"@, "--"@, e.path])
            &&& worked(r, out) && !blank ==> on_reply(p, r) == Plan::Done(Ok(AnswerView::Text(out)))
            &&& (worked(r, out) && blank || failed(r, out) || not_made(r)) && e.index
                != Stage::Unmodified ==> shows_output(
                on_reply(p, r),
                seq!["diff"@, "--cached"@, "--"@, e.path],
            )
            &&& (worked(r, out) && blank || failed(r, out) || not_made(r)) && e.index
                == Stage::Unmodified ==> on_reply(p, r) == Plan::Done(
                Ok(AnswerView::Text(Seq::<char>::empty())),
            )
        }),
{
    text::law_trimmed(out);
}

/// An untracked file is read below the top of the working tree and shown as if each of its
/// lines were added; where it cannot be read as text that is said.
pub proof fn law_untracked_difference(
    e: FileEntryView,
    r: ReplyView,
    out: Seq<char>,
    content: Seq<char>,
)
    requires
        e.index == Stage::Untracked,
    ensures
        ({
            let p = work::plan(JobView::Diff { entry: e });
            let q = on_reply(p, r);
            &&& actions::calls(p, seq!["rev-parse"@, "--show-toplevel"@])
            &&& worked(r, out) ==> {
                &&& q is Read
                &&& q->Read_path == e.path
                &&& actions::core_of(out, q->Read_root)
                &&& (q->Read_next)(None) == Plan::Done(
                    Ok(AnswerView::Text("(binary or unreadable: "@ + e.path + ")"@)),
                )
                &&& (q->Read_next)(Some(content)) == Plan::Done(
                    Ok(
                        AnswerView::Text(
                            "--- /dev/null\n+++ b/"@ + e.path + "\n"@ + plus_lines(
                                text::lines(content),
                            ),
                        ),
                    ),
                )
            }
        }),
{
    text::law_trimmed(out);
    lemma_plus_lines(text::lines(content));
}

/// Lines one below the other, with a plus sign before each.
pub open spec fn plus_lines(list: Seq<Seq<char>>) -> Seq<char>
    decreases list.len(),
{
    if list.len() == 0 {
        seq![]
    } else {
        seq!['+'] + list[0] + seq!['\n'] + plus_lines(list.skip(1))
    }
}

proof fn lemma_plus_cons(list: Seq<Seq<char>>)
    requires
        list.len() > 0,
    ensures
        git::added_lines(list) == seq!['+'] + list[0] + seq!['\n'] + git::added_lines(list.skip(1)),
    decreases list.len(),
{
    let d = list.drop_last();
    if d.len() == 0 {
        assert(git::added_lines(d) =~= seq![]);
        assert(list.skip(1) =~= seq![]);
        assert(git::added_lines(list.skip(1)) =~= seq![]);
        assert(git::added_lines(list) =~= seq!['+'] + list[0] + seq!['\n']);
    } else {
        lemma_plus_cons(d);
        assert(d.skip(1) =~= list.skip(1).drop_last());
        assert(list.skip(1).last() == list.last());
        assert(git::added_lines(list) =~= seq!['+'] + list[0] + seq!['\n'] + git::added_lines(
            list.skip(1),
        ));
    }
}

proof fn lemma_plus_lines(list: Seq<Seq<char>>)
    ensures
        git::added_lines(list) == plus_lines(list),
    decreases list.len(),
{
    if list.len() > 0 {
        lemma_plus_cons(list);
        lemma_plus_lines(list.skip(1));
    }
}

/// The details of a commit and of a stash are what git prints of them.
pub proof fn law_details_shown(name: Seq<char>)
    ensures
        shows_output(
            work::plan(JobView::ShowCommit { sha: name }),
            seq!["show"@, "--color=never"@, "--stat"@, "-p"@, name],
        ),
        shows_output(
            work::plan(JobView::ShowStash { reference: name }),
            seq!["stash"@, "show"@, "--color=never"@, "-p"@, name],
        ),
{
}

/// The subject of the last commit is what git prints of it, without the white space
/// around it; it is empty where that fails.
pub proof fn law_last_subject(r: ReplyView, out: Seq<char>)
    ensures
        ({
            let p = work::plan(JobView::LastSubject);
            &&& actions::calls(p, seq!["log"@, "-1"@, "--pretty=%s"@])
            &&& worked(r, out) ==> on_reply(p, r) == Plan::Done(
                Ok(AnswerView::Text(text::trimmed(out))),
            )
            &&& failed(r, out) || not_made(r) ==> on_reply(p, r) == Plan::Done(
                Ok(AnswerView::Text(Seq::<char>::empty())),
            )
        }),
{
}

// ---------------------------------------------------------------------------
// Where to push

/// To find where a branch can be pushed to, the branch is asked for, then its upstream
/// and, where it has none, the remotes.
pub proof fn law_target_found(
    b: ReplyView,
    branch: Seq<char>,
    u: ReplyView,
    upstream: Seq<char>,
    r: ReplyView,
    names: Seq<char>,
)
    ensures
        ({
            let p = work::plan(JobView::FindPushTarget);
            let q = on_reply(p, b);
            let o = on_reply(q, u);
            let head = seq!["symbolic-ref"@, "--short"@, "HEAD"@];
            &&& actions::calls(p, head)
            &&& failed(b, branch) ==> q == Plan::Done(
                Ok(
                    AnswerView::Push(
                        PushTargetView::NoBranch {
                            message: "git "@ + outside::debug_list(head) + " failed: "@
                                + text::trimmed(branch),
                        },
                    ),
                ),
            )
            &&& worked(b, branch) ==> {
                &&& actions::calls(
                    q,
                    seq!["rev-parse"@, "--abbrev-ref"@, "--symbolic-full-name"@, "@{u}"@],
                )
                &&& worked(u, upstream) ==> o == Plan::Done(
                    Ok(
                        AnswerView::Push(
                            PushTargetView::Upstream {
                                upstream: text::trimmed(upstream),
                                branch: text::trimmed(branch),
                            },
                        ),
                    ),
                )
                &&& not_made(u) ==> o is Done && o->Done_0 is Err
                &&& failed(u, upstream) ==> {
                    &&& actions::calls(o, seq!["remote"@])
                    &&& ends_with_failure(on_reply(o, r), seq!["remote"@], r)
                    &&& worked(r, names) ==> exists|remotes: Seq<Seq<char>>|
                        on_reply(o, r) == Plan::Done(
                            Ok(
                                AnswerView::Push(
                                    PushTargetView::Remotes {
                                        remotes,
                                        branch: text::trimmed(branch),
                                    },
                                ),
                            ),
                        ) && #[trigger] names_in(text::lines(names), remotes)
                }
            }
        }),
{
    let p = work::plan(JobView::FindPushTarget);
    let o = on_reply(on_reply(p, b), u);
    if worked(r, names) {
        let remotes = git::kept(text::lines(names), git::remote_name());
        lemma_names_in(text::lines(names));
        assert(names_in(text::lines(names), remotes));
    }
}

/// Whether a list holds the lines that are not blank, in their order, without the white
/// space around each.
pub open spec fn names_in(lines: Seq<Seq<char>>, names: Seq<Seq<char>>) -> bool
    decreases lines.len(),
{
    if lines.len() == 0 {
        names.len() == 0
    } else if text::trimmed(lines.last()).len() == 0 {
        names_in(lines.drop_last(), names)
    } else {
        names.len() > 0 && names.last() == text::trimmed(lines.last()) && names_in(
            lines.drop_last(),
            names.drop_last(),
        )
    }
}

proof fn lemma_names_in(lines: Seq<Seq<char>>)
    ensures
        names_in(lines, git::kept(lines, git::remote_name())),
    decreases lines.len(),
{
    if lines.len() > 0 {
        let d = lines.drop_last();
        lemma_names_in(d);
        if text::trimmed(lines.last()).len() > 0 {
            assert(git::kept(lines, git::remote_name()).drop_last() =~= git::kept(
                d,
                git::remote_name(),
            ));
        }
    }
}

// ---------------------------------------------------------------------------
// The state of the working tree

/// The arguments of the calls of git that a plan makes while it is given replies.
pub open spec fn called(p: Plan, replies: Seq<ReplyView>) -> Seq<Seq<Seq<char>>>
    decreases replies.len(),
{
    if replies.len() == 0 {
        seq![]
    } else {
        match p {
            Plan::Git { args, input, next } => seq![args] + called(
                next(replies[0]),
                replies.skip(1),
            ),
            _ => seq![],
        }
    }
}

proof fn lemma_called_add(p: Plan, a: Seq<ReplyView>, b: Seq<ReplyView>)
    ensures
        called(p, a + b) == called(p, a) + called(laws::after(p, a), b),
    decreases a.len(),
{
    if a.len() == 0 {
        assert(a + b =~= b);
        assert(called(p, a) + called(p, b) =~= called(p, b));
    } else {
        assert((a + b).skip(1) =~= a.skip(1) + b);
        match p {
            Plan::Git { args, input, next } => {
                lemma_called_add(next(a[0]), a.skip(1), b);
                assert(called(p, a + b) =~= called(p, a) + called(laws::after(p, a), b));
            },
            _ => {
                assert(called(p, b) =~= seq![]) by {
                    if b.len() > 0 {
                        assert(called(p, b) == Seq::<Seq<Seq<char>>>::empty());
                    }
                }
                assert(called(p, a + b) =~= called(p, a) + called(p, b));
            },
        }
    }
}

proof fn lemma_called_one(p: Plan, r: ReplyView)
    requires
        p is Git,
    ensures
        called(p, seq![r]) == seq![p->Git_args],
        laws::after(p, seq![r]) == on_reply(p, r),
{
    let n = on_reply(p, r);
    assert(seq![r].skip(1) =~= seq![]);
    assert(called(n, seq![r].skip(1)) =~= seq![]);
    assert(called(p, seq![r]) =~= seq![p->Git_args]);
    assert(laws::after(n, seq![r].skip(1)) == n);
}

/// Whether it is asked how the last commit has a file: of every file but an untracked
/// one.
pub open spec fn former_asked(e: FileEntryView) -> bool {
    e.index != Stage::Untracked
}

/// Whether it is asked how the index has a file: where it holds a change of it other than
/// that it is gone.
pub open spec fn next_asked(e: FileEntryView) -> bool {
    e.index != Stage::Untracked && e.index != Stage::Unmodified && e.index != Stage::Deleted
}

/// The calls that ask for the content of the first `n` files: first as the last commit
/// has it, then as the index has it.
pub open spec fn storage_calls(entries: Seq<FileEntryView>, n: int) -> Seq<Seq<Seq<char>>>
    decreases n,
{
    if n <= 0 {
        seq![]
    } else {
        let e = entries[n - 1];
        storage_calls(entries, n - 1) + (if former_asked(e) {
            seq![seq!["show"@, "HEAD:"@ + e.path]]
        } else {
            seq![]
        }) + (if next_asked(e) {
            seq![seq!["show"@, ":"@ + e.path]]
        } else {
            seq![]
        })
    }
}

proof fn lemma_storage_calls(entries: Seq<FileEntryView>, n: int)
    ensures
        storage_calls(entries, n).len() == git::asked_before(entries, n),
    decreases n,
{
    if n > 0 {
        lemma_storage_calls(entries, n - 1);
    }
}

proof fn lemma_storage_calls_mono(entries: Seq<FileEntryView>, i: int, n: int)
    requires
        0 <= i <= n,
    ensures
        storage_calls(entries, i).len() <= storage_calls(entries, n).len(),
    decreases n - i,
{
    if i < n {
        lemma_storage_calls_mono(entries, i, n - 1);
    }
}

/// The calls for the files from the `i`-th on.
proof fn lemma_storage_called(
    entries: Seq<FileEntryView>,
    filters: Map<Seq<char>, Seq<char>>,
    found: Seq<Option<StorageMode>>,
    replies: Seq<ReplyView>,
    i: nat,
    goal: GoalView,
)
    requires
        i <= entries.len(),
        replies.len() + storage_calls(entries, i as int).len() == storage_calls(
            entries,
            entries.len() as int,
        ).len(),
    ensures
        storage_calls(entries, i as int) + called(
            work::gather_storage(entries, filters, found, i, goal),
            replies,
        ) == storage_calls(entries, entries.len() as int),
    decreases entries.len() - i,
{
    let p = work::gather_storage(entries, filters, found, i, goal);
    let before = storage_calls(entries, i as int);
    if i == entries.len() {
        assert(replies.len() == 0);
        assert(before + called(p, replies) =~= before);
    } else {
        let e = entries[i as int];
        lemma_storage_calls_mono(entries, i as int + 1, entries.len() as int);
        let mid = if former_asked(e) {
            before + seq![seq!["show"@, "HEAD:"@ + e.path]]
        } else {
            before
        };
        let rest = if former_asked(e) {
            replies.skip(1)
        } else {
            replies
        };
        let seen = if former_asked(e) {
            found.push(git::storage_in(replies[0]))
        } else {
            found
        };
        let q = work::gather_next(entries, filters, seen, i, goal);
        assert(before + called(p, replies) =~= mid + called(q, rest));
        let after = storage_calls(entries, i as int + 1);
        let last = if next_asked(e) {
            rest.skip(1)
        } else {
            rest
        };
        let known = if next_asked(e) {
            seen.push(git::storage_in(rest[0]))
        } else {
            seen
        };
        let o = work::gather_storage(entries, filters, known, i + 1, goal);
        assert(mid + called(q, rest) =~= after + called(o, last));
        lemma_storage_called(entries, filters, known, last, i + 1, goal);
    }
}

/// To gather the state of the working tree git is asked for the status and, where it
/// lists files, for their filters and their contents as the last commit and the index have
/// them, file by file; then for the branch and its upstream. The paths are handed over
/// with a zero byte behind each.
#[verifier::rlimit(40)]
pub proof fn law_state_asked(
    goal: GoalView,
    status: ReplyView,
    entries: Seq<FileEntryView>,
    filters: ReplyView,
    storage: Seq<ReplyView>,
    branch: ReplyView,
    upstream: ReplyView,
)
    requires
        git::status_of(status) == Some(Ok::<_, git::GitErrorView>(entries)),
        storage.len() == storage_calls(entries, entries.len() as int).len(),
    ensures
        ({
            let p = work::gather(goal);
            let first = seq![
                seq!["status"@, "--porcelain=v2"@, "-z"@, "--untracked-files=all"@],
            ];
            let second = seq![seq!["check-attr"@, "-z"@, "--stdin"@, "filter"@]];
            let last = seq![
                seq!["symbolic-ref"@, "--short"@, "HEAD"@],
                seq!["rev-parse"@, "--abbrev-ref"@, "--symbolic-full-name"@, "@{u}"@],
            ];
            let end = seq![branch, upstream];
            &&& entries.len() == 0 ==> called(p, seq![status] + end) == first + last
            &&& entries.len() > 0 ==> {
                &&& git::filters_of(filters) is Ok ==> called(
                    p,
                    seq![status] + seq![filters] + storage + end,
                ) == first + second + storage_calls(entries, entries.len() as int) + last
                &&& git::filters_of(filters) is Err ==> called(
                    p,
                    seq![status] + seq![filters] + end,
                ) == first + second + last
                &&& on_reply(p, status)->Git_input == Some(listed_paths(entries))
            }
        }),
{
    let p = work::gather(goal);
    let q = work::gather_lfs(entries, goal);
    let end = seq![branch, upstream];
    let last = seq![
        seq!["symbolic-ref"@, "--short"@, "HEAD"@],
        seq!["rev-parse"@, "--abbrev-ref"@, "--symbolic-full-name"@, "@{u}"@],
    ];
    lemma_called_one(p, status);
    lemma_listed_paths(entries);
    if entries.len() == 0 {
        lemma_called_add(p, seq![status], end);
        lemma_branch_called(entries, None, goal, branch, upstream);
    } else {
        lemma_called_add(p, seq![status], seq![filters]);
        lemma_after_add(p, seq![status], seq![filters]);
        lemma_called_one(q, filters);
        let two = seq![status] + seq![filters];
        match git::filters_of(filters) {
            Ok(m) => {
                let o = work::gather_storage(entries, m, seq![], 0, goal);
                lemma_called_add(p, two, storage);
                lemma_after_add(p, two, storage);
                lemma_called_add(p, two + storage, end);
                lemma_storage_called(entries, m, seq![], storage, 0, goal);
                assert(storage_calls(entries, 0) + called(o, storage) =~= called(o, storage));
                lemma_storage_calls(entries, entries.len() as int);
                laws::lemma_storage_after(entries, m, storage, 0, goal);
                assert(laws::storages(storage.take(0)) =~= seq![]);
                assert(storage.skip(0) =~= storage);
                lemma_branch_called(
                    git::annotated(entries, m, laws::storages(storage)),
                    None,
                    goal,
                    branch,
                    upstream,
                );
            },
            Err(e) => {
                lemma_called_add(p, two, end);
                lemma_branch_called(entries, Some(e.text()), goal, branch, upstream);
            },
        }
    }
}

proof fn lemma_after_add(p: Plan, a: Seq<ReplyView>, b: Seq<ReplyView>)
    ensures
        laws::after(p, a + b) == laws::after(laws::after(p, a), b),
{
    laws::lemma_after_add(p, a, b);
}

proof fn lemma_branch_called(
    entries: Seq<FileEntryView>,
    warning: Option<Seq<char>>,
    goal: GoalView,
    branch: ReplyView,
    upstream: ReplyView,
)
    ensures
        called(work::gather_branch(entries, warning, goal), seq![branch, upstream]) == seq![
            seq!["symbolic-ref"@, "--short"@, "HEAD"@],
            seq!["rev-parse"@, "--abbrev-ref"@, "--symbolic-full-name"@, "@{u}"@],
        ],
{
    let p = work::gather_branch(entries, warning, goal);
    let q = work::gather_upstream(entries, warning, work::branch_in(branch), goal);
    assert(seq![branch, upstream] =~= seq![branch] + seq![upstream]);
    lemma_called_add(p, seq![branch], seq![upstream]);
    lemma_called_one(p, branch);
    lemma_called_one(q, upstream);
    assert(called(p, seq![branch, upstream]) =~= seq![
        seq!["symbolic-ref"@, "--short"@, "HEAD"@],
        seq!["rev-parse"@, "--abbrev-ref"@, "--symbolic-full-name"@, "@{u}"@],
    ]);
}

/// The paths of files in UTF-8, with a zero byte behind each.
pub open spec fn listed_paths(entries: Seq<FileEntryView>) -> Seq<u8>
    decreases entries.len(),
{
    if entries.len() == 0 {
        seq![]
    } else {
        utf8::encode_utf8(entries[0].path) + seq![0u8] + listed_paths(entries.skip(1))
    }
}

proof fn lemma_listed_cons(entries: Seq<FileEntryView>)
    requires
        entries.len() > 0,
    ensures
        git::attr_input(entries) == utf8::encode_utf8(entries[0].path) + seq![0u8]
            + git::attr_input(entries.skip(1)),
    decreases entries.len(),
{
    let d = entries.drop_last();
    if d.len() == 0 {
        assert(git::attr_input(d) =~= seq![]);
        assert(entries.skip(1) =~= seq![]);
        assert(git::attr_input(entries.skip(1)) =~= seq![]);
        assert(git::attr_input(entries) =~= utf8::encode_utf8(entries[0].path) + seq![0u8]);
    } else {
        lemma_listed_cons(d);
        assert(d.skip(1) =~= entries.skip(1).drop_last());
        assert(entries.skip(1).last() == entries.last());
        assert(git::attr_input(entries) =~= utf8::encode_utf8(entries[0].path) + seq![0u8]
            + git::attr_input(entries.skip(1)));
    }
}

proof fn lemma_listed_paths(entries: Seq<FileEntryView>)
    ensures
        git::attr_input(entries) == listed_paths(entries),
    decreases entries.len(),
{
    if entries.len() > 0 {
        lemma_listed_cons(entries);
        lemma_listed_paths(entries.skip(1));
    }
}

/// How many replies tell of the contents of the first `n` files.
pub open spec fn replies_before(entries: Seq<FileEntryView>, n: int) -> nat
    decreases n,
{
    if n <= 0 {
        0
    } else {
        replies_before(entries, n - 1) + (if former_asked(entries[n - 1]) {
            1nat
        } else {
            0nat
        }) + (if next_asked(entries[n - 1]) {
            1nat
        } else {
            0nat
        })
    }
}

proof fn lemma_replies_before(entries: Seq<FileEntryView>, n: int)
    ensures
        git::asked_before(entries, n) == replies_before(entries, n),
    decreases n,
{
    if n > 0 {
        lemma_replies_before(entries, n - 1);
    }
}

/// What is known of a file when the filters and the replies about its contents are there:
/// it belongs to the large-file storage if its filter is `lfs`; how the last commit and the
/// index have it is told by its replies, in turn; and if it belongs to that storage, it is
/// in order if the index holds a pointer. Nothing else of it changes.
pub proof fn law_storage_noted(
    entries: Seq<FileEntryView>,
    filters: Map<Seq<char>, Seq<char>>,
    found: Seq<Option<StorageMode>>,
    i: int,
)
    requires
        0 <= i < entries.len(),
        found.len() == replies_before(entries, entries.len() as int),
    ensures
        ({
            let e = entries[i];
            let b = git::annotated(entries, filters, found)[i];
            let k = replies_before(entries, i) as int;
            let n = if former_asked(e) {
                k + 1
            } else {
                k
            };
            &&& b.path == e.path && b.index == e.index && b.worktree == e.worktree
            &&& b.lfs_tracked == (filters.contains_key(e.path) && filters[e.path] == "lfs"@)
            &&& former_asked(e) ==> k < found.len() && b.prev_storage == found[k]
            &&& !former_asked(e) ==> b.prev_storage == e.prev_storage
            &&& next_asked(e) ==> n < found.len() && b.next_storage == found[n]
            &&& !next_asked(e) ==> b.next_storage == e.next_storage && b.lfs_pointer_ok
                == e.lfs_pointer_ok
            &&& next_asked(e) && b.lfs_tracked ==> b.lfs_pointer_ok == Some(
                found[n] == Some(StorageMode::Lfs),
            )
            &&& next_asked(e) && !b.lfs_tracked ==> b.lfs_pointer_ok == e.lfs_pointer_ok
        }),
        git::annotated(entries, filters, found).len() == entries.len(),
{
    lemma_replies_before(entries, i);
    lemma_replies_mono(entries, i + 1, entries.len() as int);
}

proof fn lemma_replies_mono(entries: Seq<FileEntryView>, i: int, n: int)
    requires
        0 <= i <= n,
    ensures
        replies_before(entries, i) <= replies_before(entries, n),
    decreases n - i,
{
    if i < n {
        lemma_replies_mono(entries, i, n - 1);
    }
}

/// A content is a pointer of the large-file storage if its first two hundred bytes begin
/// as one does; any other content is kept by git. Of a content that could not be had
/// nothing is known.
pub proof fn law_storage_told(r: ReplyView)
    ensures
        !(r is Exited) ==> git::storage_in(r) is None,
        r matches ReplyView::Exited { success, stdout, stderr } ==> {
            let head = outside::lossy(
                if stdout.len() <= 200 {
                    stdout
                } else {
                    stdout.take(200)
                },
            );
            let pointer = text::begins(head, "version https://git-lfs.github.com/spec/"@);
            &&& !success ==> git::storage_in(r) is None
            &&& success && pointer ==> git::storage_in(r) == Some(StorageMode::Lfs)
            &&& success && !pointer ==> git::storage_in(r) == Some(StorageMode::Git)
        },
{
}

/// When the state has been gathered it is reported, or it is brought with the message and
/// the lists that were asked for.
pub proof fn law_state_brought(
    s: StatusSnapshotView,
    warning: Option<Seq<char>>,
    message: Seq<char>,
)
    ensures
        work::gathered(GoalView::Report, s, warning) == Plan::Done(
            Ok(AnswerView::Status(StatusReportView { snapshot: s, warning })),
        ),
        forall|lists: Lists|
            #[trigger] work::gathered(GoalView::Op { toast: message, lists }, s, warning)
                == work::finish(
                OpDoneView {
                    toast: Some(message),
                    status: Some(s),
                    log: None,
                    stashes: None,
                    branches: None,
                },
                lists,
            ),
        OpDoneView::says(message) == (OpDoneView {
            toast: Some(message),
            status: None,
            log: None,
            stashes: None,
            branches: None,
        }),
{
}

/// Before a job is done the lists that it brings are fetched: none, the stashes, or the
/// local and then the remote branches. They replace nothing else that it brings.
pub proof fn law_lists_fetched(done: OpDoneView, r: ReplyView, s: ReplyView)
    ensures
        work::finish(done, Lists::Nothing) == Plan::Done(Ok(AnswerView::Op(done))),
        ({
            let p = work::finish(done, Lists::Stashes);
            &&& actions::calls(p, seq!["stash"@, "list"@, "--format=%gd%x1f%s"@])
            &&& on_reply(p, r) == Plan::Done(
                Ok(
                    AnswerView::Op(
                        OpDoneView { stashes: Some(work::stashes_in(r)), ..done },
                    ),
                ),
            )
        }),
        ({
            let p = work::finish(done, Lists::Branches);
            let q = on_reply(p, r);
            &&& actions::calls(
                p,
                seq![
                    "for-each-ref"@,
                    "--sort=-committerdate"@,
                    "refs/heads"@,
                    "--format=%(HEAD)\x1f%(refname:short)\x1f%(upstream:short)\x1f%(upstream:track)\x1f%(objectname:short)\x1f%(contents:subject)"@,
                ],
            )
            &&& actions::calls(
                q,
                seq![
                    "for-each-ref"@,
                    "--sort=refname"@,
                    "refs/remotes"@,
                    "--format=%(refname:short)\x1f%(objectname:short)\x1f%(contents:subject)"@,
                ],
            )
            &&& on_reply(q, s) == Plan::Done(
                Ok(
                    AnswerView::Op(
                        OpDoneView {
                            branches: Some(
                                BranchesSnapshotView {
                                    locals: work::locals_in(r),
                                    remotes: work::remotes_in(s),
                                },
                            ),
                            ..done
                        },
                    ),
                ),
            )
        }),
        work::plan(JobView::FetchStashes) == work::finish(OpDoneView::nothing(), Lists::Stashes),
        work::plan(JobView::FetchBranches) == work::finish(OpDoneView::nothing(), Lists::Branches),
        OpDoneView::nothing() == (OpDoneView {
            toast: None,
            status: None,
            log: None,
            stashes: None,
            branches: None,
        }),
{
}

/// The log is the last two hundred commits.
pub proof fn law_log_fetched(r: ReplyView)
    ensures
        ({
            let p = work::plan(JobView::FetchLog);
            &&& actions::calls(
                p,
                seq![
                    "log"@,
                    "-n200"@,
                    "--date=short"@,
                    "--pretty=format:%H%x1f%h%x1f%an%x1f%ad%x1f%s"@,
                ],
            )
            &&& on_reply(p, r) == Plan::Done(
                Ok(
                    AnswerView::Op(
                        OpDoneView { log: Some(work::commits_in(r)), ..OpDoneView::nothing() },
                    ),
                ),
            )
        }),
{
    reveal_strlit("-n");
    reveal_strlit("-n200");
    reveal_with_fuel(text::decimal, 4);
    assert(work::LOG_LIMIT as nat == 200);
    assert(text::decimal(200) =~= seq!['2', '0', '0']);
    assert("-n"@ + text::decimal(200) =~= "-n200"@);
}

/// The branch and its upstream are what git prints of them, without the white space around
/// it; where there is no branch that is said, and there can be no upstream.
pub proof fn law_branch_read(r: ReplyView, out: Seq<char>)
    ensures
        worked(r, out) ==> {
            &&& work::branch_in(r) == text::trimmed(out)
            &&& work::upstream_in(r) == Some(text::trimmed(out))
        },
        failed(r, out) || not_made(r) ==> {
            &&& work::branch_in(r) == "(detached)"@
            &&& work::upstream_in(r) is None
        },
{
}

// ---------------------------------------------------------------------------
// How the state is told

/// Where the status cannot be had, that is told and nothing else is called.
pub proof fn law_state_missing(goal: GoalView, r: ReplyView, e: git::GitErrorView)
    ensures
        git::status_of(r) == Some(Err::<Seq<FileEntryView>, _>(e)) ==> on_reply(
            work::gather(goal),
            r,
        ) == Plan::Done(Err(e.text())),
        git::status_of(r) is None ==> on_reply(work::gather(goal), r) == Plan::Stopped,
        ends_with_failure(
            on_reply(work::gather(goal), r),
            seq!["status"@, "--porcelain=v2"@, "-z"@, "--untracked-files=all"@],
            r,
        ),
{
}

/// The replies to the calls make up the state: the files with their storage, the branch and
/// its upstream. Where the filters could not be told the files stay as they were read, and the
/// reason is the warning.
#[verifier::rlimit(40)]
pub proof fn law_state_told(
    goal: GoalView,
    status: ReplyView,
    entries: Seq<FileEntryView>,
    filters: ReplyView,
    storage: Seq<ReplyView>,
    branch: ReplyView,
    upstream: ReplyView,
)
    requires
        git::status_of(status) == Some(Ok::<_, git::GitErrorView>(entries)),
        storage.len() == git::asked_before(entries, entries.len() as int),
    ensures
        ({
            let p = work::gather(goal);
            let end = seq![branch, upstream];
            let with = |list: Seq<FileEntryView>|
                StatusSnapshotView {
                    entries: list,
                    branch: work::branch_in(branch),
                    upstream: work::upstream_in(upstream),
                };
            &&& entries.len() == 0 ==> laws::after(p, seq![status] + end) == work::gathered(
                goal,
                with(entries),
                None,
            )
            &&& entries.len() > 0 ==> match git::filters_of(filters) {
                Ok(m) => laws::after(p, seq![status] + seq![filters] + storage + end)
                    == work::gathered(
                    goal,
                    with(git::annotated(entries, m, laws::storages(storage))),
                    None,
                ),
                Err(e) => laws::after(p, seq![status] + seq![filters] + end) == work::gathered(
                    goal,
                    with(entries),
                    Some(e.text()),
                ),
            }
        }),
{
    let p = work::gather(goal);
    let q = work::gather_lfs(entries, goal);
    let end = seq![branch, upstream];
    laws::lemma_one_reply(p, status);
    if entries.len() == 0 {
        laws::lemma_after_add(p, seq![status], end);
        laws::lemma_branch_after(entries, None, goal, branch, upstream);
    } else {
        laws::lemma_after_add(p, seq![status], seq![filters]);
        laws::lemma_one_reply(q, filters);
        match git::filters_of(filters) {
            Ok(m) => {
                laws::lemma_after_add(p, seq![status] + seq![filters], storage);
                laws::lemma_after_add(p, seq![status] + seq![filters] + storage, end);
                laws::lemma_storage_after(entries, m, storage, 0, goal);
                assert(laws::storages(storage.take(0)) =~= seq![]);
                assert(storage.skip(0) =~= storage);
                laws::lemma_branch_after(
                    git::annotated(entries, m, laws::storages(storage)),
                    None,
                    goal,
                    branch,
                    upstream,
                );
            },
            Err(e) => {
                laws::lemma_after_add(p, seq![status] + seq![filters], end);
                laws::lemma_branch_after(entries, Some(e.text()), goal, branch, upstream);
            },
        }
    }
}

/// The replies about storage are as many as are asked for: of each file but an untracked one
/// what the last commit holds, and of each that the index holds and does not delete what is to
/// be committed.
pub proof fn law_replies_numbered(entries: Seq<FileEntryView>, n: int)
    requires
        0 <= n <= entries.len(),
    ensures
        git::asked_before(entries, n) == replies_before(entries, n),
    decreases n,
{
    if n > 0 {
        law_replies_numbered(entries, n - 1);
    }
}

/// A text that could not be had is told as an error in its place, and a push that could not
/// be prepared is told why.
pub proof fn law_calls_not_made(e: FileEntryView, name: Seq<char>, r: ReplyView, s: Seq<char>)
    ensures
        not_made(r) ==> {
            &&& on_reply(work::plan(JobView::ShowCommit { sha: name }), r) == Plan::Done(
                Ok(
                    AnswerView::Text(
                        "error: "@ + ("spawning git "@ + outside::debug_list(
                            seq!["show"@, "--color=never"@, "--stat"@, "-p"@, name],
                        )),
                    ),
                ),
            )
            &&& on_reply(work::plan(JobView::ShowStash { reference: name }), r) == Plan::Done(
                Ok(
                    AnswerView::Text(
                        "error: "@ + ("spawning git "@ + outside::debug_list(
                            seq!["stash"@, "show"@, "--color=never"@, "-p"@, name],
                        )),
                    ),
                ),
            )
            &&& e.index == Stage::Untracked ==> on_reply(work::plan(JobView::Diff { entry: e }), r)
                == Plan::Done(
                Ok(
                    AnswerView::Text(
                        "error: "@ + ("spawning git "@ + outside::debug_list(
                            seq!["rev-parse"@, "--show-toplevel"@],
                        )),
                    ),
                ),
            )
            &&& on_reply(work::plan(JobView::FindPushTarget), r) == Plan::Done(
                Ok(
                    AnswerView::Push(
                        PushTargetView::NoBranch {
                            message: "spawning git "@ + outside::debug_list(
                                seq!["symbolic-ref"@, "--short"@, "HEAD"@],
                            ),
                        },
                    ),
                ),
            )
        },
        failed(r, s) && e.index == Stage::Untracked ==> on_reply(
            work::plan(JobView::Diff { entry: e }),
            r,
        ) == Plan::Done(
            Ok(
                AnswerView::Text(
                    "error: "@ + ("git "@ + outside::debug_list(
                        seq!["rev-parse"@, "--show-toplevel"@],
                    ) + " failed: "@ + text::trimmed(s)),
                ),
            ),
        ),
{
}

/// A commit has its body behind its subject, unless that is white space alone.
pub proof fn law_commit_body(subject: Seq<char>, body: Seq<char>, amend: bool)
    ensures
        ({
            let args = git::commit_call(subject, body, amend);
            let blank = forall|k: int| 0 <= k < body.len() ==> text::is_white(#[trigger] body[k]);
            &&& blank && amend ==> args == seq!["commit"@, "--amend"@, "-m"@, subject]
            &&& blank && !amend ==> args == seq!["commit"@, "-m"@, subject]
            &&& !blank && amend ==> args == seq![
                "commit"@,
                "--amend"@,
                "-m"@,
                subject,
                "-m"@,
                body,
            ]
            &&& !blank && !amend ==> args == seq!["commit"@, "-m"@, subject, "-m"@, body]
        }),
{
    text::law_trimmed(body);
    let args = git::commit_call(subject, body, amend);
    if text::blank(body) && amend {
        assert(args =~= seq!["commit"@, "--amend"@, "-m"@, subject]);
    } else if text::blank(body) {
        assert(args =~= seq!["commit"@, "-m"@, subject]);
    } else if amend {
        assert(args =~= seq!["commit"@, "--amend"@, "-m"@, subject, "-m"@, body]);
    } else {
        assert(args =~= seq!["commit"@, "-m"@, subject, "-m"@, body]);
    }
}

/// As many commits are listed as asked for.
pub proof fn law_log_limit(n: nat)
    ensures
        git::log_call(n) == seq![
            "log"@,
            "-n"@ + text::decimal(n),
            "--date=short"@,
            "--pretty=format:%H%x1f%h%x1f%an%x1f%ad%x1f%s"@,
        ],
{
}

} // verus!
