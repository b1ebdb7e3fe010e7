//! What a key or an answer leaves as it is.

use crate::actions;
use crate::app::{
    AppView, BranchFocus, BranchesStateView, DiffView, Focus, Key, KeyCode, LogFocus, LogStateView,
    ModalView, PolledView, PushDialogView, StashFocus, StashStateView, Tab,
};
use crate::model;
use crate::text;
use crate::tree::{self, RowView, Side};
use crate::work::{AnswerView, JobView, OpDoneView, StatusReportView, StatusSnapshotView};
use vstd::prelude::*;

verus! {

// ---------------------------------------------------------------------------
// Keys without a meaning

/// The keys that have a meaning in every view: those of the views, and `q` and `r`.
pub open spec fn common(code: KeyCode) -> bool {
    code == KeyCode::Char('1') || code == KeyCode::Char('2') || code == KeyCode::Char('3') || code
        == KeyCode::Char('4') || code == KeyCode::Char('q') || code == KeyCode::Char('r')
}

/// In the list of files every key without a meaning does nothing.
pub proof fn law_other_file_keys(a: AppView, key: Key)
    requires
        actions::in_files(a),
        !common(key.code),
        !actions::moves(key.code),
        key.code != KeyCode::Tab,
        key.code != KeyCode::Right && key.code != KeyCode::Char('l'),
        key.code != KeyCode::Left && key.code != KeyCode::Char('h'),
        key.code != KeyCode::Enter && key.code != KeyCode::Char(' '),
        key.code != KeyCode::Char('a') && key.code != KeyCode::Char('u'),
        key.code != KeyCode::Char('d') && key.code != KeyCode::Char('c'),
        key.code != KeyCode::Char('P'),
    ensures
        a.on_key(key) == (a, None::<JobView>),
{
}

/// In the difference, and in the details of a stash or of a commit, every key without a
/// meaning does nothing.
pub proof fn law_other_text_keys(a: AppView, key: Key)
    requires
        !common(key.code),
        !actions::rolls(key.code),
        key.code != KeyCode::Esc && key.code != KeyCode::Left,
        key.code != KeyCode::Tab && key.code != KeyCode::BackTab,
    ensures
        actions::in_diff(a) && key.code != KeyCode::Enter ==> a.on_key(key) == (
            a,
            None::<JobView>,
        ),
        actions::in_stash_details(a) && key.code != KeyCode::Char('h') ==> a.on_key(key) == (
            a,
            None::<JobView>,
        ),
        actions::in_log_details(a) && key.code != KeyCode::Char('h') ==> a.on_key(key) == (
            a,
            None::<JobView>,
        ),
{
}

/// In the lists of stashes and of commits every key without a meaning does nothing.
pub proof fn law_other_list_keys(a: AppView, key: Key)
    requires
        !common(key.code),
        !actions::moves(key.code),
        key.code != KeyCode::Right && key.code != KeyCode::Char('l'),
        key.code != KeyCode::Tab && key.code != KeyCode::Enter,
    ensures
        actions::in_log(a) ==> a.on_key(key) == (a, None::<JobView>),
        actions::in_stashes(a) && key.code != KeyCode::Char('a') && key.code != KeyCode::Char('p')
            && key.code != KeyCode::Char('d') ==> a.on_key(key) == (a, None::<JobView>),
{
}

/// In the lists of branches every key without a meaning does nothing.
pub proof fn law_other_branch_keys(a: AppView, key: Key)
    requires
        actions::in_branches(a),
        !common(key.code),
        !actions::moves(key.code),
        key.code != KeyCode::Right && key.code != KeyCode::Char('l'),
        key.code != KeyCode::Left && key.code != KeyCode::Char('h'),
        key.code != KeyCode::Tab && key.code != KeyCode::BackTab,
        key.code != KeyCode::Enter && key.code != KeyCode::Char('n'),
        key.code != KeyCode::Char('d') && key.code != KeyCode::Char('D'),
    ensures
        a.on_key(key) == (a, None::<JobView>),
{
}

/// While a push runs its dialog takes no key.
pub proof fn law_push_running(a: AppView, key: Key)
    requires
        a.pending is None,
        a.modal == ModalView::Push(PushDialogView::Running),
    ensures
        a.on_key(key) == (a, None::<JobView>),
{
}

// ---------------------------------------------------------------------------
// Walking

/// Whether a key comes to an item of a list.
pub open spec fn arrives(code: KeyCode, cursor: int, len: int) -> bool {
    ||| (code == KeyCode::Up || code == KeyCode::Char('k')) && cursor > 0
    ||| (code == KeyCode::Down || code == KeyCode::Char('j')) && cursor + 1 < len
    ||| (code == KeyCode::Home || code == KeyCode::End) && len > 0
}

/// A key that comes to no other item changes nothing; one that does changes the cursor, and
/// from the first line on the details of the item are shown once they are there.
#[verifier::rlimit(40)]
pub proof fn law_items_walked(a: AppView, key: Key)
    requires
        actions::moves(key.code),
    ensures
        actions::in_files(a) && !arrives(key.code, a.cursor as int, a.rows.len() as int)
            ==> a.on_key(key) == (a, None::<JobView>),
        actions::in_files(a) && arrives(key.code, a.cursor as int, a.rows.len() as int) ==> {
            let b = a.on_key(key).0;
            &&& b == (AppView {
                cursor: b.cursor,
                diff_text: b.diff_text,
                diff_scroll: 0,
                ..a
            })
            &&& actions::shows_row(b, a.on_key(key).1)
            &&& a.on_key(key).1 is Some ==> b.diff_text == a.diff_text
        },
        actions::in_stashes(a) && !arrives(
            key.code,
            a.stash.cursor as int,
            a.stash.stashes.len() as int,
        ) ==> a.on_key(key) == (a, None::<JobView>),
        actions::in_stashes(a) && a.stash.cursor < a.stash.stashes.len() <= usize::MAX && arrives(
            key.code,
            a.stash.cursor as int,
            a.stash.stashes.len() as int,
        ) ==> {
            let b = a.on_key(key).0;
            &&& b == (AppView {
                stash: StashStateView { cursor: b.stash.cursor, details_scroll: 0, ..a.stash },
                ..a
            })
            &&& b.stash.cursor < a.stash.stashes.len()
            &&& a.on_key(key).1 == Some(
                JobView::ShowStash {
                    reference: a.stash.stashes[b.stash.cursor as int].reference,
                },
            )
        },
        actions::in_log(a) && !arrives(
            key.code,
            a.log.cursor as int,
            a.log.commits.len() as int,
        ) ==> a.on_key(key) == (a, None::<JobView>),
        actions::in_log(a) && a.log.cursor < a.log.commits.len() <= usize::MAX && arrives(
            key.code,
            a.log.cursor as int,
            a.log.commits.len() as int,
        ) ==> {
            let b = a.on_key(key).0;
            &&& b == (AppView {
                log: LogStateView { cursor: b.log.cursor, details_scroll: 0, ..a.log },
                ..a
            })
            &&& b.log.cursor < a.log.commits.len()
            &&& a.on_key(key).1 == Some(
                JobView::ShowCommit { sha: a.log.commits[b.log.cursor as int].sha },
            )
        },
{
}

// ---------------------------------------------------------------------------
// Folding

/// Whether only the folding of folders changed between two states: the rows are those of both
/// sides, the cursor stays, or goes to the last row where there are fewer, and what is beside
/// the files follows it from the first line on.
pub open spec fn refolded(
    a: AppView,
    b: AppView,
    collapsed: Set<Seq<char>>,
    ask: Option<JobView>,
) -> bool {
    let rows = tree::side_rows(a.entries, collapsed, Side::Unstaged) + tree::side_rows(
        a.entries,
        collapsed,
        Side::Staged,
    );
    &&& b == (AppView {
        collapsed,
        rows,
        cursor: b.cursor,
        diff_text: b.diff_text,
        diff_scroll: 0,
        ..a
    })
    &&& a.cursor < rows.len() ==> b.cursor == a.cursor
    &&& a.cursor >= rows.len() && rows.len() > 0 ==> b.cursor == rows.len() - 1
    &&& rows.len() == 0 ==> b.cursor == 0
    &&& actions::shows_row(b, ask)
}

/// Unfolding takes the path under the cursor out of the folded ones, folding puts it in.
#[verifier::rlimit(40)]
pub proof fn law_refolded(a: AppView, key: Key)
    requires
        actions::in_files(a),
        a.cursor < a.rows.len(),
        a.rows[a.cursor as int].is_dir,
    ensures
        ({
            let r = a.rows[a.cursor as int];
            &&& key.code == KeyCode::Right || key.code == KeyCode::Char('l') ==> refolded(
                a,
                a.on_key(key).0,
                a.collapsed.remove(r.path),
                a.on_key(key).1,
            )
            &&& r.expanded && (key.code == KeyCode::Left || key.code == KeyCode::Char('h'))
                ==> refolded(a, a.on_key(key).0, a.collapsed.insert(r.path), a.on_key(key).1)
            &&& r.expanded ==> refolded(
                a,
                a.toggled().0,
                a.collapsed.insert(r.path),
                a.toggled().1,
            )
            &&& !r.expanded ==> refolded(
                a,
                a.toggled().0,
                a.collapsed.remove(r.path),
                a.toggled().1,
            )
        }),
{
    let r = a.rows[a.cursor as int];
    lemma_refolded(a, a.collapsed.remove(r.path));
    lemma_refolded(a, a.collapsed.insert(r.path));
    lemma_folding_keys(a, key);
}

proof fn lemma_refolded(a: AppView, collapsed: Set<Seq<char>>)
    ensures
        refolded(a, a.folded(collapsed).0, collapsed, a.folded(collapsed).1),
{
}

proof fn lemma_folding_keys(a: AppView, key: Key)
    requires
        actions::in_files(a),
        a.cursor < a.rows.len(),
        a.rows[a.cursor as int].is_dir,
    ensures
        ({
            let r = a.rows[a.cursor as int];
            &&& key.code == KeyCode::Right || key.code == KeyCode::Char('l') ==> a.on_key(key)
                == a.folded(a.collapsed.remove(r.path))
            &&& r.expanded && (key.code == KeyCode::Left || key.code == KeyCode::Char('h'))
                ==> a.on_key(key) == a.folded(a.collapsed.insert(r.path))
            &&& r.expanded ==> a.toggled() == a.folded(a.collapsed.insert(r.path))
            &&& !r.expanded ==> a.toggled() == a.folded(a.collapsed.remove(r.path))
        }),
{
}

/// Toggling without rows does nothing.
pub proof fn law_nothing_toggled(a: AppView)
    requires
        a.cursor >= a.rows.len(),
    ensures
        a.toggled() == (a, None::<JobView>),
{
}

proof fn lemma_no_row(rows: Seq<RowView>, path: Seq<char>)
    requires
        forall|k: int| 0 <= k < rows.len() ==> (#[trigger] rows[k]).path != path,
    ensures
        model::row_at(rows, path) == rows.len(),
    decreases rows.len(),
{
    if rows.len() > 0 {
        let t = rows.skip(1);
        assert forall|k: int| 0 <= k < t.len() implies (#[trigger] t[k]).path != path by {
            assert(t[k] == rows[k + 1]);
        }
        assert(rows[0].path != path);
        lemma_no_row(t, path);
    }
}

proof fn lemma_row(rows: Seq<RowView>, path: Seq<char>)
    ensures
        model::row_at(rows, path) <= rows.len(),
        model::row_at(rows, path) < rows.len() ==> rows[model::row_at(rows, path) as int].path
            == path,
        forall|k: int| 0 <= k < model::row_at(rows, path) ==> (#[trigger] rows[k]).path != path,
    decreases rows.len(),
{
    if rows.len() > 0 && rows[0].path != path {
        let t = rows.skip(1);
        lemma_row(t, path);
        assert forall|k: int| 0 <= k < model::row_at(rows, path) implies (#[trigger] rows[k]).path
            != path by {
            if k > 0 {
                assert(t[k - 1] == rows[k]);
            }
        }
    }
}

/// To the left of a file or of a folded folder at the top, or where the folder around is not
/// shown, nothing happens.
#[verifier::rlimit(40)]
pub proof fn law_left_stays(a: AppView, key: Key, folder: Seq<char>, name: Seq<char>)
    requires
        actions::in_files(a),
        a.cursor < a.rows.len(),
        key.code == KeyCode::Left || key.code == KeyCode::Char('h'),
        !(a.rows[a.cursor as int].is_dir && a.rows[a.cursor as int].expanded),
        !name.contains('/'),
        ({
            ||| a.rows[a.cursor as int].path == name
            ||| a.rows[a.cursor as int].path == folder + seq!['/'] + name && forall|k: int|
                0 <= k < a.rows.len() ==> (#[trigger] a.rows[k]).path != folder
        }),
    ensures
        a.on_key(key) == (a, None::<JobView>),
{
    text::law_before_last(folder, name, '/');
    if a.rows[a.cursor as int].path != name {
        lemma_no_row(a.rows, folder);
    }
}

// ---------------------------------------------------------------------------
// Views

/// The files are shown anew from the first row on, with the rows of both sides; all else is
/// as it was.
#[verifier::rlimit(40)]
pub proof fn law_files_shown_anew(a: AppView, key: Key)
    requires
        actions::free(a),
        key.code == KeyCode::Char('1'),
        a.tab != Tab::Status,
    ensures
        ({
            let b = a.on_key(key).0;
            &&& b == (AppView {
                tab: Tab::Status,
                cursor: 0,
                diff_view: DiffView::Hidden,
                focus: Focus::Files,
                rows: tree::side_rows(a.entries, a.collapsed, Side::Unstaged) + tree::side_rows(
                    a.entries,
                    a.collapsed,
                    Side::Staged,
                ),
                diff_text: b.diff_text,
                diff_scroll: 0,
                ..a
            })
            &&& actions::shows_row(b, a.on_key(key).1)
        }),
{
}

// ---------------------------------------------------------------------------
// Answers

/// Where a cursor is after a list has been replaced: where it was, or at the last item where
/// there are fewer.
pub open spec fn kept_at(before: usize, after: usize, len: nat) -> bool {
    &&& before < len ==> after == before
    &&& before >= len && len > 0 ==> after == len - 1
    &&& len == 0 ==> after == 0
}

/// The log, the stashes and the branches that a job brought replace those that were there, and
/// the cursors stay as far as they can; what a job did not bring stays.
#[verifier::rlimit(40)]
pub proof fn law_lists_replaced(a: AppView, done: OpDoneView)
    ensures
        ({
            let b = a.applied(done).0;
            &&& match done.log {
                Some(c) => {
                    &&& b.log == (LogStateView {
                        commits: c,
                        loaded: true,
                        cursor: b.log.cursor,
                        details_scroll: 0,
                        details_text: if c.len() == 0 {
                            seq![]
                        } else {
                            a.log.details_text
                        },
                        ..a.log
                    })
                    &&& kept_at(a.log.cursor, b.log.cursor, c.len())
                },
                None => b.log == (LogStateView {
                    loaded: a.log.loaded && done.status is None,
                    ..a.log
                }),
            }
            &&& match done.stashes {
                Some(c) => {
                    &&& b.stash == (StashStateView {
                        stashes: c,
                        loaded: true,
                        cursor: b.stash.cursor,
                        details_scroll: 0,
                        details_text: if c.len() == 0 {
                            seq![]
                        } else {
                            a.stash.details_text
                        },
                        ..a.stash
                    })
                    &&& kept_at(a.stash.cursor, b.stash.cursor, c.len())
                },
                None => b.stash == a.stash,
            }
            &&& match done.branches {
                Some(s) => {
                    &&& b.branches == (BranchesStateView {
                        locals: s.locals,
                        remotes: s.remotes,
                        loaded: true,
                        local_cursor: b.branches.local_cursor,
                        remote_cursor: b.branches.remote_cursor,
                        ..a.branches
                    })
                    &&& kept_at(a.branches.local_cursor, b.branches.local_cursor, s.locals.len())
                    &&& kept_at(
                        a.branches.remote_cursor,
                        b.branches.remote_cursor,
                        s.remotes.len(),
                    )
                },
                None => b.branches == (BranchesStateView {
                    loaded: a.branches.loaded && done.status is None,
                    ..a.branches
                }),
            }
        }),
{
    lemma_lists(a, done);
}

proof fn lemma_lists(a: AppView, done: OpDoneView)
    ensures
        ({
            let b = a.took_status(done.status).0;
            let c = b.took_log(done.log).0;
            let d = c.took_stashes(done.stashes).0;
            &&& b.stash == a.stash
            &&& b.log == (LogStateView { loaded: a.log.loaded && done.status is None, ..a.log })
            &&& b.branches == (BranchesStateView {
                loaded: a.branches.loaded && done.status is None,
                ..a.branches
            })
            &&& c == (AppView { log: c.log, ..b })
            &&& d == (AppView { stash: d.stash, ..c })
        }),
{
}

/// What a job told of the working tree changes the files and their rows, the branch, the
/// dialog of a commit and what is beside the files; the view, its focus and what is folded
/// stay.
pub proof fn law_status_only(a: AppView, done: OpDoneView, s: StatusSnapshotView)
    requires
        done.status == Some(s),
    ensures
        ({
            let b = a.applied(done).0;
            &&& b == (AppView {
                entries: b.entries,
                rows: b.rows,
                cursor: b.cursor,
                branch: b.branch,
                upstream: b.upstream,
                diff_text: b.diff_text,
                diff_scroll: 0,
                log: b.log,
                stash: b.stash,
                branches: b.branches,
                modal: b.modal,
                status_line: b.status_line,
                ..a
            })
        }),
{
    lemma_lists(a, done);
}

/// After the files have changed the cursor is on the first row with the path that it was on;
/// where there is none it is where it was, or on the last row; without rows it was nowhere and
/// goes to the first.
#[verifier::rlimit(40)]
pub proof fn law_cursor_after(a: AppView, done: OpDoneView, s: StatusSnapshotView)
    requires
        done.status == Some(s),
        tree::side_rows(s.entries, a.collapsed, Side::Unstaged).len() + tree::side_rows(
            s.entries,
            a.collapsed,
            Side::Staged,
        ).len() <= usize::MAX,
    ensures
        ({
            let b = a.applied(done).0;
            let path = a.rows[a.cursor as int].path;
            let found = exists|k: int| 0 <= k < b.rows.len() && (#[trigger] b.rows[k]).path == path;
            &&& a.cursor >= a.rows.len() ==> b.cursor == 0
            &&& a.cursor < a.rows.len() && found ==> {
                &&& b.cursor < b.rows.len()
                &&& b.rows[b.cursor as int].path == path
                &&& forall|k: int| 0 <= k < b.cursor ==> (#[trigger] b.rows[k]).path != path
            }
            &&& a.cursor < a.rows.len() && !found ==> kept_at(a.cursor, b.cursor, b.rows.len())
        }),
{
    lemma_lists(a, done);
    let b = a.applied(done).0;
    let path = a.rows[a.cursor as int].path;
    lemma_row(b.rows, path);
    if forall|k: int| 0 <= k < b.rows.len() ==> (#[trigger] b.rows[k]).path != path {
        lemma_no_row(b.rows, path);
    }
}

/// What a job brought is looked at: the difference of the file under the cursor, the details
/// of the commit and of the stash under theirs are asked for, in this order.
#[verifier::rlimit(40)]
pub proof fn law_asked_after(a: AppView, done: OpDoneView)
    ensures
        ({
            let b = a.applied(done).0;
            let r = b.rows[b.cursor as int];
            let file = done.status is Some && b.cursor < b.rows.len() && !r.is_dir && r.entry_index
                is Some && r.entry_index->0 < b.entries.len();
            let none = Seq::<JobView>::empty();
            a.applied(done).1 == (if file {
                seq![JobView::Diff { entry: b.entries[r.entry_index->0 as int] }]
            } else {
                none
            }) + (if done.log is Some && done.log->0.len() > 0 {
                seq![JobView::ShowCommit { sha: b.log.commits[b.log.cursor as int].sha }]
            } else {
                none
            }) + (if done.stashes is Some && done.stashes->0.len() > 0 {
                seq![
                    JobView::ShowStash {
                        reference: b.stash.stashes[b.stash.cursor as int].reference,
                    },
                ]
            } else {
                none
            })
        }),
{
    lemma_lists(a, done);
    law_lists_replaced(a, done);
}

/// No other answer changes anything.
pub proof fn law_other_answers(a: AppView, job: JobView, found: Result<AnswerView, Seq<char>>)
    ensures
        found is Err && !(job is FindPushTarget) ==> a.answered(job, found) == a,
        found is Ok && found->Ok_0 is Op ==> a.answered(job, found) == a,
        found is Ok && found->Ok_0 is Status ==> a.answered(job, found) == a,
        found is Ok && found->Ok_0 is Push && !(job is FindPushTarget) ==> a.answered(job, found)
            == a,
{
}

/// A job that is done makes room, and what it brought is taken; where none runs nothing is.
pub proof fn law_done_taken(a: AppView, done: OpDoneView, p: PolledView)
    ensures
        a.pending is None ==> a.polled(p) == (a, Seq::<JobView>::empty()),
        a.pending is Some ==> a.polled(PolledView::Done(Ok(done))) == (AppView {
            pending: None,
            ..a
        }).applied(done),
{
}

/// A report of the working tree is taken like that of a job, but for an open commit, which
/// stays; its warning is shown.
pub proof fn law_report_taken(a: AppView, r: StatusReportView)
    requires
        !(a.modal is Commit),
    ensures
        ({
            let plain = OpDoneView {
                toast: None,
                status: Some(r.snapshot),
                log: None,
                stashes: None,
                branches: None,
            };
            let said = match r.warning {
                Some(w) => AppView {
                    status_line: Some(("LFS annotate failed: "@ + w, a.clock)),
                    ..a
                },
                None => a,
            };
            a.refreshed(r).0 == said.applied(plain).0
        }),
{
}

/// At first there is nothing: no files, no commits, no stashes, no branches, and every list
/// has the keys.
pub proof fn law_blank(clock: u64)
    ensures
        ({
            let b = AppView::blank(clock);
            &&& b.entries.len() == 0 && b.rows.len() == 0
            &&& b.log.commits.len() == 0 && b.log.cursor == 0 && b.log.focus == LogFocus::List
            &&& b.log.details_text.len() == 0 && b.log.details_scroll == 0 && !b.log.loaded
            &&& b.stash.stashes.len() == 0 && b.stash.cursor == 0 && b.stash.focus
                == StashFocus::List
            &&& b.stash.details_text.len() == 0 && b.stash.details_scroll == 0 && !b.stash.loaded
            &&& b.branches.locals.len() == 0 && b.branches.remotes.len() == 0
            &&& b.branches.local_cursor == 0 && b.branches.remote_cursor == 0
            &&& b.branches.focus == BranchFocus::Local && !b.branches.loaded
            &&& b.diff_text.len() == 0 && b.diff_scroll == 0
            &&& b.branch.len() == 0 && b.upstream is None
            &&& b.clock == clock
        }),
{
}

/// A job is put in the background with its label and the time, unless one is there already; a
/// message is put in place of the one before.
pub proof fn law_started(a: AppView, label: Seq<char>, job: JobView)
    ensures
        a.pending is None ==> actions::starts(a, a.started(label, job), label, job),
        a.pending is Some ==> a.started(label, job) == a,
        actions::says(a, a.said(label), label),
        a.pending is Some ==> a.fetching_log() == a && a.fetching_stashes() == a
            && a.fetching_branches() == a,
        a.pending is None ==> {
            &&& actions::starts(a, a.fetching_log(), "fetching log"@, JobView::FetchLog)
            &&& actions::starts(
                a,
                a.fetching_stashes(),
                "fetching stash list"@,
                JobView::FetchStashes,
            )
            &&& actions::starts(
                a,
                a.fetching_branches(),
                "fetching branches"@,
                JobView::FetchBranches,
            )
        },
{
}

/// What is beside the files is made anew for the row under the cursor, from the first line on;
/// while the difference of a file is asked for the former text stays.
pub proof fn law_beside_files(a: AppView)
    ensures
        ({
            let b = a.with_diff().0;
            &&& b == (AppView { diff_text: b.diff_text, diff_scroll: 0, ..a })
            &&& actions::shows_row(b, a.with_diff().1)
            &&& a.with_diff().1 is Some ==> b.diff_text == a.diff_text
        }),
{
}

} // verus!
