//! What each key does, from the state it is pressed in to the call of git that it
//! leads to.

use crate::app::{
    AppView, BranchFocus, BranchesStateView, CommitInputView, ConfirmDialogView, ConfirmKindView,
    DiffView, Focus, Key, KeyCode, LogFocus, LogStateView, ModalView, NewBranchInputView,
    PendingView, PolledView, PushDialogView, StashFocus, StashStateView, Tab,
};
use crate::git::{self, FileEntryView, Stage};
use crate::laws;
use crate::model;
use crate::text;
use crate::tree::{self, RowView, Side};
use crate::work::{
    self, ActionView, AnswerView, JobView, OpDoneView, Plan, PushTargetView, StatusReportView,
    StatusSnapshotView,
};
use vstd::prelude::*;

verus! {

// ---------------------------------------------------------------------------
// Where a key is pressed

/// Whether nothing runs and nothing is asked.
pub open spec fn free(a: AppView) -> bool {
    a.pending is None && a.modal is Nothing
}

/// Whether the list of files has the keys.
pub open spec fn in_files(a: AppView) -> bool {
    free(a) && a.tab == Tab::Status && a.focus == Focus::Files
}

/// Whether the difference has the keys.
pub open spec fn in_diff(a: AppView) -> bool {
    free(a) && a.tab == Tab::Status && a.focus == Focus::Diff
}

/// Whether the list of stashes has the keys.
pub open spec fn in_stashes(a: AppView) -> bool {
    free(a) && a.tab == Tab::Stash && a.stash.focus == StashFocus::List
}

/// Whether the details of a stash have the keys.
pub open spec fn in_stash_details(a: AppView) -> bool {
    free(a) && a.tab == Tab::Stash && a.stash.focus == StashFocus::Details
}

/// Whether the list of commits has the keys.
pub open spec fn in_log(a: AppView) -> bool {
    free(a) && a.tab == Tab::Log && a.log.focus == LogFocus::List
}

/// Whether the details of a commit have the keys.
pub open spec fn in_log_details(a: AppView) -> bool {
    free(a) && a.tab == Tab::Log && a.log.focus == LogFocus::Details
}

/// Whether the branches have the keys.
pub open spec fn in_branches(a: AppView) -> bool {
    free(a) && a.tab == Tab::Branches
}

/// Whether a plan begins with a call of git with these arguments and no input.
pub open spec fn calls(p: Plan, args: Seq<Seq<char>>) -> bool {
    work::first_action(p) == (ActionView::Git { args, input: None })
}

/// Whether the only change of a state is that a job is there with a label, started
/// now.
pub open spec fn starts(a: AppView, b: AppView, label: Seq<char>, job: JobView) -> bool {
    b == (AppView { pending: Some(PendingView { label, started: a.clock, job }), ..a })
}

/// Whether the only change of a state is a message.
pub open spec fn says(a: AppView, b: AppView, message: Seq<char>) -> bool {
    b == (AppView { status_line: Some((message, a.clock)), ..a })
}

/// Whether the only change of a state is a question.
pub open spec fn asks(
    a: AppView,
    b: AppView,
    title: Seq<char>,
    message: Seq<char>,
    kind: ConfirmKindView,
) -> bool {
    b == (AppView { modal: ModalView::Confirm(ConfirmDialogView { title, message, kind }), ..a })
}

// ---------------------------------------------------------------------------
// Cursors

/// Whether a key moves a cursor in a list as it should: a line up or down as far as
/// there is one, to the first or to the last.
pub open spec fn steps(code: KeyCode, before: int, after: int, len: int) -> bool {
    &&& code == KeyCode::Up || code == KeyCode::Char('k') ==> after == if before > 0 {
        before - 1
    } else {
        before
    }
    &&& code == KeyCode::Down || code == KeyCode::Char('j') ==> after == if before + 1 < len {
        before + 1
    } else {
        before
    }
    &&& code == KeyCode::Home && len > 0 ==> after == 0
    &&& code == KeyCode::End && len > 0 ==> after == len - 1
    &&& len == 0 && (code == KeyCode::Home || code == KeyCode::End) ==> after == before
}

/// Whether a key is one that moves a cursor.
pub open spec fn moves(code: KeyCode) -> bool {
    code == KeyCode::Up || code == KeyCode::Char('k') || code == KeyCode::Down || code
        == KeyCode::Char('j') || code == KeyCode::Home || code == KeyCode::End
}

/// Whether what is shown beside the files belongs to the row under the cursor: of a
/// file its difference is asked for, a folder is described by its path and the
/// number of its files, and without rows there is nothing.
pub open spec fn shows_row(b: AppView, ask: Option<JobView>) -> bool {
    let r = b.rows[b.cursor as int];
    if b.cursor >= b.rows.len() {
        ask is None && b.diff_text == Seq::<char>::empty()
    } else if r.is_dir {
        ask is None && b.diff_text == "(folder "@ + r.path + " — "@ + text::decimal(
            r.agg.staged + r.agg.unstaged + r.agg.untracked + r.agg.conflict,
        ) + " changed file(s))"@
    } else {
        r.entry_index is Some && r.entry_index->0 < b.entries.len() ==> ask == Some(
            JobView::Diff { entry: b.entries[r.entry_index->0 as int] },
        )
    }
}

/// A key moves the cursor through the files, and what is beside them follows it from
/// its first line on. Where the cursor stays at the end of the list nothing happens.
#[verifier::rlimit(40)]
pub proof fn law_files_walked(a: AppView, key: Key)
    requires
        in_files(a),
        moves(key.code),
        a.rows.len() <= usize::MAX,
    ensures
        ({
            let b = a.on_key(key).0;
            &&& steps(key.code, a.cursor as int, b.cursor as int, a.rows.len() as int)
            &&& b == (AppView {
                cursor: b.cursor,
                diff_text: b.diff_text,
                diff_scroll: b.diff_scroll,
                ..a
            })
            &&& b.cursor != a.cursor ==> b.diff_scroll == 0 && shows_row(b, a.on_key(key).1)
            &&& b.cursor == a.cursor && (key.code != KeyCode::Home && key.code != KeyCode::End)
                ==> a.on_key(key) == (a, None::<JobView>)
        }),
{
}

/// A key moves the cursor through the stashes, and the details of the stash that it
/// comes to are asked for.
pub proof fn law_stashes_walked(a: AppView, key: Key)
    requires
        in_stashes(a),
        moves(key.code),
        a.stash.stashes.len() <= usize::MAX,
    ensures
        ({
            let b = a.on_key(key).0;
            let n = a.stash.stashes.len() as int;
            &&& steps(key.code, a.stash.cursor as int, b.stash.cursor as int, n)
            &&& b == (AppView {
                stash: StashStateView {
                    cursor: b.stash.cursor,
                    details_scroll: b.stash.details_scroll,
                    details_text: b.stash.details_text,
                    ..a.stash
                },
                ..a
            })
            &&& b.stash.cursor != a.stash.cursor && b.stash.cursor < n ==> {
                &&& b.stash.details_scroll == 0
                &&& a.on_key(key).1 == Some(
                    JobView::ShowStash {
                        reference: a.stash.stashes[b.stash.cursor as int].reference,
                    },
                )
            }
        }),
{
}

/// A key moves the cursor through the log, and the details of the commit that it
/// comes to are asked for.
pub proof fn law_log_walked(a: AppView, key: Key)
    requires
        in_log(a),
        moves(key.code),
        a.log.commits.len() <= usize::MAX,
    ensures
        ({
            let b = a.on_key(key).0;
            let n = a.log.commits.len() as int;
            &&& steps(key.code, a.log.cursor as int, b.log.cursor as int, n)
            &&& b == (AppView {
                log: LogStateView {
                    cursor: b.log.cursor,
                    details_scroll: b.log.details_scroll,
                    details_text: b.log.details_text,
                    ..a.log
                },
                ..a
            })
            &&& b.log.cursor != a.log.cursor && b.log.cursor < n ==> {
                &&& b.log.details_scroll == 0
                &&& a.on_key(key).1 == Some(
                    JobView::ShowCommit { sha: a.log.commits[b.log.cursor as int].sha },
                )
            }
        }),
{
}

/// A key moves the cursor of the list of branches that has the focus, and not that of
/// the other.
pub proof fn law_branches_walked(a: AppView, key: Key)
    requires
        in_branches(a),
        moves(key.code),
        a.branches.locals.len() <= usize::MAX,
        a.branches.remotes.len() <= usize::MAX,
    ensures
        ({
            let b = a.on_key(key).0;
            let x = a.branches;
            let y = b.branches;
            &&& a.on_key(key).1 is None
            &&& b == (AppView {
                branches: BranchesStateView {
                    local_cursor: y.local_cursor,
                    remote_cursor: y.remote_cursor,
                    ..x
                },
                ..a
            })
            &&& x.focus == BranchFocus::Local ==> y.remote_cursor == x.remote_cursor && steps(
                key.code,
                x.local_cursor as int,
                y.local_cursor as int,
                x.locals.len() as int,
            )
            &&& x.focus == BranchFocus::Remote ==> y.local_cursor == x.local_cursor && steps(
                key.code,
                x.remote_cursor as int,
                y.remote_cursor as int,
                x.remotes.len() as int,
            )
        }),
{
}

/// Whether a key scrolls a text as it should: one line up or down, ten at a page, to
/// the first line or to the last. The place is a number of 16 bits.
pub open spec fn scrolls(code: KeyCode, before: int, after: int, s: Seq<char>) -> bool {
    let n = text::lines(s).len() % 65536;
    &&& code == KeyCode::Up || code == KeyCode::Char('k') ==> after == if before > 1 {
        before - 1
    } else {
        0
    }
    &&& code == KeyCode::Down || code == KeyCode::Char('j') ==> after == if before < 65535 {
        before + 1
    } else {
        65535
    }
    &&& code == KeyCode::PageUp ==> after == if before > 10 {
        before - 10
    } else {
        0
    }
    &&& code == KeyCode::PageDown ==> after == if before + 10 < 65535 {
        before + 10
    } else {
        65535
    }
    &&& code == KeyCode::Home ==> after == 0
    &&& code == KeyCode::End ==> after == if n > 0 {
        n - 1
    } else {
        0
    }
}

/// Whether a key is one that scrolls a text.
pub open spec fn rolls(code: KeyCode) -> bool {
    moves(code) || code == KeyCode::PageUp || code == KeyCode::PageDown
}

/// A key scrolls the text that has the keys, and changes nothing else.
pub proof fn law_texts_scrolled(a: AppView, key: Key)
    requires
        rolls(key.code),
    ensures
        in_diff(a) ==> {
            let b = a.on_key(key).0;
            &&& a.on_key(key) == (AppView { diff_scroll: b.diff_scroll, ..a }, None::<JobView>)
            &&& scrolls(key.code, a.diff_scroll as int, b.diff_scroll as int, a.diff_text)
        },
        in_stash_details(a) ==> {
            let b = a.on_key(key).0;
            let stash = StashStateView { details_scroll: b.stash.details_scroll, ..a.stash };
            &&& a.on_key(key) == (AppView { stash, ..a }, None::<JobView>)
            &&& scrolls(
                key.code,
                a.stash.details_scroll as int,
                b.stash.details_scroll as int,
                a.stash.details_text,
            )
        },
        in_log_details(a) ==> {
            let b = a.on_key(key).0;
            let log = LogStateView { details_scroll: b.log.details_scroll, ..a.log };
            &&& a.on_key(key) == (AppView { log, ..a }, None::<JobView>)
            &&& scrolls(
                key.code,
                a.log.details_scroll as int,
                b.log.details_scroll as int,
                a.log.details_text,
            )
        },
{
}

// ---------------------------------------------------------------------------
// Views

/// A number shows a view. What a view lists is fetched when it is first shown; the
/// files are shown from the first on, without the difference. The number of the view
/// that is shown changes nothing.
#[verifier::rlimit(40)]
pub proof fn law_views_shown(a: AppView, key: Key, tab: Tab)
    requires
        free(a),
        match tab {
            Tab::Status => key.code == KeyCode::Char('1'),
            Tab::Stash => key.code == KeyCode::Char('2'),
            Tab::Log => key.code == KeyCode::Char('3'),
            Tab::Branches => key.code == KeyCode::Char('4'),
        },
    ensures
        a.on_key(key).0.tab == tab,
        a.tab == tab ==> a.on_key(key) == (a, None::<JobView>),
        a.tab != tab && tab == Tab::Status ==> {
            let b = a.on_key(key).0;
            &&& b.cursor == 0
            &&& b.diff_view == DiffView::Hidden
            &&& b.focus == Focus::Files
            &&& b.entries == a.entries
            &&& b.collapsed == a.collapsed
            &&& b.pending is None
            &&& b.diff_scroll == 0
            &&& shows_row(b, a.on_key(key).1)
        },
        a.tab != tab && tab != Tab::Status ==> {
            let there = AppView { tab, ..a };
            let loaded = match tab {
                Tab::Stash => a.stash.loaded,
                Tab::Log => a.log.loaded,
                _ => a.branches.loaded,
            };
            let fetch = match tab {
                Tab::Stash => ("fetching stash list"@, JobView::FetchStashes),
                Tab::Log => ("fetching log"@, JobView::FetchLog),
                _ => ("fetching branches"@, JobView::FetchBranches),
            };
            &&& a.on_key(key).1 is None
            &&& loaded ==> a.on_key(key).0 == there
            &&& !loaded ==> starts(there, a.on_key(key).0, fetch.0, fetch.1)
        },
{
}

/// `q` ends the program in every view, and only that; so it does while a job runs,
/// unless a text is being written.
#[verifier::rlimit(40)]
pub proof fn law_quit(a: AppView, key: Key)
    requires
        key.code == KeyCode::Char('q'),
        free(a) || a.pending is Some && !(a.modal is Commit) && !(a.modal is NewBranch),
    ensures
        a.on_key(key) == (AppView { quit: true, ..a }, None::<JobView>),
{
}

proof fn lemma_files_go_on(a: AppView, key: Key)
    requires
        key.code != KeyCode::Char('q'),
    ensures
        a.on_files(key).0.quit == a.quit,
{
    assert(a.gone_right().0.quit == a.quit);
    assert(a.gone_left().0.quit == a.quit);
    assert(a.discarding().quit == a.quit);
    assert(a.restaged().quit == a.quit);
}

proof fn lemma_branches_go_on(a: AppView, key: Key)
    requires
        key.code != KeyCode::Char('q'),
    ensures
        a.on_branches(key).quit == a.quit,
{
    assert(a.deleting_branch(false).quit == a.quit);
    assert(a.deleting_branch(true).quit == a.quit);
    assert(a.checking_out().quit == a.quit);
}

proof fn lemma_lists_go_on(a: AppView, key: Key)
    requires
        key.code != KeyCode::Char('q'),
    ensures
        a.on_diff(key).quit == a.quit,
        a.on_stash_list(key).0.quit == a.quit,
        a.on_stash_details(key).quit == a.quit,
        a.on_log_list(key).0.quit == a.quit,
        a.on_log_details(key).quit == a.quit,
{
}

proof fn lemma_modals_go_on(a: AppView, key: Key)
    ensures
        forall|c: CommitInputView| (#[trigger] a.on_commit(c, key)).0.quit == a.quit,
        forall|d: PushDialogView| (#[trigger] a.on_push(d, key)).quit == a.quit,
        forall|c: ConfirmDialogView| (#[trigger] a.on_confirm(c, key)).quit == a.quit,
        forall|n: NewBranchInputView| (#[trigger] a.on_new_branch(n, key)).quit == a.quit,
{
}

proof fn lemma_switches_go_on(a: AppView, tab: Tab)
    ensures
        a.switched(tab).0.quit == a.quit,
{
}

proof fn lemma_views_go_on(a: AppView, key: Key)
    requires
        key.code != KeyCode::Char('q'),
    ensures
        a.on_view(key).0.quit == a.quit,
{
    lemma_switches_go_on(a, Tab::Status);
    lemma_switches_go_on(a, Tab::Stash);
    lemma_switches_go_on(a, Tab::Log);
    lemma_switches_go_on(a, Tab::Branches);
    lemma_files_go_on(a, key);
    lemma_branches_go_on(a, key);
    lemma_lists_go_on(a, key);
}

/// No other key ends the program.
#[verifier::rlimit(50)]
pub proof fn law_no_other_quit(a: AppView, key: Key)
    requires
        key.code != KeyCode::Char('q'),
    ensures
        a.on_key(key).0.quit == a.quit,
{
    lemma_views_go_on(a, key);
    lemma_modals_go_on(a, key);
}

/// `r` fetches anew what the view lists.
pub proof fn law_refreshed(a: AppView, key: Key)
    requires
        key.code == KeyCode::Char('r'),
    ensures
        free(a) ==> a.on_key(key).1 is None,
        in_files(a) || in_diff(a) ==> starts(
            a,
            a.on_key(key).0,
            "refreshing"@,
            JobView::Refresh,
        ),
        in_stashes(a) || in_stash_details(a) ==> starts(
            a,
            a.on_key(key).0,
            "fetching stash list"@,
            JobView::FetchStashes,
        ),
        in_log(a) || in_log_details(a) ==> starts(
            a,
            a.on_key(key).0,
            "fetching log"@,
            JobView::FetchLog,
        ),
        in_branches(a) ==> starts(
            a,
            a.on_key(key).0,
            "fetching branches"@,
            JobView::FetchBranches,
        ),
{
}

/// The keys that go from a list to the details beside it, and back.
pub proof fn law_details_entered(a: AppView, key: Key)
    ensures
        in_stashes(a) && (key.code == KeyCode::Right || key.code == KeyCode::Char('l') || key.code
            == KeyCode::Tab || key.code == KeyCode::Enter) ==> a.on_key(key) == (
            AppView {
                stash: StashStateView {
                    focus: if a.stash.stashes.len() > 0 {
                        StashFocus::Details
                    } else {
                        StashFocus::List
                    },
                    ..a.stash
                },
                ..a
            },
            None::<JobView>,
        ),
        in_log(a) && (key.code == KeyCode::Right || key.code == KeyCode::Char('l') || key.code
            == KeyCode::Tab || key.code == KeyCode::Enter) ==> a.on_key(key) == (
            AppView {
                log: LogStateView {
                    focus: if a.log.commits.len() > 0 {
                        LogFocus::Details
                    } else {
                        LogFocus::List
                    },
                    ..a.log
                },
                ..a
            },
            None::<JobView>,
        ),
        in_stash_details(a) && (key.code == KeyCode::Esc || key.code == KeyCode::Left || key.code
            == KeyCode::Char('h') || key.code == KeyCode::BackTab || key.code == KeyCode::Tab)
            ==> a.on_key(key) == (
            AppView { stash: StashStateView { focus: StashFocus::List, ..a.stash }, ..a },
            None::<JobView>,
        ),
        in_log_details(a) && (key.code == KeyCode::Esc || key.code == KeyCode::Left || key.code
            == KeyCode::Char('h') || key.code == KeyCode::BackTab || key.code == KeyCode::Tab)
            ==> a.on_key(key) == (
            AppView { log: LogStateView { focus: LogFocus::List, ..a.log }, ..a },
            None::<JobView>,
        ),
{
}

// ---------------------------------------------------------------------------
// Files

/// Enter and Space put what is under the cursor into the index if anything there is
/// changed or untracked, with `git add`; else they take it out, if the index holds
/// any of it.
#[verifier::rlimit(40)]
pub proof fn law_staged_at_cursor(a: AppView, key: Key)
    requires
        in_files(a),
        a.cursor < a.rows.len(),
        key.code == KeyCode::Enter || key.code == KeyCode::Char(' '),
    ensures
        ({
            let r = a.rows[a.cursor as int];
            let b = a.on_key(key).0;
            &&& a.on_key(key).1 is None
            &&& r.agg.unstaged > 0 || r.agg.untracked > 0 ==> {
                &&& starts(a, b, "staging "@ + r.path, JobView::Stage { path: r.path })
                &&& calls(work::plan(b.pending->0.job), seq!["add"@, "-A"@, "--"@, r.path])
            }
            &&& r.agg.unstaged == 0 && r.agg.untracked == 0 && r.agg.staged > 0 ==> starts(
                a,
                b,
                "unstaging "@ + r.path,
                JobView::Unstage { path: r.path },
            )
            &&& r.agg.unstaged == 0 && r.agg.untracked == 0 && r.agg.staged == 0 ==> b == a
        }),
{
}

/// `u` takes what is under the cursor out of the index, if the index holds any of it,
/// and `a` puts everything into it.
pub proof fn law_index_changed(a: AppView, key: Key)
    requires
        in_files(a),
    ensures
        key.code == KeyCode::Char('u') && a.cursor < a.rows.len() ==> {
            let r = a.rows[a.cursor as int];
            let b = a.on_key(key).0;
            &&& a.on_key(key).1 is None
            &&& r.agg.staged > 0 ==> starts(
                a,
                b,
                "unstaging "@ + r.path,
                JobView::Unstage { path: r.path },
            )
            &&& r.agg.staged == 0 ==> b == a
        },
        key.code == KeyCode::Char('a') ==> {
            let b = a.on_key(key).0;
            &&& a.on_key(key).1 is None
            &&& starts(a, b, "staging all"@, JobView::StageAll)
            &&& calls(work::plan(b.pending->0.job), seq!["add"@, "-A"@])
        },
{
}

/// `d` asks before anything is given up: whether the tracked files of a folder shall
/// be restored, whether an untracked file shall be deleted, or whether a changed file
/// shall be restored. The question is about the path under the cursor.
#[verifier::rlimit(40)]
pub proof fn law_discard_asked(a: AppView, key: Key)
    requires
        in_files(a),
        a.cursor < a.rows.len(),
        key.code == KeyCode::Char('d'),
    ensures
        ({
            let r = a.rows[a.cursor as int];
            let b = a.on_key(key).0;
            let changed = r.agg.unstaged > 0;
            &&& a.on_key(key).1 is None
            &&& r.is_dir && (changed || r.agg.staged > 0 || r.agg.untracked > 0) ==> asks(
                a,
                b,
                "Discard changes in folder?"@,
                "Restore tracked files under '"@ + r.path
                    + "' to HEAD/index?\nUntracked files in this folder remain. [y/N]"@,
                ConfirmKindView::Restore { path: r.path, is_dir: true },
            )
            &&& !r.is_dir && r.agg.untracked > 0 ==> asks(
                a,
                b,
                "Delete untracked file?"@,
                "Permanently delete "@ + r.path + " from disk? [y/N]"@,
                ConfirmKindView::DeleteUntracked { path: r.path },
            )
            &&& !r.is_dir && r.agg.untracked == 0 && changed ==> asks(
                a,
                b,
                "Discard changes?"@,
                "Restore "@ + r.path
                    + " from index/HEAD? Working tree changes will be lost. [y/N]"@,
                ConfirmKindView::Restore { path: r.path, is_dir: false },
            )
            &&& !changed && r.agg.untracked == 0 && (!r.is_dir || r.agg.staged == 0) ==> says(
                a,
                b,
                "nothing to discard"@,
            )
        }),
{
}

/// Where there are no rows the keys for what is under the cursor do nothing.
pub proof fn law_nothing_under_cursor(a: AppView, key: Key)
    requires
        in_files(a),
        a.cursor >= a.rows.len(),
        key.code == KeyCode::Enter || key.code == KeyCode::Char(' ') || key.code == KeyCode::Char(
            'u',
        ) || key.code == KeyCode::Char('d') || key.code == KeyCode::Right || key.code
            == KeyCode::Left,
    ensures
        a.on_key(key) == (a, None::<JobView>),
{
}

/// To the right a folder is unfolded, and so are its rows; of a file the difference
/// gets the keys. To the left an unfolded folder is folded; from anything else the
/// cursor goes to the row of the folder around, if that is shown.
#[verifier::rlimit(40)]
#[verifier::spinoff_prover]
pub proof fn law_folded(a: AppView, key: Key)
    requires
        in_files(a),
        a.cursor < a.rows.len(),
    ensures
        key.code == KeyCode::Right || key.code == KeyCode::Char('l') ==> {
            let r = a.rows[a.cursor as int];
            let b = a.on_key(key).0;
            &&& r.is_dir ==> {
                &&& b.collapsed == a.collapsed.remove(r.path)
                &&& b.entries == a.entries
                &&& b.rows == model::both_rows(a.entries, b.collapsed)
                &&& a.cursor < b.rows.len() ==> b.cursor == a.cursor
                &&& shows_row(b, a.on_key(key).1)
                &&& b.pending is None && b.modal is Nothing
            }
            &&& !r.is_dir ==> a.on_key(key) == (
                AppView {
                    focus: Focus::Diff,
                    diff_view: if a.diff_view == DiffView::Hidden {
                        DiffView::Split
                    } else {
                        a.diff_view
                    },
                    ..a
                },
                None::<JobView>,
            )
        },
        key.code == KeyCode::Left || key.code == KeyCode::Char('h') ==> {
            let r = a.rows[a.cursor as int];
            let b = a.on_key(key).0;
            &&& r.is_dir && r.expanded ==> {
                &&& b.collapsed == a.collapsed.insert(r.path)
                &&& b.entries == a.entries
                &&& b.rows == model::both_rows(a.entries, b.collapsed)
                &&& a.cursor < b.rows.len() ==> b.cursor == a.cursor
                &&& shows_row(b, a.on_key(key).1)
                &&& b.pending is None && b.modal is Nothing
            }
            &&& !(r.is_dir && r.expanded) ==> b.collapsed == a.collapsed && b.rows == a.rows
        },
{
}

/// Enough of a path to be that of the folder around it: what stands before its last
/// slash.
pub open spec fn folder_around(folder: Seq<char>, path: Seq<char>) -> bool {
    text::begins(path, folder + "/"@) && !path.skip(folder.len() as int + 1).contains('/')
}

proof fn lemma_before_last(s: Seq<char>, folder: Seq<char>)
    requires
        folder_around(folder, s),
    ensures
        text::before_last(s, '/') == folder,
    decreases s.len(),
{
    reveal_strlit("/");
    let n = folder.len() as int;
    let tail = s.skip(n + 1);
    assert(s.take(n + 1)[n] == '/');
    if s.last() == '/' {
        if tail.len() > 0 {
            assert(tail.last() == '/');
            assert(tail.contains(tail[tail.len() - 1]));
        }
        assert(s.drop_last() =~= s.take(n + 1).take(n));
        assert((folder + "/"@).take(n) =~= folder);
    } else {
        let d = s.drop_last();
        assert(d.take(n + 1) =~= s.take(n + 1));
        assert(d.skip(n + 1) =~= tail.drop_last());
        assert forall|k: int| 0 <= k < tail.drop_last().len() implies tail.drop_last()[k] != '/' by {
            assert(tail.contains(tail[k]));
        }
        lemma_before_last(d, folder);
    }
}

proof fn lemma_row_found(rows: Seq<RowView>, path: Seq<char>, j: int)
    requires
        0 <= j < rows.len(),
        rows[j].path == path,
        forall|k: int| 0 <= k < j ==> (#[trigger] rows[k]).path != path,
    ensures
        model::row_at(rows, path) == j,
    decreases j,
{
    if j > 0 {
        let t = rows.skip(1);
        assert forall|k: int| 0 <= k < j - 1 implies (#[trigger] t[k]).path != path by {
            assert(t[k] == rows[k + 1]);
        }
        assert(rows[0].path != path);
        lemma_row_found(t, path, j - 1);
    }
}

/// From a file, or from a folded folder, the cursor goes left to the first row with
/// the path of the folder around, and what is beside the files follows it.
#[verifier::rlimit(40)]
pub proof fn law_left_to_folder(a: AppView, key: Key, folder: Seq<char>, j: int)
    requires
        in_files(a),
        a.cursor < a.rows.len() <= usize::MAX,
        key.code == KeyCode::Left || key.code == KeyCode::Char('h'),
        !(a.rows[a.cursor as int].is_dir && a.rows[a.cursor as int].expanded),
        folder.len() > 0,
        folder_around(folder, a.rows[a.cursor as int].path),
        0 <= j < a.rows.len(),
        a.rows[j].path == folder,
        forall|k: int| 0 <= k < j ==> (#[trigger] a.rows[k]).path != folder,
    ensures
        a.on_key(key).0.cursor == j,
        a.on_key(key).0 == (AppView {
            cursor: j as usize,
            diff_text: a.on_key(key).0.diff_text,
            diff_scroll: 0,
            ..a
        }),
        shows_row(a.on_key(key).0, a.on_key(key).1),
{
    lemma_before_last(a.rows[a.cursor as int].path, folder);
    lemma_row_found(a.rows, folder, j);
}

/// Tab gives the keys to the difference, and opens it where it is hidden. In the
/// difference Enter changes between the whole screen and half of it, and Escape, Left
/// and Tab go back to the files and hide it.
pub proof fn law_difference_opened(a: AppView, key: Key)
    ensures
        in_files(a) && key.code == KeyCode::Tab && a.rows.len() > 0 ==> a.on_key(key) == (
            AppView {
                focus: Focus::Diff,
                diff_view: if a.diff_view == DiffView::Hidden {
                    DiffView::Split
                } else {
                    a.diff_view
                },
                ..a
            },
            None::<JobView>,
        ),
        in_files(a) && key.code == KeyCode::Tab && a.rows.len() == 0 ==> a.on_key(key) == (
            a,
            None::<JobView>,
        ),
        in_diff(a) && key.code == KeyCode::Enter ==> a.on_key(key) == (
            AppView {
                diff_view: if a.diff_view == DiffView::Full {
                    DiffView::Split
                } else {
                    DiffView::Full
                },
                ..a
            },
            None::<JobView>,
        ),
        in_diff(a) && (key.code == KeyCode::Esc || key.code == KeyCode::Left || key.code
            == KeyCode::Tab || key.code == KeyCode::BackTab) ==> a.on_key(key) == (
            AppView { focus: Focus::Files, diff_view: DiffView::Hidden, ..a },
            None::<JobView>,
        ),
{
}

/// Toggling what is under the cursor folds an expanded folder and unfolds another one;
/// of a file it shows the difference where it is hidden, and else hides it.
pub proof fn law_toggled(a: AppView)
    requires
        a.cursor < a.rows.len(),
    ensures
        ({
            let r = a.rows[a.cursor as int];
            let b = a.toggled().0;
            &&& r.is_dir && r.expanded ==> b.collapsed == a.collapsed.insert(r.path)
            &&& r.is_dir && !r.expanded ==> b.collapsed == a.collapsed.remove(r.path)
            &&& r.is_dir ==> b.rows == model::both_rows(a.entries, b.collapsed) && b.entries
                == a.entries && shows_row(b, a.toggled().1)
            &&& !r.is_dir ==> a.toggled().1 is None && b == (AppView {
                diff_view: if a.diff_view == DiffView::Hidden {
                    DiffView::Split
                } else {
                    DiffView::Hidden
                },
                focus: if a.diff_view == DiffView::Hidden {
                    a.focus
                } else {
                    Focus::Files
                },
                ..a
            })
        }),
{
}

// ---------------------------------------------------------------------------
// Stashes

/// In the list of stashes `a` applies the stash under the cursor, and `p` and `d` ask
/// whether it shall be popped or dropped.
pub proof fn law_stash_keys(a: AppView, key: Key)
    requires
        in_stashes(a),
        a.stash.cursor < a.stash.stashes.len(),
    ensures
        ({
            let s = a.stash.stashes[a.stash.cursor as int].reference;
            let b = a.on_key(key).0;
            &&& key.code == KeyCode::Char('a') ==> {
                &&& starts(a, b, "applying "@ + s, JobView::StashApply { reference: s })
                &&& calls(work::plan(b.pending->0.job), seq!["stash"@, "apply"@, s])
            }
            &&& key.code == KeyCode::Char('p') ==> asks(
                a,
                b,
                "Pop stash?"@,
                "Pop "@ + s + " into working tree? Stash will be removed. [y/N]"@,
                ConfirmKindView::StashPop { reference: s },
            )
            &&& key.code == KeyCode::Char('d') ==> asks(
                a,
                b,
                "Drop stash?"@,
                "Permanently drop "@ + s + "? [y/N]"@,
                ConfirmKindView::StashDrop { reference: s },
            )
            &&& key.code == KeyCode::Char('a') || key.code == KeyCode::Char('p') || key.code
                == KeyCode::Char('d') ==> a.on_key(key).1 is None
        }),
{
}

/// Without stashes those keys do nothing.
pub proof fn law_no_stash_keys(a: AppView, key: Key)
    requires
        in_stashes(a),
        a.stash.cursor >= a.stash.stashes.len(),
        key.code == KeyCode::Char('a') || key.code == KeyCode::Char('p') || key.code
            == KeyCode::Char('d'),
    ensures
        a.on_key(key) == (a, None::<JobView>),
{
}

// ---------------------------------------------------------------------------
// Branches

/// Enter checks out the branch under the cursor of the list that has the focus.
pub proof fn law_checked_out(a: AppView, key: Key)
    requires
        in_branches(a),
        key.code == KeyCode::Enter,
    ensures
        ({
            let x = a.branches;
            let local = x.focus == BranchFocus::Local;
            let there = if local {
                x.local_cursor < x.locals.len()
            } else {
                x.remote_cursor < x.remotes.len()
            };
            let name = if local {
                x.locals[x.local_cursor as int].name
            } else {
                x.remotes[x.remote_cursor as int].name
            };
            let b = a.on_key(key).0;
            &&& a.on_key(key).1 is None
            &&& there ==> {
                &&& starts(a, b, "checking out "@ + name, JobView::Checkout { name })
                &&& calls(work::plan(b.pending->0.job), seq!["checkout"@, name])
            }
            &&& !there ==> b == a
        }),
{
}

/// `d` and `D` ask whether the local branch under the cursor shall be deleted, merged
/// or not with `D`. The current branch, and those of a remote, are not deleted.
pub proof fn law_branch_delete_asked(a: AppView, key: Key)
    requires
        in_branches(a),
        key.code == KeyCode::Char('d') || key.code == KeyCode::Char('D'),
    ensures
        ({
            let x = a.branches;
            let v = x.locals[x.local_cursor as int];
            let b = a.on_key(key).0;
            &&& a.on_key(key).1 is None
            &&& x.focus == BranchFocus::Remote ==> says(a, b, "delete only for local branches"@)
            &&& x.focus == BranchFocus::Local && x.local_cursor >= x.locals.len() ==> b == a
            &&& x.focus == BranchFocus::Local && x.local_cursor < x.locals.len() ==> {
                &&& v.is_head ==> says(a, b, "cannot delete current branch"@)
                &&& !v.is_head && key.code == KeyCode::Char('d') ==> asks(
                    a,
                    b,
                    "Delete branch?"@,
                    "Delete branch '"@ + v.name + "'? [y/N]"@,
                    ConfirmKindView::BranchDelete { name: v.name, force: false },
                )
                &&& !v.is_head && key.code == KeyCode::Char('D') ==> asks(
                    a,
                    b,
                    "Force-delete branch?"@,
                    "Force-delete '"@ + v.name
                        + "' (git branch -D)? Unmerged work will be lost. [y/N]"@,
                    ConfirmKindView::BranchDelete { name: v.name, force: true },
                )
            }
        }),
{
}

/// Tab changes between the lists of branches, and Left and Right go to the local and
/// to the remote ones. `n` asks for the name of a new branch.
pub proof fn law_branch_lists(a: AppView, key: Key)
    requires
        in_branches(a),
    ensures
        ({
            let to = |focus: BranchFocus|
                (
                    AppView { branches: BranchesStateView { focus, ..a.branches }, ..a },
                    None::<JobView>,
                );
            &&& key.code == KeyCode::Left || key.code == KeyCode::Char('h') ==> a.on_key(key) == to(
                BranchFocus::Local,
            )
            &&& key.code == KeyCode::Right || key.code == KeyCode::Char('l') ==> a.on_key(key)
                == to(BranchFocus::Remote)
            &&& key.code == KeyCode::Tab || key.code == KeyCode::BackTab ==> a.on_key(key) == to(
                if a.branches.focus == BranchFocus::Local {
                    BranchFocus::Remote
                } else {
                    BranchFocus::Local
                },
            )
            &&& key.code == KeyCode::Char('n') ==> a.on_key(key) == (
                AppView { modal: ModalView::NewBranch(NewBranchInputView { name: seq![] }), ..a },
                None::<JobView>,
            )
        }),
{
}

/// Whether a text is another without the white space around it.
pub open spec fn core_of(s: Seq<char>, core: Seq<char>) -> bool {
    &&& exists|i: int| #[trigger] text::lone_at(s, core, i)
    &&& core.len() > 0 ==> !text::is_white(core[0]) && !text::is_white(core.last())
}

/// Enter creates a branch with the name that was written, without the white space
/// around it; there has to be something else in it.
pub proof fn law_branch_created(a: AppView, n: NewBranchInputView, key: Key)
    requires
        a.pending is None,
        a.modal == ModalView::NewBranch(n),
        key.code == KeyCode::Enter,
    ensures
        ({
            let b = a.on_key(key).0;
            let blank = forall|k: int| 0 <= k < n.name.len() ==> text::is_white(#[trigger] n.name[k]);
            &&& a.on_key(key).1 is None
            &&& blank ==> says(a, b, "branch name required"@)
            &&& !blank ==> {
                let name = b.pending->0.job->CreateBranch_name;
                &&& starts(
                    AppView { modal: ModalView::Nothing, ..a },
                    b,
                    "creating "@ + name,
                    JobView::CreateBranch { name },
                )
                &&& core_of(n.name, name)
                &&& calls(work::plan(b.pending->0.job), seq!["branch"@, name])
            }
        }),
{
    text::law_trimmed(n.name);
}

/// Escape leaves the name of a branch, and any other key but Enter edits it.
pub proof fn law_branch_named(a: AppView, n: NewBranchInputView, key: Key)
    requires
        a.pending is None,
        a.modal == ModalView::NewBranch(n),
        key.code != KeyCode::Enter,
    ensures
        key.code == KeyCode::Esc ==> a.on_key(key) == (
            AppView { modal: ModalView::Nothing, ..a },
            None::<JobView>,
        ),
        key.code != KeyCode::Esc ==> {
            let b = a.on_key(key).0;
            &&& a.on_key(key).1 is None
            &&& b.modal is NewBranch
            &&& b == (AppView { modal: b.modal, ..a })
            &&& edits(key, n.name, b.modal->NewBranch_0.name)
        },
{
    lemma_edits(n.name, key);
}

/// Whether a key changes a line of input as it should: a letter is put at its end,
/// Backspace takes the last one, with Control the last word, and nothing else changes
/// it.
pub open spec fn edits(key: Key, before: Seq<char>, after: Seq<char>) -> bool {
    &&& key.code matches KeyCode::Char(c) ==> after == if key.ctrl {
        before
    } else {
        before + seq![c]
    }
    &&& key.code == KeyCode::Backspace && !key.ctrl ==> if before.len() == 0 {
        after.len() == 0
    } else {
        after == before.take(before.len() - 1)
    }
    &&& key.code == KeyCode::Backspace && key.ctrl ==> loses_word(before, after)
    &&& key.code != KeyCode::Backspace && !(key.code is Char) ==> after == before
}

/// Whether a text has lost its last word: behind what is left there is a run of letters
/// and then a run of white space, what is left ends with white space or is empty, and
/// there is no word to lose only where the text is white space alone.
pub open spec fn loses_word(before: Seq<char>, after: Seq<char>) -> bool {
    &&& after.len() <= before.len()
    &&& after == before.take(after.len() as int)
    &&& after.len() > 0 ==> text::is_white(after.last())
    &&& exists|m: int| #[trigger] word_between(before, after.len() as int, m)
}

/// Whether there is a word between two places of a text, and white space behind it.
pub open spec fn word_between(s: Seq<char>, i: int, m: int) -> bool {
    &&& 0 <= i <= m <= s.len()
    &&& forall|k: int| i <= k < m ==> !text::is_white(#[trigger] s[k])
    &&& forall|k: int| m <= k < s.len() ==> text::is_white(#[trigger] s[k])
    &&& m == i ==> m == 0
}

proof fn lemma_without_letters(s: Seq<char>)
    ensures
        ({
            let t = model::without_letters(s);
            &&& t.len() <= s.len()
            &&& t == s.take(t.len() as int)
            &&& t.len() > 0 ==> text::is_white(t.last())
            &&& forall|k: int| t.len() <= k < s.len() ==> !text::is_white(#[trigger] s[k])
            &&& s.len() > 0 && !text::is_white(s.last()) ==> t.len() < s.len()
        }),
    decreases s.len(),
{
    let t = model::without_letters(s);
    if s.len() > 0 && !text::is_white(s.last()) {
        let d = s.drop_last();
        lemma_without_letters(d);
        assert(d.take(t.len() as int) =~= s.take(t.len() as int));
        assert forall|k: int| t.len() <= k < s.len() implies !text::is_white(#[trigger] s[k]) by {
            if k < d.len() {
                assert(d[k] == s[k]);
            }
        }
    } else {
        assert(s.take(s.len() as int) =~= s);
    }
}

proof fn lemma_edits(s: Seq<char>, key: Key)
    ensures
        edits(key, s, model::edited(s, key)),
{
    if key.code == KeyCode::Backspace && key.ctrl {
        let u = text::trim_back(s);
        let t = model::without_word(s);
        text::law_trim_back(s);
        lemma_without_letters(u);
        assert(t =~= s.take(t.len() as int));
        let m = u.len() as int;
        assert(forall|k: int| t.len() <= k < m ==> u[k] == #[trigger] s[k]);
        assert(word_between(s, t.len() as int, m));
    } else if key.code == KeyCode::Backspace {
        if s.len() > 0 {
            assert(s.drop_last() =~= s.take(s.len() - 1));
        }
    } else if let KeyCode::Char(c) = key.code {
        assert(s.push(c) =~= s + seq![c]);
    }
}

// ---------------------------------------------------------------------------
// Commits

/// Whether a file belongs to the large-file storage while the index holds its content
/// to be committed.
pub open spec fn raw_blob(e: FileEntryView) -> bool {
    &&& e.lfs_tracked
    &&& e.lfs_pointer_ok == Some(false)
    &&& e.index == Stage::Added || e.index == Stage::Modified || e.index == Stage::Renamed
        || e.index == Stage::Copied || e.index == Stage::TypeChange
}

/// The paths of such files, in their order.
pub open spec fn raw_paths(entries: Seq<FileEntryView>) -> Seq<Seq<char>>
    decreases entries.len(),
{
    if entries.len() == 0 {
        seq![]
    } else if raw_blob(entries.last()) {
        raw_paths(entries.drop_last()).push(entries.last().path)
    } else {
        raw_paths(entries.drop_last())
    }
}

proof fn lemma_raw_paths(entries: Seq<FileEntryView>)
    ensures
        git::kept(entries, model::offender()) == raw_paths(entries),
        (exists|i: int| 0 <= i < entries.len() && raw_blob(#[trigger] entries[i])) <==> raw_paths(
            entries,
        ).len() > 0,
    decreases entries.len(),
{
    if entries.len() > 0 {
        let d = entries.drop_last();
        lemma_raw_paths(d);
        if exists|i: int| 0 <= i < entries.len() && raw_blob(#[trigger] entries[i]) {
            let i = choose|i: int| 0 <= i < entries.len() && raw_blob(#[trigger] entries[i]);
            if i < d.len() {
                assert(d[i] == entries[i]);
            }
        }
        if raw_blob(entries.last()) {
            assert(raw_blob(entries[entries.len() - 1]));
        } else if raw_paths(d).len() > 0 {
            let i = choose|i: int| 0 <= i < d.len() && raw_blob(#[trigger] d[i]);
            assert(entries[i] == d[i]);
        }
    }
}

/// Whether a key hands a commit in.
pub open spec fn hands_in(key: Key) -> bool {
    key.code == KeyCode::Enter || key.code == KeyCode::Char('s') && key.ctrl
}

/// A commit that is handed in needs a subject. Where a file of the large-file storage
/// would be committed with its content it is asked first, and the question lists these
/// files; else git makes the commit, or amends the last one.
#[verifier::rlimit(40)]
pub proof fn law_commit_handed_in(a: AppView, c: CommitInputView, key: Key)
    requires
        a.pending is None,
        a.modal == ModalView::Commit(c),
        hands_in(key),
    ensures
        ({
            let b = a.on_key(key).0;
            let blank = forall|k: int|
                0 <= k < c.subject.len() ==> text::is_white(#[trigger] c.subject[k]);
            let raw = exists|i: int| 0 <= i < a.entries.len() && raw_blob(#[trigger] a.entries[i]);
            &&& a.on_key(key).1 is None
            &&& blank ==> says(a, b, "commit subject required"@)
            &&& !blank && raw ==> asks(
                a,
                b,
                "LFS pointer mismatch"@,
                "Files match LFS pattern but staged as raw blobs:\n  "@ + text::joined(
                    raw_paths(a.entries),
                    "\n  "@,
                ) + "\nCommit anyway? [y/N]"@,
                ConfirmKindView::CommitDespiteLfs { pending: c },
            )
            &&& !blank && !raw ==> {
                &&& starts(
                    a,
                    b,
                    "committing"@,
                    JobView::Commit { subject: c.subject, amend: c.amend },
                )
                &&& c.amend ==> calls(
                    work::plan(b.pending->0.job),
                    seq!["commit"@, "--amend"@, "-m"@, c.subject],
                )
                &&& !c.amend ==> calls(
                    work::plan(b.pending->0.job),
                    seq!["commit"@, "-m"@, c.subject],
                )
            }
        }),
{
    text::law_trimmed(c.subject);
    lemma_raw_paths(a.entries);
    lemma_commit_call(c.subject, c.amend);
}

proof fn lemma_commit_call(subject: Seq<char>, amend: bool)
    ensures
        amend ==> calls(
            work::plan(JobView::Commit { subject, amend }),
            seq!["commit"@, "--amend"@, "-m"@, subject],
        ),
        !amend ==> calls(
            work::plan(JobView::Commit { subject, amend }),
            seq!["commit"@, "-m"@, subject],
        ),
{
    let none = Seq::<char>::empty();
    text::law_trimmed(none);
    assert(text::blank(none));
    let args = git::commit_call(subject, none, amend);
    if amend {
        assert(args =~= seq!["commit"@, "--amend"@, "-m"@, subject]);
    } else {
        assert(args =~= seq!["commit"@, "-m"@, subject]);
    }
}

/// While a file of the large-file storage would be committed with its content, no key
/// starts a commit but a yes to the question about that.
pub proof fn law_raw_blobs_guarded(a: AppView, key: Key, i: int)
    requires
        a.pending is None,
        0 <= i < a.entries.len(),
        raw_blob(a.entries[i]),
        a.on_key(key).0.pending is Some,
        a.on_key(key).0.pending->0.job is Commit,
    ensures
        a.modal is Confirm,
        a.modal->Confirm_0.kind is CommitDespiteLfs,
        key.code == KeyCode::Char('y') || key.code == KeyCode::Char('Y'),
{
    lemma_raw_paths(a.entries);
    laws::law_commits_guarded(a, key);
    laws::law_commits_meant(a, key);
}

/// `c` opens a commit without a subject that amends nothing. Escape leaves it, and
/// Control and `a` choose whether the last commit is amended; its subject is asked for
/// where none is written. The other keys edit the subject.
pub proof fn law_commit_written(a: AppView, key: Key)
    ensures
        in_files(a) && key.code == KeyCode::Char('c') ==> a.on_key(key) == (
            AppView {
                modal: ModalView::Commit(CommitInputView { subject: seq![], amend: false }),
                ..a
            },
            None::<JobView>,
        ),
        a.pending is None && a.modal is Commit && !hands_in(key) ==> {
            let c = a.modal->Commit_0;
            let b = a.on_key(key).0;
            let amends = key.code == KeyCode::Char('a') && key.ctrl;
            &&& key.code == KeyCode::Esc ==> a.on_key(key) == (
                AppView { modal: ModalView::Nothing, ..a },
                None::<JobView>,
            )
            &&& amends ==> {
                &&& b == (AppView {
                    modal: ModalView::Commit(CommitInputView { amend: !c.amend, ..c }),
                    ..a
                })
                &&& a.on_key(key).1 == if !c.amend && c.subject.len() == 0 {
                    Some(JobView::LastSubject)
                } else {
                    None
                }
            }
            &&& key.code != KeyCode::Esc && !amends ==> {
                &&& a.on_key(key).1 is None
                &&& b.modal is Commit
                &&& b == (AppView { modal: b.modal, ..a })
                &&& b.modal->Commit_0.amend == c.amend
                &&& edits(key, c.subject, b.modal->Commit_0.subject)
            }
        },
{
    if a.modal is Commit {
        lemma_edits(a.modal->Commit_0.subject, key);
    }
}

// ---------------------------------------------------------------------------
// Questions

/// Whether a list holds the paths of the tracked files below a folder that changed in
/// the working tree, and nothing else.
pub open spec fn restores(entries: Seq<FileEntryView>, folder: Seq<char>, list: Seq<Seq<char>>) -> bool {
    forall|path: Seq<char>| #[trigger]
        list.contains(path) <==> exists|i: int|
            0 <= i < entries.len() && (#[trigger] entries[i]).path == path && text::begins(
                path,
                folder + "/"@,
            ) && entries[i].index != Stage::Untracked && entries[i].worktree != Stage::Unmodified
}

proof fn lemma_restores(entries: Seq<FileEntryView>, folder: Seq<char>)
    ensures
        restores(entries, folder, git::kept(entries, model::to_restore(folder))),
    decreases entries.len(),
{
    let list = git::kept(entries, model::to_restore(folder));
    if entries.len() > 0 {
        let d = entries.drop_last();
        let before = git::kept(d, model::to_restore(folder));
        lemma_restores(d, folder);
        assert forall|path: Seq<char>| #[trigger] list.contains(path) <==> exists|i: int|
            0 <= i < entries.len() && (#[trigger] entries[i]).path == path && text::begins(
                path,
                folder + "/"@,
            ) && entries[i].index != Stage::Untracked && entries[i].worktree
                != Stage::Unmodified by {
            if list.contains(path) {
                let k = choose|k: int| 0 <= k < list.len() && list[k] == path;
                if k < before.len() {
                    assert(before[k] == path);
                    assert(before.contains(path));
                    let i = choose|i: int|
                        0 <= i < d.len() && (#[trigger] d[i]).path == path && text::begins(
                            path,
                            folder + "/"@,
                        ) && d[i].index != Stage::Untracked && d[i].worktree != Stage::Unmodified;
                    assert(entries[i] == d[i]);
                } else {
                    assert(entries[entries.len() - 1].path == path);
                }
            }
            if exists|i: int|
                0 <= i < entries.len() && (#[trigger] entries[i]).path == path && text::begins(
                    path,
                    folder + "/"@,
                ) && entries[i].index != Stage::Untracked && entries[i].worktree
                    != Stage::Unmodified {
                let i = choose|i: int|
                    0 <= i < entries.len() && (#[trigger] entries[i]).path == path && text::begins(
                        path,
                        folder + "/"@,
                    ) && entries[i].index != Stage::Untracked && entries[i].worktree
                        != Stage::Unmodified;
                if i < d.len() {
                    assert(d[i] == entries[i]);
                    assert(before.contains(path));
                    let k = choose|k: int| 0 <= k < before.len() && before[k] == path;
                    assert(list[k] == path);
                } else {
                    assert(list[before.len() as int] == path);
                }
            }
        }
    }
}

/// A yes to a question does what was asked, with the path, the stash or the branch of
/// the question, and closes it.
#[verifier::rlimit(40)]
pub proof fn law_yes(a: AppView, c: ConfirmDialogView, key: Key)
    requires
        a.pending is None,
        a.modal == ModalView::Confirm(c),
        key.code == KeyCode::Char('y') || key.code == KeyCode::Char('Y'),
    ensures
        a.on_key(key).1 is None,
        ({
            let b = a.on_key(key).0;
            let free = AppView { modal: ModalView::Nothing, ..a };
            let p = work::plan(b.pending->0.job);
            match c.kind {
                ConfirmKindView::Restore { path, is_dir: false } => {
                    &&& starts(free, b, "restoring "@ + path, JobView::Restore { path })
                    &&& calls(p, seq!["restore"@, "--"@, path])
                },
                ConfirmKindView::Restore { path, is_dir: true } => {
                    let list = b.pending->0.job->RestoreFolder_restore;
                    &&& starts(
                        free,
                        b,
                        "restoring "@ + path,
                        JobView::RestoreFolder { path, restore: list },
                    )
                    &&& restores(a.entries, path, list)
                },
                ConfirmKindView::DeleteUntracked { path } => {
                    &&& starts(free, b, "deleting "@ + path, JobView::DeleteUntracked { path })
                    &&& calls(p, seq!["rev-parse"@, "--show-toplevel"@])
                },
                ConfirmKindView::CommitDespiteLfs { pending } => starts(
                    AppView { modal: ModalView::Commit(pending), ..a },
                    b,
                    "committing"@,
                    JobView::Commit { subject: pending.subject, amend: pending.amend },
                ),
                ConfirmKindView::StashPop { reference } => {
                    &&& starts(free, b, "popping "@ + reference, JobView::StashPop { reference })
                    &&& calls(p, seq!["stash"@, "pop"@, reference])
                },
                ConfirmKindView::StashDrop { reference } => {
                    &&& starts(free, b, "dropping "@ + reference, JobView::StashDrop { reference })
                    &&& calls(p, seq!["stash"@, "drop"@, reference])
                },
                ConfirmKindView::BranchDelete { name, force } => {
                    &&& starts(free, b, "deleting "@ + name, JobView::DeleteBranch { name, force })
                    &&& force ==> calls(p, seq!["branch"@, "-D"@, name])
                    &&& !force ==> calls(p, seq!["branch"@, "-d"@, name])
                },
            }
        }),
{
    if let ConfirmKindView::Restore { path, is_dir } = c.kind {
        lemma_restores(a.entries, path);
    }
}

/// A no to a question closes it, and changes nothing else; no other key does anything.
pub proof fn law_no(a: AppView, c: ConfirmDialogView, key: Key)
    requires
        a.pending is None,
        a.modal == ModalView::Confirm(c),
        key.code != KeyCode::Char('y') && key.code != KeyCode::Char('Y'),
    ensures
        key.code == KeyCode::Esc || key.code == KeyCode::Char('n') || key.code == KeyCode::Char('N')
            ==> a.on_key(key) == (AppView { modal: ModalView::Nothing, ..a }, None::<JobView>),
        !(key.code == KeyCode::Esc || key.code == KeyCode::Char('n') || key.code == KeyCode::Char(
            'N',
        )) ==> a.on_key(key) == (a, None::<JobView>),
{
}

// ---------------------------------------------------------------------------
// Pushes

/// `P` asks where the branch can be pushed to.
pub proof fn law_push_asked(a: AppView, key: Key)
    requires
        in_files(a),
        key.code == KeyCode::Char('P'),
    ensures
        a.on_key(key) == (a, Some(JobView::FindPushTarget)),
        calls(work::plan(JobView::FindPushTarget), seq!["symbolic-ref"@, "--short"@, "HEAD"@]),
{
}

/// Whether a remote is the one that an upstream names: what stands before its first
/// slash.
pub open spec fn remote_of(upstream: Seq<char>, remote: Seq<char>) -> bool {
    &&& !remote.contains('/')
    &&& upstream == remote || text::begins(upstream, remote + "/"@)
}

/// A branch with an upstream is pushed to the remote of that, without a question. Else
/// `origin` is proposed where there is one, and the remotes are shown to pick from
/// where there is not; nothing can be done without a branch or without remotes.
pub proof fn law_push_target(a: AppView, found: Result<AnswerView, Seq<char>>)
    requires
        a.pending is None,
    ensures
        ({
            let b = a.answered(JobView::FindPushTarget, found);
            match found {
                Err(message) => says(a, b, "error: "@ + message),
                Ok(AnswerView::Push(PushTargetView::NoBranch { message })) => says(
                    a,
                    b,
                    "no branch: "@ + message,
                ),
                Ok(AnswerView::Push(PushTargetView::Upstream { upstream, branch })) => {
                    let remote = b.pending->0.job->Push_remote;
                    &&& remote_of(upstream, remote)
                    &&& starts(
                        AppView { modal: ModalView::Nothing, ..a },
                        b,
                        "pushing "@ + branch + " → "@ + remote,
                        JobView::Push { remote, branch, set_upstream: false },
                    )
                    &&& calls(work::plan(b.pending->0.job), seq!["push"@, remote, branch])
                },
                Ok(AnswerView::Push(PushTargetView::Remotes { remotes, branch })) => {
                    let origin = exists|i: int|
                        0 <= i < remotes.len() && #[trigger] remotes[i] == "origin"@;
                    &&& remotes.len() == 0 ==> says(a, b, "no remotes configured"@)
                    &&& origin ==> b == (AppView {
                        modal: ModalView::Push(
                            PushDialogView::Confirm { remote: "origin"@, branch },
                        ),
                        ..a
                    })
                    &&& remotes.len() > 0 && !origin ==> b == (AppView {
                        modal: ModalView::Push(
                            PushDialogView::Pick { remotes, cursor: 0, branch },
                        ),
                        ..a
                    })
                },
                _ => b == a,
            }
        }),
{
    if let Ok(AnswerView::Push(PushTargetView::Upstream { upstream, branch })) = found {
        text::law_first_part(upstream, '/');
        reveal_strlit("/");
        let remote = text::parts(upstream, '/')[0];
        if upstream != remote {
            assert(remote.push('/') =~= remote + "/"@);
        }
    }
}

/// A yes, or Enter, pushes the branch that is shown to the remote that is shown and
/// makes it the upstream. A no closes the dialog.
pub proof fn law_push_confirmed(a: AppView, remote: Seq<char>, branch: Seq<char>, key: Key)
    requires
        a.pending is None,
        a.modal == ModalView::Push(PushDialogView::Confirm { remote, branch }),
    ensures
        a.on_key(key).1 is None,
        ({
            let b = a.on_key(key).0;
            let yes = key.code == KeyCode::Char('y') || key.code == KeyCode::Char('Y') || key.code
                == KeyCode::Enter;
            let no = key.code == KeyCode::Esc || key.code == KeyCode::Char('n') || key.code
                == KeyCode::Char('N');
            let free = AppView { modal: ModalView::Nothing, ..a };
            &&& yes ==> {
                &&& starts(
                    free,
                    b,
                    "pushing "@ + branch + " → "@ + remote,
                    JobView::Push { remote, branch, set_upstream: true },
                )
                &&& calls(work::plan(b.pending->0.job), seq!["push"@, "-u"@, remote, branch])
            }
            &&& no ==> b == free
            &&& !yes && !no ==> b == a
        }),
{
}

/// A remote is picked with the cursor: Enter proposes the one under it.
pub proof fn law_push_picked(
    a: AppView,
    remotes: Seq<Seq<char>>,
    cursor: usize,
    branch: Seq<char>,
    key: Key,
)
    requires
        a.pending is None,
        a.modal == ModalView::Push(PushDialogView::Pick { remotes, cursor, branch }),
        cursor < remotes.len() <= usize::MAX,
    ensures
        a.on_key(key).1 is None,
        ({
            let b = a.on_key(key).0;
            let up = key.code == KeyCode::Up || key.code == KeyCode::Char('k');
            let down = key.code == KeyCode::Down || key.code == KeyCode::Char('j');
            &&& b == (AppView { modal: b.modal, ..a })
            &&& key.code == KeyCode::Enter ==> b.modal == ModalView::Push(
                PushDialogView::Confirm { remote: remotes[cursor as int], branch },
            )
            &&& key.code == KeyCode::Esc ==> b.modal is Nothing
            &&& up || down ==> {
                let at = b.modal->Push_0->Pick_cursor;
                &&& b.modal == ModalView::Push(PushDialogView::Pick { remotes, cursor: at, branch })
                &&& steps(key.code, cursor as int, at as int, remotes.len() as int)
            }
            &&& !up && !down && key.code != KeyCode::Enter && key.code != KeyCode::Esc ==> b == a
        }),
{
}

// ---------------------------------------------------------------------------
// Answers

/// A text that was asked for is shown where it was asked for, and changes nothing else.
pub proof fn law_texts_answered(a: AppView, job: JobView, t: Seq<char>)
    ensures
        ({
            let b = a.answered(job, Ok(AnswerView::Text(t)));
            match job {
                JobView::Diff { .. } => b == (AppView { diff_text: t, ..a }),
                JobView::ShowCommit { .. } => b == (AppView {
                    log: LogStateView { details_text: t, ..a.log },
                    ..a
                }),
                JobView::ShowStash { .. } => b == (AppView {
                    stash: StashStateView { details_text: t, ..a.stash },
                    ..a
                }),
                JobView::LastSubject => if a.modal is Commit {
                    b == (AppView {
                        modal: ModalView::Commit(
                            CommitInputView { subject: t, ..a.modal->Commit_0 },
                        ),
                        ..a
                    })
                } else {
                    b == a
                },
                _ => b == a,
            }
        }),
{
}

/// What a job told of the working tree replaces what was known: the files and their
/// rows of both sides, the branch and its upstream. The log and the branches are out of
/// date from then on, unless the job brought them. A commit that was being written is
/// done; any other dialog stays. The message of the job is shown.
#[verifier::rlimit(40)]
pub proof fn law_status_taken(a: AppView, done: OpDoneView, s: StatusSnapshotView)
    requires
        done.status == Some(s),
    ensures
        ({
            let b = a.applied(done).0;
            &&& b.entries == s.entries
            &&& b.branch == s.branch
            &&& b.upstream == s.upstream
            &&& b.collapsed == a.collapsed
            &&& b.rows == tree::side_rows(s.entries, a.collapsed, Side::Unstaged)
                + tree::side_rows(s.entries, a.collapsed, Side::Staged)
            &&& b.log.loaded == done.log is Some
            &&& b.branches.loaded == done.branches is Some
            &&& b.modal == if a.modal is Commit {
                ModalView::Nothing
            } else {
                a.modal
            }
            &&& b.status_line == match done.toast {
                Some(t) => Some((t, a.clock)),
                None => a.status_line,
            }
            &&& b.pending == a.pending
            &&& b.quit == a.quit
            &&& b.tab == a.tab
            &&& b.focus == a.focus
        }),
{
    let b = a.took_status(done.status).0;
    let c = b.took_log(done.log).0;
    let d = c.took_stashes(done.stashes).0;
    assert(c == (AppView { log: c.log, ..b }));
    assert(d == (AppView { stash: d.stash, ..c }));
    assert(done.log is None ==> c.log == b.log);
    assert(b.log.loaded == false && b.branches.loaded == false);
}

/// A job that told nothing of the working tree leaves the files, the branch and the
/// dialog as they are.
pub proof fn law_status_left(a: AppView, done: OpDoneView)
    requires
        done.status is None,
    ensures
        ({
            let b = a.applied(done).0;
            &&& b == (AppView {
                log: b.log,
                stash: b.stash,
                branches: b.branches,
                status_line: b.status_line,
                ..a
            })
            &&& b.status_line == match done.toast {
                Some(t) => Some((t, a.clock)),
                None => a.status_line,
            }
        }),
{
}

/// A job that failed says why, and one whose worker is gone says that; either makes
/// room for the next and changes nothing else.
pub proof fn law_failures_told(a: AppView, message: Seq<char>)
    requires
        a.pending is Some,
    ensures
        a.polled(PolledView::Done(Err(message))) == (
            AppView {
                pending: None,
                status_line: Some(("error: "@ + message, a.clock)),
                ..a
            },
            Seq::<JobView>::empty(),
        ),
        a.polled(PolledView::Disconnected) == (
            AppView {
                pending: None,
                status_line: Some(("worker disconnected"@, a.clock)),
                ..a
            },
            Seq::<JobView>::empty(),
        ),
{
}

/// The program starts with the files, from the first row on, with nothing folded and
/// nothing running.
pub proof fn law_opened(clock: u64, report: StatusReportView)
    ensures
        ({
            let b = AppView::blank(clock).refreshed(report).0;
            let s = report.snapshot;
            &&& b.tab == Tab::Status
            &&& b.focus == Focus::Files
            &&& b.diff_view == DiffView::Hidden
            &&& b.cursor == 0
            &&& b.collapsed == Set::<Seq<char>>::empty()
            &&& b.entries == s.entries
            &&& b.branch == s.branch
            &&& b.upstream == s.upstream
            &&& b.rows == tree::side_rows(s.entries, Set::empty(), Side::Unstaged)
                + tree::side_rows(s.entries, Set::empty(), Side::Staged)
            &&& b.modal is Nothing
            &&& b.pending is None
            &&& !b.quit
            &&& !b.log.loaded && !b.stash.loaded && !b.branches.loaded
            &&& b.status_line == match report.warning {
                Some(w) => Some(("LFS annotate failed: "@ + w, clock)),
                None => None,
            }
            &&& shows_row(b, AppView::blank(clock).refreshed(report).1)
        }),
{
}

} // verus!
