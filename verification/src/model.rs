//! What happens to the state: what each key means, and what becomes of answers.

use crate::app::{
    AppView, BranchFocus, BranchesStateView, CommitInputView, ConfirmDialogView,
    ConfirmKindView, DiffView, Focus, Key, KeyCode, LogFocus, LogStateView, ModalView,
    NewBranchInputView, PendingView, PolledView, PushDialogView, StashFocus, StashStateView,
    Tab,
};
use crate::git::{self, Commit, CommitView, FileEntryView, Stage, Stash, StashView};
use crate::text;
use crate::tree::{self, RowView, Side};
use crate::work::{
    AnswerView, BranchesSnapshotView, JobView, OpDoneView, PushTargetView, StatusReportView,
    StatusSnapshotView,
};
use vstd::prelude::*;

verus! {

// ---------------------------------------------------------------------------
// What the keys mean

/// A step of a cursor through a list.
#[derive(Debug, Clone, Copy, PartialEq, Eq, Structural)]
pub enum Move {
    Back,
    On,
    First,
    Last,
}

/// The step that a key asks for.
pub open spec fn move_of(code: KeyCode) -> Option<Move> {
    match code {
        KeyCode::Up | KeyCode::Char('k') => Some(Move::Back),
        KeyCode::Down | KeyCode::Char('j') => Some(Move::On),
        KeyCode::Home => Some(Move::First),
        KeyCode::End => Some(Move::Last),
        _ => None,
    }
}

/// Where a step leads in a list of `len` items, if it leads anywhere.
pub open spec fn moved(cursor: usize, len: nat, m: Move) -> Option<usize> {
    match m {
        Move::Back => if cursor > 0 {
            Some((cursor - 1) as usize)
        } else {
            None
        },
        Move::On => if cursor + 1 < len {
            Some((cursor + 1) as usize)
        } else {
            None
        },
        Move::First => if len > 0 {
            Some(0)
        } else {
            None
        },
        Move::Last => if len > 0 {
            Some((len - 1) as usize)
        } else {
            None
        },
    }
}

/// Whether a cursor stands on an item; in an empty list it is at the start.
pub open spec fn in_list(cursor: usize, len: nat) -> bool {
    cursor < len || cursor == 0
}

/// The cursor, or the last item where it is beyond that.
pub open spec fn clamped(cursor: usize, len: nat) -> usize {
    if cursor < len {
        cursor
    } else if len > 0 {
        (len - 1) as usize
    } else {
        0
    }
}

/// `n` lines up, as far as there are any.
pub open spec fn up(scroll: u16, n: u16) -> u16 {
    if scroll >= n {
        (scroll - n) as u16
    } else {
        0
    }
}

/// `n` lines down, as far as the number goes.
pub open spec fn down(scroll: u16, n: u16) -> u16 {
    if scroll + n <= u16::MAX {
        (scroll + n) as u16
    } else {
        u16::MAX
    }
}

/// The place of the last line. The number of lines is taken modulo 65536.
pub open spec fn last_line(s: Seq<char>) -> u16 {
    up((text::lines(s).len() % 65536) as u16, 1)
}

/// Where a key scrolls a text, if it scrolls.
pub open spec fn scrolled(scroll: u16, s: Seq<char>, code: KeyCode) -> Option<u16> {
    match code {
        KeyCode::Up | KeyCode::Char('k') => Some(up(scroll, 1)),
        KeyCode::Down | KeyCode::Char('j') => Some(down(scroll, 1)),
        KeyCode::PageUp => Some(up(scroll, 10)),
        KeyCode::PageDown => Some(down(scroll, 10)),
        KeyCode::Home => Some(0),
        KeyCode::End => Some(last_line(s)),
        _ => None,
    }
}

/// A text without the word at its end.
pub open spec fn without_letters(s: Seq<char>) -> Seq<char>
    decreases s.len(),
{
    if s.len() > 0 && !text::is_white(s.last()) {
        without_letters(s.drop_last())
    } else {
        s
    }
}

/// A text without its last word and the white space behind that.
pub open spec fn without_word(s: Seq<char>) -> Seq<char> {
    without_letters(text::trim_back(s))
}

/// A line of input after a key.
pub open spec fn edited(s: Seq<char>, key: Key) -> Seq<char> {
    match key.code {
        KeyCode::Backspace => if key.ctrl {
            without_word(s)
        } else if s.len() > 0 {
            s.drop_last()
        } else {
            s
        },
        KeyCode::Char(c) => if key.ctrl {
            s
        } else {
            s.push(c)
        },
        _ => s,
    }
}

/// The folder that a path lies in.
pub open spec fn parent(path: Seq<char>) -> Seq<char> {
    text::before_last(path, '/')
}

/// The place of the first row with a path, or the number of rows.
pub open spec fn row_at(rows: Seq<RowView>, path: Seq<char>) -> nat
    decreases rows.len(),
{
    if rows.len() == 0 || rows[0].path == path {
        0
    } else {
        1 + row_at(rows.skip(1), path)
    }
}

/// The rows of both sides, the unstaged ones first.
pub open spec fn both_rows(
    entries: Seq<FileEntryView>,
    collapsed: Set<Seq<char>>,
) -> Seq<RowView> {
    tree::side_rows(entries, collapsed, Side::Unstaged) + tree::side_rows(
        entries,
        collapsed,
        Side::Staged,
    )
}

/// What is shown of a folder in place of a difference.
pub open spec fn folder_text(r: RowView) -> Seq<char> {
    "(folder "@ + r.path + " — "@ + text::decimal(r.agg.files()) + " changed file(s))"@
}

/// Whether a change of a file is in the index to be committed.
pub open spec fn in_index(e: FileEntryView) -> bool {
    e.index == Stage::Added || e.index == Stage::Modified || e.index == Stage::Deleted || e.index
        == Stage::Renamed || e.index == Stage::Copied || e.index == Stage::TypeChange
}

/// The number of files to be committed that are of the large-file storage, or
/// that are not.
pub open spec fn staged_number(entries: Seq<FileEntryView>, lfs: bool) -> nat
    decreases entries.len(),
{
    if entries.len() == 0 {
        0
    } else {
        staged_number(entries.drop_last(), lfs) + if in_index(entries.last())
            && entries.last().lfs_tracked == lfs {
            1nat
        } else {
            0nat
        }
    }
}

/// The path of a file that belongs to the large-file storage but whose content
/// is about to be committed.
pub open spec fn offender() -> spec_fn(FileEntryView) -> Option<Seq<char>> {
    |e: FileEntryView|
        if in_index(e) && e.index != Stage::Deleted && e.lfs_tracked && e.lfs_pointer_ok == Some(
            false,
        ) {
            Some(e.path)
        } else {
            None
        }
}

/// The path of a file below a folder that is tracked and changed in the working
/// tree.
pub open spec fn to_restore(folder: Seq<char>) -> spec_fn(FileEntryView) -> Option<Seq<char>> {
    |e: FileEntryView|
        if text::begins(e.path, folder + "/"@) && e.index != Stage::Untracked && e.worktree
            != Stage::Unmodified {
            Some(e.path)
        } else {
            None
        }
}

// ---------------------------------------------------------------------------
// What happens to the state

/// A change of the state without a request.
pub open spec fn only(a: AppView) -> (AppView, Option<JobView>) {
    (a, None)
}

impl AppView {
    /// Whether the state is in order: the rows are those of the entries, and every
    /// cursor stands on an item of its list.
    pub open spec fn in_order(self) -> bool {
        &&& self.entries.len() <= u32::MAX
        &&& self.rows == both_rows(self.entries, self.collapsed)
        &&& in_list(self.cursor, self.rows.len())
        &&& in_list(self.log.cursor, self.log.commits.len())
        &&& in_list(self.stash.cursor, self.stash.stashes.len())
        &&& in_list(self.branches.local_cursor, self.branches.locals.len())
        &&& in_list(self.branches.remote_cursor, self.branches.remotes.len())
        &&& match self.modal {
            ModalView::Push(PushDialogView::Pick { remotes, cursor, .. }) => cursor
                < remotes.len(),
            _ => true,
        }
    }

    /// Before anything is known of the repository.
    pub open spec fn blank(clock: u64) -> AppView {
        AppView {
            tab: Tab::Status,
            entries: seq![],
            rows: seq![],
            cursor: 0,
            collapsed: Set::empty(),
            focus: Focus::Files,
            diff_view: DiffView::Hidden,
            diff_text: seq![],
            diff_scroll: 0,
            log: LogStateView::blank(),
            stash: StashStateView::blank(),
            branches: BranchesStateView::blank(),
            modal: ModalView::Nothing,
            status_line: None,
            branch: seq![],
            upstream: None,
            pending: None,
            quit: false,
            clock,
        }
    }

    /// A message is shown.
    pub open spec fn said(self, message: Seq<char>) -> AppView {
        AppView { status_line: Some((message, self.clock)), ..self }
    }

    /// A job is put in the background, unless one is there already.
    pub open spec fn started(self, label: Seq<char>, job: JobView) -> AppView {
        if self.pending is Some {
            self
        } else {
            AppView {
                pending: Some(PendingView { label, started: self.clock, job }),
                ..self
            }
        }
    }

    /// The modal is replaced.
    pub open spec fn with_modal(self, modal: ModalView) -> AppView {
        AppView { modal, ..self }
    }

    /// A question is asked.
    pub open spec fn asked(
        self,
        title: Seq<char>,
        message: Seq<char>,
        kind: ConfirmKindView,
    ) -> AppView {
        self.with_modal(ModalView::Confirm(ConfirmDialogView { title, message, kind }))
    }

    /// The program ends.
    pub open spec fn ended(self) -> AppView {
        AppView { quit: true, ..self }
    }

    /// The row under the cursor.
    pub open spec fn current(self) -> Option<RowView> {
        if self.cursor < self.rows.len() {
            Some(self.rows[self.cursor as int])
        } else {
            None
        }
    }

    /// The path of the row under the cursor.
    pub open spec fn current_path(self) -> Option<Seq<char>> {
        match self.current() {
            Some(r) => Some(r.path),
            None => None,
        }
    }

    /// The rows are made anew.
    pub open spec fn rebuilt(self) -> AppView {
        AppView { rows: both_rows(self.entries, self.collapsed), ..self }
    }

    /// The difference is made anew: for a file it is asked for, and a folder is
    /// described.
    pub open spec fn with_diff(self) -> (AppView, Option<JobView>) {
        let top = AppView { diff_scroll: 0, ..self };
        match self.current() {
            Some(r) => if r.is_dir {
                only(AppView { diff_text: folder_text(r), ..top })
            } else if r.entry_index is Some && r.entry_index->0 < self.entries.len() {
                (top, Some(JobView::Diff { entry: self.entries[r.entry_index->0 as int] }))
            } else {
                only(AppView { diff_text: seq![], ..top })
            },
            None => only(AppView { diff_text: seq![], ..top }),
        }
    }

    /// The cursor in the files moves.
    pub open spec fn at_row(self, cursor: usize) -> (AppView, Option<JobView>) {
        AppView { cursor, ..self }.with_diff()
    }

    /// The set of collapsed folders changes.
    pub open spec fn folded(self, collapsed: Set<Seq<char>>) -> (AppView, Option<JobView>) {
        let after = AppView { collapsed, ..self }.rebuilt();
        after.at_row(clamped(self.cursor, after.rows.len()))
    }

    /// The details of the commit under the cursor are asked for.
    pub open spec fn with_log_details(self) -> (AppView, Option<JobView>) {
        let top = LogStateView { details_scroll: 0, ..self.log };
        if self.log.cursor < self.log.commits.len() {
            (
                AppView { log: top, ..self },
                Some(JobView::ShowCommit { sha: self.log.commits[self.log.cursor as int].sha }),
            )
        } else {
            only(AppView { log: LogStateView { details_text: seq![], ..top }, ..self })
        }
    }

    /// The cursor in the log moves.
    pub open spec fn at_commit(self, cursor: usize) -> (AppView, Option<JobView>) {
        AppView { log: LogStateView { cursor, ..self.log }, ..self }.with_log_details()
    }

    /// The details of the stash under the cursor are asked for.
    pub open spec fn with_stash_details(self) -> (AppView, Option<JobView>) {
        let top = StashStateView { details_scroll: 0, ..self.stash };
        if self.stash.cursor < self.stash.stashes.len() {
            (
                AppView { stash: top, ..self },
                Some(
                    JobView::ShowStash {
                        reference: self.stash.stashes[self.stash.cursor as int].reference,
                    },
                ),
            )
        } else {
            only(AppView { stash: StashStateView { details_text: seq![], ..top }, ..self })
        }
    }

    /// The cursor in the stashes moves.
    pub open spec fn at_stash(self, cursor: usize) -> (AppView, Option<JobView>) {
        AppView { stash: StashStateView { cursor, ..self.stash }, ..self }.with_stash_details()
    }

    /// The log is fetched.
    pub open spec fn fetching_log(self) -> AppView {
        self.started("fetching log"@, JobView::FetchLog)
    }

    /// The stashes are fetched.
    pub open spec fn fetching_stashes(self) -> AppView {
        self.started("fetching stash list"@, JobView::FetchStashes)
    }

    /// The branches are fetched.
    pub open spec fn fetching_branches(self) -> AppView {
        self.started("fetching branches"@, JobView::FetchBranches)
    }

    /// The state of the working tree is gathered anew.
    pub open spec fn refreshing(self) -> AppView {
        self.started("refreshing"@, JobView::Refresh)
    }

    /// Another view is shown; what it needs is fetched.
    pub open spec fn switched(self, tab: Tab) -> (AppView, Option<JobView>) {
        let there = AppView { tab, ..self };
        if self.tab == tab {
            only(self)
        } else {
            match tab {
                Tab::Status => AppView {
                    cursor: 0,
                    diff_view: DiffView::Hidden,
                    focus: Focus::Files,
                    ..there
                }.rebuilt().with_diff(),
                Tab::Stash => only(
                    if self.stash.loaded {
                        there
                    } else {
                        there.fetching_stashes()
                    },
                ),
                Tab::Log => only(
                    if self.log.loaded {
                        there
                    } else {
                        there.fetching_log()
                    },
                ),
                Tab::Branches => only(
                    if self.branches.loaded {
                        there
                    } else {
                        there.fetching_branches()
                    },
                ),
            }
        }
    }
}

// The files

impl AppView {
    /// The difference is shown and gets the focus.
    pub open spec fn diff_opened(self) -> AppView {
        AppView {
            diff_view: if self.diff_view == DiffView::Hidden {
                DiffView::Split
            } else {
                self.diff_view
            },
            focus: Focus::Diff,
            ..self
        }
    }

    /// The difference is hidden, and the files get the focus.
    pub open spec fn diff_closed(self) -> AppView {
        AppView { diff_view: DiffView::Hidden, focus: Focus::Files, ..self }
    }

    /// To the right: a folder is unfolded, and of a file the difference is opened.
    pub open spec fn gone_right(self) -> (AppView, Option<JobView>) {
        match self.current() {
            Some(r) => if r.is_dir {
                self.folded(self.collapsed.remove(r.path))
            } else {
                only(self.diff_opened())
            },
            None => only(self),
        }
    }

    /// To the left: an unfolded folder is folded, else the cursor goes to the
    /// folder around.
    pub open spec fn gone_left(self) -> (AppView, Option<JobView>) {
        match self.current() {
            Some(r) => if r.is_dir && r.expanded {
                self.folded(self.collapsed.insert(r.path))
            } else if parent(r.path).len() > 0 && row_at(self.rows, parent(r.path))
                < self.rows.len() {
                self.at_row(row_at(self.rows, parent(r.path)) as usize)
            } else {
                only(self)
            },
            None => only(self),
        }
    }

    /// A folder is folded or unfolded, and of a file the difference is shown or
    /// hidden.
    pub open spec fn toggled(self) -> (AppView, Option<JobView>) {
        match self.current() {
            Some(r) => if r.is_dir {
                self.folded(
                    if r.expanded {
                        self.collapsed.insert(r.path)
                    } else {
                        self.collapsed.remove(r.path)
                    },
                )
            } else if self.diff_view == DiffView::Hidden {
                only(AppView { diff_view: DiffView::Split, ..self })
            } else {
                only(self.diff_closed())
            },
            None => only(self),
        }
    }

    /// What is under the cursor is taken out of the index.
    pub open spec fn unstaging(self) -> AppView {
        match self.current() {
            Some(r) => if r.agg.staged > 0 {
                self.started("unstaging "@ + r.path, JobView::Unstage { path: r.path })
            } else {
                self
            },
            None => self,
        }
    }

    /// What is under the cursor is put into the index if anything there is not in
    /// it, else it is taken out.
    pub open spec fn restaged(self) -> AppView {
        match self.current() {
            Some(r) => if r.agg.unstaged > 0 || r.agg.untracked > 0 {
                self.started("staging "@ + r.path, JobView::Stage { path: r.path })
            } else {
                self.unstaging()
            },
            None => self,
        }
    }

    /// It is asked whether what is under the cursor shall be given up.
    pub open spec fn discarding(self) -> AppView {
        match self.current() {
            Some(r) => {
                let path = r.path;
                if r.is_dir {
                    if r.agg.unstaged == 0 && r.agg.staged == 0 && r.agg.untracked == 0 {
                        self.said("nothing to discard"@)
                    } else {
                        self.asked(
                            "Discard changes in folder?"@,
                            "Restore tracked files under '"@ + path
                                + "' to HEAD/index?\nUntracked files in this folder remain. [y/N]"@,
                            ConfirmKindView::Restore { path, is_dir: true },
                        )
                    }
                } else if r.agg.untracked > 0 {
                    self.asked(
                        "Delete untracked file?"@,
                        "Permanently delete "@ + path + " from disk? [y/N]"@,
                        ConfirmKindView::DeleteUntracked { path },
                    )
                } else if r.agg.unstaged > 0 {
                    self.asked(
                        "Discard changes?"@,
                        "Restore "@ + path
                            + " from index/HEAD? Working tree changes will be lost. [y/N]"@,
                        ConfirmKindView::Restore { path, is_dir: false },
                    )
                } else {
                    self.said("nothing to discard"@)
                }
            },
            None => self,
        }
    }

    /// A key in the list of files.
    pub open spec fn on_files(self, key: Key) -> (AppView, Option<JobView>) {
        match move_of(key.code) {
            Some(m) => match moved(self.cursor, self.rows.len(), m) {
                Some(c) => self.at_row(c),
                None => only(self),
            },
            None => match key.code {
                KeyCode::Char('q') => only(self.ended()),
                KeyCode::Tab => only(
                    if self.rows.len() > 0 {
                        self.diff_opened()
                    } else {
                        self
                    },
                ),
                KeyCode::Right | KeyCode::Char('l') => self.gone_right(),
                KeyCode::Left | KeyCode::Char('h') => self.gone_left(),
                KeyCode::Enter | KeyCode::Char(' ') => only(self.restaged()),
                KeyCode::Char('a') => only(self.started("staging all"@, JobView::StageAll)),
                KeyCode::Char('u') => only(self.unstaging()),
                KeyCode::Char('d') => only(self.discarding()),
                KeyCode::Char('c') => only(
                    self.with_modal(
                        ModalView::Commit(CommitInputView { subject: seq![], amend: false }),
                    ),
                ),
                KeyCode::Char('P') => (self, Some(JobView::FindPushTarget)),
                KeyCode::Char('r') => only(self.refreshing()),
                _ => only(self),
            },
        }
    }

    /// A key in the difference.
    pub open spec fn on_diff(self, key: Key) -> AppView {
        match scrolled(self.diff_scroll, self.diff_text, key.code) {
            Some(n) => AppView { diff_scroll: n, ..self },
            None => match key.code {
                KeyCode::Char('q') => self.ended(),
                KeyCode::Esc | KeyCode::Left | KeyCode::BackTab | KeyCode::Tab => self.diff_closed(),
                KeyCode::Enter => AppView {
                    diff_view: if self.diff_view == DiffView::Full {
                        DiffView::Split
                    } else {
                        DiffView::Full
                    },
                    ..self
                },
                KeyCode::Char('r') => self.refreshing(),
                _ => self,
            },
        }
    }
}

// The stashes

impl AppView {
    /// The stash under the cursor.
    pub open spec fn current_stash(self) -> Option<StashView> {
        if self.stash.cursor < self.stash.stashes.len() {
            Some(self.stash.stashes[self.stash.cursor as int])
        } else {
            None
        }
    }

    /// The stash under the cursor is applied.
    pub open spec fn applying_stash(self) -> AppView {
        match self.current_stash() {
            Some(s) => self.started(
                "applying "@ + s.reference,
                JobView::StashApply { reference: s.reference },
            ),
            None => self,
        }
    }

    /// It is asked whether the stash under the cursor shall be popped.
    pub open spec fn popping_stash(self) -> AppView {
        match self.current_stash() {
            Some(s) => self.asked(
                "Pop stash?"@,
                "Pop "@ + s.reference + " into working tree? Stash will be removed. [y/N]"@,
                ConfirmKindView::StashPop { reference: s.reference },
            ),
            None => self,
        }
    }

    /// It is asked whether the stash under the cursor shall be dropped.
    pub open spec fn dropping_stash(self) -> AppView {
        match self.current_stash() {
            Some(s) => self.asked(
                "Drop stash?"@,
                "Permanently drop "@ + s.reference + "? [y/N]"@,
                ConfirmKindView::StashDrop { reference: s.reference },
            ),
            None => self,
        }
    }

    /// A key in the list of stashes.
    pub open spec fn on_stash_list(self, key: Key) -> (AppView, Option<JobView>) {
        match move_of(key.code) {
            Some(m) => match moved(self.stash.cursor, self.stash.stashes.len(), m) {
                Some(c) => self.at_stash(c),
                None => only(self),
            },
            None => only(
                match key.code {
                    KeyCode::Char('q') => self.ended(),
                    KeyCode::Right | KeyCode::Char('l') | KeyCode::Tab | KeyCode::Enter => if self.stash.stashes.len()
                        > 0 {
                        AppView {
                            stash: StashStateView { focus: StashFocus::Details, ..self.stash },
                            ..self
                        }
                    } else {
                        self
                    },
                    KeyCode::Char('a') => self.applying_stash(),
                    KeyCode::Char('p') => self.popping_stash(),
                    KeyCode::Char('d') => self.dropping_stash(),
                    KeyCode::Char('r') => self.fetching_stashes(),
                    _ => self,
                },
            ),
        }
    }

    /// A key in the details of a stash.
    pub open spec fn on_stash_details(self, key: Key) -> AppView {
        match scrolled(self.stash.details_scroll, self.stash.details_text, key.code) {
            Some(n) => AppView {
                stash: StashStateView { details_scroll: n, ..self.stash },
                ..self
            },
            None => match key.code {
                KeyCode::Char('q') => self.ended(),
                KeyCode::Esc | KeyCode::Left | KeyCode::Char('h') | KeyCode::BackTab
                | KeyCode::Tab => AppView {
                    stash: StashStateView { focus: StashFocus::List, ..self.stash },
                    ..self
                },
                KeyCode::Char('r') => self.fetching_stashes(),
                _ => self,
            },
        }
    }
}

// The log

impl AppView {
    /// A key in the list of commits.
    pub open spec fn on_log_list(self, key: Key) -> (AppView, Option<JobView>) {
        match move_of(key.code) {
            Some(m) => match moved(self.log.cursor, self.log.commits.len(), m) {
                Some(c) => self.at_commit(c),
                None => only(self),
            },
            None => only(
                match key.code {
                    KeyCode::Char('q') => self.ended(),
                    KeyCode::Right | KeyCode::Char('l') | KeyCode::Tab | KeyCode::Enter => if self.log.commits.len()
                        > 0 {
                        AppView {
                            log: LogStateView { focus: LogFocus::Details, ..self.log },
                            ..self
                        }
                    } else {
                        self
                    },
                    KeyCode::Char('r') => self.fetching_log(),
                    _ => self,
                },
            ),
        }
    }

    /// A key in the details of a commit.
    pub open spec fn on_log_details(self, key: Key) -> AppView {
        match scrolled(self.log.details_scroll, self.log.details_text, key.code) {
            Some(n) => AppView { log: LogStateView { details_scroll: n, ..self.log }, ..self },
            None => match key.code {
                KeyCode::Char('q') => self.ended(),
                KeyCode::Esc | KeyCode::Left | KeyCode::Char('h') | KeyCode::BackTab
                | KeyCode::Tab => AppView {
                    log: LogStateView { focus: LogFocus::List, ..self.log },
                    ..self
                },
                KeyCode::Char('r') => self.fetching_log(),
                _ => self,
            },
        }
    }
}

// The branches

impl AppView {
    /// The cursor of the list of branches that has the focus.
    pub open spec fn branch_cursor(self) -> usize {
        match self.branches.focus {
            BranchFocus::Local => self.branches.local_cursor,
            BranchFocus::Remote => self.branches.remote_cursor,
        }
    }

    /// The length of the list of branches that has the focus.
    pub open spec fn branch_number(self) -> nat {
        match self.branches.focus {
            BranchFocus::Local => self.branches.locals.len(),
            BranchFocus::Remote => self.branches.remotes.len(),
        }
    }

    /// The cursor of the list of branches that has the focus moves.
    pub open spec fn at_branch(self, cursor: usize) -> AppView {
        AppView {
            branches: match self.branches.focus {
                BranchFocus::Local => BranchesStateView { local_cursor: cursor, ..self.branches },
                BranchFocus::Remote => BranchesStateView { remote_cursor: cursor, ..self.branches },
            },
            ..self
        }
    }

    /// The name of the branch under the cursor.
    pub open spec fn current_branch_name(self) -> Option<Seq<char>> {
        let i = self.branch_cursor() as int;
        if i >= self.branch_number() {
            None
        } else {
            match self.branches.focus {
                BranchFocus::Local => Some(self.branches.locals[i].name),
                BranchFocus::Remote => Some(self.branches.remotes[i].name),
            }
        }
    }

    /// Another list of branches gets the focus.
    pub open spec fn with_branch_focus(self, focus: BranchFocus) -> AppView {
        AppView { branches: BranchesStateView { focus, ..self.branches }, ..self }
    }

    /// The branch under the cursor is checked out.
    pub open spec fn checking_out(self) -> AppView {
        match self.current_branch_name() {
            Some(name) => self.started("checking out "@ + name, JobView::Checkout { name }),
            None => self,
        }
    }

    /// It is asked whether the branch under the cursor shall be deleted.
    pub open spec fn deleting_branch(self, force: bool) -> AppView {
        if self.branches.focus != BranchFocus::Local {
            self.said("delete only for local branches"@)
        } else if self.branches.local_cursor >= self.branches.locals.len() {
            self
        } else {
            let b = self.branches.locals[self.branches.local_cursor as int];
            let kind = ConfirmKindView::BranchDelete { name: b.name, force };
            if b.is_head {
                self.said("cannot delete current branch"@)
            } else if force {
                self.asked(
                    "Force-delete branch?"@,
                    "Force-delete '"@ + b.name
                        + "' (git branch -D)? Unmerged work will be lost. [y/N]"@,
                    kind,
                )
            } else {
                self.asked("Delete branch?"@, "Delete branch '"@ + b.name + "'? [y/N]"@, kind)
            }
        }
    }

    /// A key in the branches.
    pub open spec fn on_branches(self, key: Key) -> AppView {
        match move_of(key.code) {
            Some(m) => match moved(self.branch_cursor(), self.branch_number(), m) {
                Some(c) => self.at_branch(c),
                None => self,
            },
            None => match key.code {
                KeyCode::Char('q') => self.ended(),
                KeyCode::Tab | KeyCode::BackTab => self.with_branch_focus(
                    match self.branches.focus {
                        BranchFocus::Local => BranchFocus::Remote,
                        BranchFocus::Remote => BranchFocus::Local,
                    },
                ),
                KeyCode::Left | KeyCode::Char('h') => self.with_branch_focus(BranchFocus::Local),
                KeyCode::Right | KeyCode::Char('l') => self.with_branch_focus(BranchFocus::Remote),
                KeyCode::Enter => self.checking_out(),
                KeyCode::Char('d') => self.deleting_branch(false),
                KeyCode::Char('D') => self.deleting_branch(true),
                KeyCode::Char('n') => self.with_modal(
                    ModalView::NewBranch(NewBranchInputView { name: seq![] }),
                ),
                KeyCode::Char('r') => self.fetching_branches(),
                _ => self,
            },
        }
    }

    /// A key while a branch is being named.
    pub open spec fn on_new_branch(self, n: NewBranchInputView, key: Key) -> AppView {
        match key.code {
            KeyCode::Esc => self.with_modal(ModalView::Nothing),
            KeyCode::Enter => {
                let name = text::trimmed(n.name);
                if name.len() == 0 {
                    self.said("branch name required"@)
                } else {
                    self.with_modal(ModalView::Nothing).started(
                        "creating "@ + name,
                        JobView::CreateBranch { name },
                    )
                }
            },
            _ => self.with_modal(
                ModalView::NewBranch(NewBranchInputView { name: edited(n.name, key) }),
            ),
        }
    }
}

// Commits and pushes

impl AppView {
    /// A commit is made; its dialog stays until that is done.
    pub open spec fn committing(self, c: CommitInputView) -> AppView {
        self.with_modal(ModalView::Commit(c)).started(
            "committing"@,
            JobView::Commit { subject: c.subject, amend: c.amend },
        )
    }

    /// A commit is made if it has a subject; where files of the large-file storage
    /// would be committed as they are, it is asked first.
    pub open spec fn submitted(self, c: CommitInputView) -> AppView {
        let offending = git::kept(self.entries, offender());
        if text::blank(c.subject) {
            self.said("commit subject required"@)
        } else if offending.len() > 0 {
            self.asked(
                "LFS pointer mismatch"@,
                "Files match LFS pattern but staged as raw blobs:\n  "@ + text::joined(
                    offending,
                    "\n  "@,
                ) + "\nCommit anyway? [y/N]"@,
                ConfirmKindView::CommitDespiteLfs { pending: c },
            )
        } else {
            self.committing(c)
        }
    }

    /// A key while a commit is being written.
    pub open spec fn on_commit(self, c: CommitInputView, key: Key) -> (AppView, Option<JobView>) {
        match (key.code, key.ctrl) {
            (KeyCode::Esc, _) => only(self.with_modal(ModalView::Nothing)),
            (KeyCode::Char('a'), true) => (
                self.with_modal(ModalView::Commit(CommitInputView { amend: !c.amend, ..c })),
                if !c.amend && c.subject.len() == 0 {
                    Some(JobView::LastSubject)
                } else {
                    None
                },
            ),
            (KeyCode::Enter, _) | (KeyCode::Char('s'), true) => only(self.submitted(c)),
            _ => only(
                self.with_modal(
                    ModalView::Commit(CommitInputView { subject: edited(c.subject, key), ..c }),
                ),
            ),
        }
    }

    /// A branch is pushed.
    pub open spec fn pushing(
        self,
        remote: Seq<char>,
        branch: Seq<char>,
        set_upstream: bool,
    ) -> AppView {
        self.with_modal(ModalView::Nothing).started(
            "pushing "@ + branch + " → "@ + remote,
            JobView::Push { remote, branch, set_upstream },
        )
    }

    /// It has been found where the branch can be pushed to: a branch with an
    /// upstream is pushed there, and else a remote is proposed or to be picked.
    pub open spec fn push_found(self, found: Result<PushTargetView, Seq<char>>) -> AppView {
        match found {
            Err(message) => self.said("error: "@ + message),
            Ok(PushTargetView::NoBranch { message }) => self.said("no branch: "@ + message),
            Ok(PushTargetView::Upstream { upstream, branch }) => self.pushing(
                text::parts(upstream, '/')[0],
                branch,
                false,
            ),
            Ok(PushTargetView::Remotes { remotes, branch }) => if remotes.len() == 0 {
                self.said("no remotes configured"@)
            } else if remotes.contains("origin"@) {
                self.with_modal(
                    ModalView::Push(PushDialogView::Confirm { remote: "origin"@, branch }),
                )
            } else {
                self.with_modal(
                    ModalView::Push(PushDialogView::Pick { remotes, cursor: 0, branch }),
                )
            },
        }
    }

    /// A key while a push is being prepared.
    pub open spec fn on_push(self, d: PushDialogView, key: Key) -> AppView {
        match d {
            PushDialogView::Confirm { remote, branch } => match key.code {
                KeyCode::Esc | KeyCode::Char('n') | KeyCode::Char('N') => self.with_modal(
                    ModalView::Nothing,
                ),
                KeyCode::Char('y') | KeyCode::Char('Y') | KeyCode::Enter => self.pushing(
                    remote,
                    branch,
                    true,
                ),
                _ => self,
            },
            PushDialogView::Pick { remotes, cursor, branch } => match key.code {
                KeyCode::Esc => self.with_modal(ModalView::Nothing),
                KeyCode::Up | KeyCode::Char('k') => self.with_modal(
                    ModalView::Push(
                        PushDialogView::Pick {
                            remotes,
                            cursor: if cursor > 0 {
                                (cursor - 1) as usize
                            } else {
                                cursor
                            },
                            branch,
                        },
                    ),
                ),
                KeyCode::Down | KeyCode::Char('j') => self.with_modal(
                    ModalView::Push(
                        PushDialogView::Pick {
                            remotes,
                            cursor: if cursor + 1 < remotes.len() {
                                (cursor + 1) as usize
                            } else {
                                cursor
                            },
                            branch,
                        },
                    ),
                ),
                KeyCode::Enter => self.with_modal(
                    ModalView::Push(
                        PushDialogView::Confirm { remote: remotes[cursor as int], branch },
                    ),
                ),
                _ => self,
            },
            PushDialogView::Running => self,
        }
    }
}

// Questions

impl AppView {
    /// A question has been answered with yes.
    pub open spec fn confirmed(self, kind: ConfirmKindView) -> AppView {
        let free = self.with_modal(ModalView::Nothing);
        match kind {
            ConfirmKindView::Restore { path, is_dir } => free.started(
                "restoring "@ + path,
                if is_dir {
                    JobView::RestoreFolder {
                        path,
                        restore: git::kept(self.entries, to_restore(path)),
                    }
                } else {
                    JobView::Restore { path }
                },
            ),
            ConfirmKindView::DeleteUntracked { path } => free.started(
                "deleting "@ + path,
                JobView::DeleteUntracked { path },
            ),
            ConfirmKindView::CommitDespiteLfs { pending } => free.committing(pending),
            ConfirmKindView::StashPop { reference } => free.started(
                "popping "@ + reference,
                JobView::StashPop { reference },
            ),
            ConfirmKindView::StashDrop { reference } => free.started(
                "dropping "@ + reference,
                JobView::StashDrop { reference },
            ),
            ConfirmKindView::BranchDelete { name, force } => free.started(
                "deleting "@ + name,
                JobView::DeleteBranch { name, force },
            ),
        }
    }

    /// A key while a question waits for an answer.
    pub open spec fn on_confirm(self, c: ConfirmDialogView, key: Key) -> AppView {
        match key.code {
            KeyCode::Char('y') | KeyCode::Char('Y') => self.confirmed(c.kind),
            KeyCode::Esc | KeyCode::Char('n') | KeyCode::Char('N') => self.with_modal(
                ModalView::Nothing,
            ),
            _ => self,
        }
    }
}

// Keys

impl AppView {
    /// A key in the view that is shown.
    pub open spec fn on_view(self, key: Key) -> (AppView, Option<JobView>) {
        match (key.code, self.tab) {
            (KeyCode::Char('1'), _) => self.switched(Tab::Status),
            (KeyCode::Char('2'), _) => self.switched(Tab::Stash),
            (KeyCode::Char('3'), _) => self.switched(Tab::Log),
            (KeyCode::Char('4'), _) => self.switched(Tab::Branches),
            (_, Tab::Status) => match self.focus {
                Focus::Files => self.on_files(key),
                Focus::Diff => only(self.on_diff(key)),
            },
            (_, Tab::Stash) => match self.stash.focus {
                StashFocus::List => self.on_stash_list(key),
                StashFocus::Details => only(self.on_stash_details(key)),
            },
            (_, Tab::Log) => match self.log.focus {
                LogFocus::List => self.on_log_list(key),
                LogFocus::Details => only(self.on_log_details(key)),
            },
            (_, Tab::Branches) => only(self.on_branches(key)),
        }
    }

    /// A key. While a job runs in the background a key can only end the program,
    /// and not where a text is being written.
    pub open spec fn on_key(self, key: Key) -> (AppView, Option<JobView>) {
        if self.pending is Some {
            let writing = self.modal is Commit || self.modal is NewBranch;
            only(
                if key.code == KeyCode::Char('q') && !writing {
                    self.ended()
                } else {
                    self
                },
            )
        } else {
            match self.modal {
                ModalView::Nothing => self.on_view(key),
                ModalView::Commit(c) => self.on_commit(c, key),
                ModalView::Push(d) => only(self.on_push(d, key)),
                ModalView::Confirm(c) => only(self.on_confirm(c, key)),
                ModalView::NewBranch(n) => only(self.on_new_branch(n, key)),
            }
        }
    }
}

// Answers

/// A list of the requests that were made.
pub open spec fn requests(r: Option<JobView>) -> Seq<JobView> {
    match r {
        Some(job) => seq![job],
        None => seq![],
    }
}

impl AppView {
    /// The entries are replaced; the cursor stays on its path, if that is still
    /// there.
    pub open spec fn with_entries(self, entries: Seq<FileEntryView>) -> AppView {
        let after = AppView { entries, ..self }.rebuilt();
        match self.current_path() {
            Some(path) => AppView {
                cursor: if row_at(after.rows, path) < after.rows.len() {
                    row_at(after.rows, path) as usize
                } else {
                    clamped(self.cursor, after.rows.len())
                },
                ..after
            },
            None => AppView { cursor: 0, ..after },
        }
    }

    /// The log and the branches are out of date.
    pub open spec fn outdated(self) -> AppView {
        AppView {
            log: LogStateView { loaded: false, ..self.log },
            branches: BranchesStateView { loaded: false, ..self.branches },
            ..self
        }
    }

    /// The state of the working tree is replaced.
    pub open spec fn with_status(self, s: StatusSnapshotView) -> (AppView, Option<JobView>) {
        let after = AppView {
            branch: s.branch,
            upstream: s.upstream,
            ..self.with_entries(s.entries)
        };
        (after.with_diff().0.outdated(), after.with_diff().1)
    }

    /// The state of the working tree has been asked for and told.
    pub open spec fn refreshed(self, r: StatusReportView) -> (AppView, Option<JobView>) {
        match r.warning {
            Some(w) => self.said("LFS annotate failed: "@ + w).with_status(r.snapshot),
            None => self.with_status(r.snapshot),
        }
    }

    /// A job in the background has told the state of the working tree: a commit
    /// that was being made is done.
    pub open spec fn took_status(self, s: Option<StatusSnapshotView>) -> (
        AppView,
        Option<JobView>,
    ) {
        match s {
            Some(snapshot) => (if self.modal is Commit {
                self.with_modal(ModalView::Nothing)
            } else {
                self
            }).with_status(snapshot),
            None => only(self),
        }
    }

    /// A job in the background has fetched the log.
    pub open spec fn took_log(self, log: Option<Seq<CommitView>>) -> (AppView, Option<JobView>) {
        match log {
            Some(commits) => AppView {
                log: LogStateView {
                    commits,
                    loaded: true,
                    cursor: clamped(self.log.cursor, commits.len()),
                    ..self.log
                },
                ..self
            }.with_log_details(),
            None => only(self),
        }
    }

    /// A job in the background has fetched the stashes.
    pub open spec fn took_stashes(self, list: Option<Seq<StashView>>) -> (
        AppView,
        Option<JobView>,
    ) {
        match list {
            Some(stashes) => AppView {
                stash: StashStateView {
                    stashes,
                    loaded: true,
                    cursor: clamped(self.stash.cursor, stashes.len()),
                    ..self.stash
                },
                ..self
            }.with_stash_details(),
            None => only(self),
        }
    }

    /// A job in the background has fetched the branches.
    pub open spec fn took_branches(self, b: Option<BranchesSnapshotView>) -> AppView {
        match b {
            Some(s) => AppView {
                branches: BranchesStateView {
                    locals: s.locals,
                    remotes: s.remotes,
                    loaded: true,
                    local_cursor: clamped(self.branches.local_cursor, s.locals.len()),
                    remote_cursor: clamped(self.branches.remote_cursor, s.remotes.len()),
                    ..self.branches
                },
                ..self
            },
            None => self,
        }
    }

    /// A job in the background has a message.
    pub open spec fn took_toast(self, toast: Option<Seq<char>>) -> AppView {
        match toast {
            Some(t) => self.said(t),
            None => self,
        }
    }

    /// A request has been answered.
    pub open spec fn answered(
        self,
        job: JobView,
        found: Result<AnswerView, Seq<char>>,
    ) -> AppView {
        match (job, found) {
            (JobView::Diff { .. }, Ok(AnswerView::Text(t))) => AppView { diff_text: t, ..self },
            (JobView::ShowCommit { .. }, Ok(AnswerView::Text(t))) => AppView {
                log: LogStateView { details_text: t, ..self.log },
                ..self
            },
            (JobView::ShowStash { .. }, Ok(AnswerView::Text(t))) => AppView {
                stash: StashStateView { details_text: t, ..self.stash },
                ..self
            },
            (JobView::LastSubject, Ok(AnswerView::Text(t))) => match self.modal {
                ModalView::Commit(c) => self.with_modal(
                    ModalView::Commit(CommitInputView { subject: t, ..c }),
                ),
                _ => self,
            },
            (JobView::FindPushTarget, Ok(AnswerView::Push(p))) => self.push_found(Ok(p)),
            (JobView::FindPushTarget, Err(message)) => self.push_found(Err(message)),
            _ => self,
        }
    }

    /// What a job in the background brought is taken over.
    pub open spec fn applied(self, done: OpDoneView) -> (AppView, Seq<JobView>) {
        let (a, r1) = self.took_status(done.status);
        let (b, r2) = a.took_log(done.log);
        let (c, r3) = b.took_stashes(done.stashes);
        (
            c.took_branches(done.branches).took_toast(done.toast),
            requests(r1) + requests(r2) + requests(r3),
        )
    }

    /// It has been looked what came of the job in the background.
    pub open spec fn polled(self, p: PolledView) -> (AppView, Seq<JobView>) {
        let free = AppView { pending: None, ..self };
        if self.pending is None {
            (self, seq![])
        } else {
            match p {
                PolledView::Running => (self, seq![]),
                PolledView::Done(Ok(done)) => free.applied(done),
                PolledView::Done(Err(message)) => (free.said("error: "@ + message), seq![]),
                PolledView::Disconnected => (free.said("worker disconnected"@), seq![]),
            }
        }
    }
}

} // verus!
