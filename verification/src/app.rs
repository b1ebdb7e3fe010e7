//! The state of the program, and what each key does to it.
//!
//! A key can put a job in the background (`App::pending`), and it can ask for
//! something that is needed at once. Such a request is returned as a `Job`; its
//! answer is handed back to the method that takes it.

use crate::git::{
    self, Commit, CommitView, FileEntry, FileEntryView, LocalBranch, LocalBranchView,
    RemoteBranch, RemoteBranchView, Stage, Stash, StashView,
};
use crate::model::{self, Move};
use crate::rows;
use crate::text::{
    self, concat, concat3, is_blank, is_white_space, join, number, same, split, split_lines,
    starts_with, trim, up_to_last,
};
use crate::tree::{build_rows, PathSet, Row, RowView, Side};
use crate::work::{Answer, Job, JobView, PushTarget, StatusReport};
use vstd::prelude::*;

pub use crate::work::{
    BranchesSnapshot, BranchesSnapshotView, OpDone, OpDoneView, StatusSnapshot, StatusSnapshotView,
};

verus! {

// ---------------------------------------------------------------------------
// Keys

/// The key that was pressed.
#[derive(Debug, Clone, Copy, PartialEq, Eq, Structural)]
pub enum KeyCode {
    Char(char),
    Enter,
    Esc,
    Tab,
    BackTab,
    Backspace,
    Up,
    Down,
    Left,
    Right,
    Home,
    End,
    PageUp,
    PageDown,
    Other,
}

/// A key, and whether Control was held.
#[derive(Debug, Clone, Copy, PartialEq, Eq, Structural)]
pub struct Key {
    pub code: KeyCode,
    pub ctrl: bool,
}

/// Whether a key ends the program at once, whatever the state.
pub fn breaks_off(key: Key) -> (r: bool)
    ensures
        r == (key.code == KeyCode::Char('c') && key.ctrl),
{
    match key.code {
        KeyCode::Char(c) => c == 'c' && key.ctrl,
        _ => false,
    }
}

// ---------------------------------------------------------------------------
// The parts of the state

/// What the screen shows.
#[derive(Debug, Clone, Copy, PartialEq, Eq, Structural)]
pub enum Tab {
    Status,
    Stash,
    Log,
    Branches,
}

/// Which list of branches has the focus.
#[derive(Debug, Clone, Copy, PartialEq, Eq, Structural)]
pub enum BranchFocus {
    Local,
    Remote,
}

impl Default for BranchFocus {
    fn default() -> (f: BranchFocus)
        ensures
            f == BranchFocus::Local,
    {
        BranchFocus::Local
    }
}

/// The branches that are shown.
#[derive(Debug)]
pub struct BranchesState {
    pub locals: Vec<LocalBranch>,
    pub remotes: Vec<RemoteBranch>,
    pub local_cursor: usize,
    pub remote_cursor: usize,
    pub focus: BranchFocus,
    pub loaded: bool,
}

/// The view of a `BranchesState`.
pub struct BranchesStateView {
    pub locals: Seq<LocalBranchView>,
    pub remotes: Seq<RemoteBranchView>,
    pub local_cursor: usize,
    pub remote_cursor: usize,
    pub focus: BranchFocus,
    pub loaded: bool,
}

impl DeepView for BranchesState {
    type V = BranchesStateView;

    open spec fn deep_view(&self) -> BranchesStateView {
        BranchesStateView {
            locals: self.locals.deep_view(),
            remotes: self.remotes.deep_view(),
            local_cursor: self.local_cursor,
            remote_cursor: self.remote_cursor,
            focus: self.focus,
            loaded: self.loaded,
        }
    }
}

impl BranchesStateView {
    /// Before any branch was fetched.
    pub open spec fn blank() -> BranchesStateView {
        BranchesStateView {
            locals: seq![],
            remotes: seq![],
            local_cursor: 0,
            remote_cursor: 0,
            focus: BranchFocus::Local,
            loaded: false,
        }
    }
}

impl Default for BranchesState {
    fn default() -> (s: BranchesState)
        ensures
            s.deep_view() == BranchesStateView::blank(),
    {
        let s = BranchesState {
            locals: Vec::new(),
            remotes: Vec::new(),
            local_cursor: 0,
            remote_cursor: 0,
            focus: BranchFocus::default(),
            loaded: false,
        };
        assert(s.locals.deep_view() =~= seq![]);
        assert(s.remotes.deep_view() =~= seq![]);
        s
    }
}

/// Which half of the status view has the focus.
#[derive(Debug, Clone, Copy, PartialEq, Eq, Structural)]
pub enum Focus {
    Files,
    Diff,
}

/// How the difference is shown.
#[derive(Debug, Clone, Copy, PartialEq, Eq, Structural)]
pub enum DiffView {
    Hidden,
    Split,
    Full,
}

/// Which half of the log has the focus.
#[derive(Debug, Clone, Copy, PartialEq, Eq, Structural)]
pub enum LogFocus {
    List,
    Details,
}

impl Default for LogFocus {
    fn default() -> (f: LogFocus)
        ensures
            f == LogFocus::List,
    {
        LogFocus::List
    }
}

/// The log that is shown.
#[derive(Debug)]
pub struct LogState {
    pub commits: Vec<Commit>,
    pub cursor: usize,
    pub focus: LogFocus,
    pub details_text: String,
    pub details_scroll: u16,
    pub loaded: bool,
}

/// The view of a `LogState`.
pub struct LogStateView {
    pub commits: Seq<CommitView>,
    pub cursor: usize,
    pub focus: LogFocus,
    pub details_text: Seq<char>,
    pub details_scroll: u16,
    pub loaded: bool,
}

impl DeepView for LogState {
    type V = LogStateView;

    open spec fn deep_view(&self) -> LogStateView {
        LogStateView {
            commits: self.commits.deep_view(),
            cursor: self.cursor,
            focus: self.focus,
            details_text: self.details_text@,
            details_scroll: self.details_scroll,
            loaded: self.loaded,
        }
    }
}

impl LogStateView {
    /// Before any commit was fetched.
    pub open spec fn blank() -> LogStateView {
        LogStateView {
            commits: seq![],
            cursor: 0,
            focus: LogFocus::List,
            details_text: seq![],
            details_scroll: 0,
            loaded: false,
        }
    }
}

impl Default for LogState {
    fn default() -> (s: LogState)
        ensures
            s.deep_view() == LogStateView::blank(),
    {
        let s = LogState {
            commits: Vec::new(),
            cursor: 0,
            focus: LogFocus::default(),
            details_text: String::new(),
            details_scroll: 0,
            loaded: false,
        };
        assert(s.commits.deep_view() =~= seq![]);
        assert(s.details_text@ =~= seq![]);
        s
    }
}

/// Which half of the stash view has the focus.
#[derive(Debug, Clone, Copy, PartialEq, Eq, Structural)]
pub enum StashFocus {
    List,
    Details,
}

impl Default for StashFocus {
    fn default() -> (f: StashFocus)
        ensures
            f == StashFocus::List,
    {
        StashFocus::List
    }
}

/// The stashes that are shown.
#[derive(Debug)]
pub struct StashState {
    pub stashes: Vec<Stash>,
    pub cursor: usize,
    pub focus: StashFocus,
    pub details_text: String,
    pub details_scroll: u16,
    pub loaded: bool,
}

/// The view of a `StashState`.
pub struct StashStateView {
    pub stashes: Seq<StashView>,
    pub cursor: usize,
    pub focus: StashFocus,
    pub details_text: Seq<char>,
    pub details_scroll: u16,
    pub loaded: bool,
}

impl DeepView for StashState {
    type V = StashStateView;

    open spec fn deep_view(&self) -> StashStateView {
        StashStateView {
            stashes: self.stashes.deep_view(),
            cursor: self.cursor,
            focus: self.focus,
            details_text: self.details_text@,
            details_scroll: self.details_scroll,
            loaded: self.loaded,
        }
    }
}

impl StashStateView {
    /// Before any stash was fetched.
    pub open spec fn blank() -> StashStateView {
        StashStateView {
            stashes: seq![],
            cursor: 0,
            focus: StashFocus::List,
            details_text: seq![],
            details_scroll: 0,
            loaded: false,
        }
    }
}

impl Default for StashState {
    fn default() -> (s: StashState)
        ensures
            s.deep_view() == StashStateView::blank(),
    {
        let s = StashState {
            stashes: Vec::new(),
            cursor: 0,
            focus: StashFocus::default(),
            details_text: String::new(),
            details_scroll: 0,
            loaded: false,
        };
        assert(s.stashes.deep_view() =~= seq![]);
        assert(s.details_text@ =~= seq![]);
        s
    }
}

/// The commit that is being written.
#[derive(Debug, Clone)]
pub struct CommitInput {
    pub subject: String,
    pub amend: bool,
}

/// The view of a `CommitInput`.
pub struct CommitInputView {
    pub subject: Seq<char>,
    pub amend: bool,
}

impl DeepView for CommitInput {
    type V = CommitInputView;

    open spec fn deep_view(&self) -> CommitInputView {
        CommitInputView { subject: self.subject@, amend: self.amend }
    }
}

impl CommitInput {
    /// A commit without a subject.
    pub fn new() -> (c: Self)
        ensures
            c.deep_view() == (CommitInputView { subject: seq![], amend: false }),
    {
        let c = CommitInput { subject: String::new(), amend: false };
        assert(c.subject@ =~= seq![]);
        c
    }
}

/// The push that is being prepared.
#[derive(Debug, Clone)]
pub enum PushDialog {
    Confirm { remote: String, branch: String },
    Pick { remotes: Vec<String>, cursor: usize, branch: String },
    Running,
}

/// The view of a `PushDialog`.
pub enum PushDialogView {
    Confirm { remote: Seq<char>, branch: Seq<char> },
    Pick { remotes: Seq<Seq<char>>, cursor: usize, branch: Seq<char> },
    Running,
}

impl DeepView for PushDialog {
    type V = PushDialogView;

    open spec fn deep_view(&self) -> PushDialogView {
        match *self {
            PushDialog::Confirm { remote, branch } => PushDialogView::Confirm {
                remote: remote@,
                branch: branch@,
            },
            PushDialog::Pick { remotes, cursor, branch } => PushDialogView::Pick {
                remotes: remotes.deep_view(),
                cursor,
                branch: branch@,
            },
            PushDialog::Running => PushDialogView::Running,
        }
    }
}

/// A question that wants a yes or a no.
#[derive(Debug, Clone)]
pub struct ConfirmDialog {
    pub title: String,
    pub message: String,
    pub kind: ConfirmKind,
}

/// What a yes does.
#[derive(Debug, Clone)]
pub enum ConfirmKind {
    Restore { path: String, is_dir: bool },
    DeleteUntracked { path: String },
    CommitDespiteLfs { pending: CommitInput },
    StashPop { reference: String },
    StashDrop { reference: String },
    BranchDelete { name: String, force: bool },
}

/// The view of a `ConfirmDialog`.
pub struct ConfirmDialogView {
    pub title: Seq<char>,
    pub message: Seq<char>,
    pub kind: ConfirmKindView,
}

/// The view of a `ConfirmKind`.
pub enum ConfirmKindView {
    Restore { path: Seq<char>, is_dir: bool },
    DeleteUntracked { path: Seq<char> },
    CommitDespiteLfs { pending: CommitInputView },
    StashPop { reference: Seq<char> },
    StashDrop { reference: Seq<char> },
    BranchDelete { name: Seq<char>, force: bool },
}

impl DeepView for ConfirmDialog {
    type V = ConfirmDialogView;

    open spec fn deep_view(&self) -> ConfirmDialogView {
        ConfirmDialogView {
            title: self.title@,
            message: self.message@,
            kind: self.kind.deep_view(),
        }
    }
}

impl DeepView for ConfirmKind {
    type V = ConfirmKindView;

    open spec fn deep_view(&self) -> ConfirmKindView {
        match *self {
            ConfirmKind::Restore { path, is_dir } => ConfirmKindView::Restore {
                path: path@,
                is_dir,
            },
            ConfirmKind::DeleteUntracked { path } => ConfirmKindView::DeleteUntracked {
                path: path@,
            },
            ConfirmKind::CommitDespiteLfs { pending } => ConfirmKindView::CommitDespiteLfs {
                pending: pending.deep_view(),
            },
            ConfirmKind::StashPop { reference } => ConfirmKindView::StashPop {
                reference: reference@,
            },
            ConfirmKind::StashDrop { reference } => ConfirmKindView::StashDrop {
                reference: reference@,
            },
            ConfirmKind::BranchDelete { name, force } => ConfirmKindView::BranchDelete {
                name: name@,
                force,
            },
        }
    }
}

/// The branch that is being named.
#[derive(Debug, Clone)]
pub struct NewBranchInput {
    pub name: String,
}

/// The view of a `NewBranchInput`.
pub struct NewBranchInputView {
    pub name: Seq<char>,
}

impl DeepView for NewBranchInput {
    type V = NewBranchInputView;

    open spec fn deep_view(&self) -> NewBranchInputView {
        NewBranchInputView { name: self.name@ }
    }
}

impl NewBranchInput {
    /// A branch without a name.
    pub fn new() -> (n: Self)
        ensures
            n.deep_view() == (NewBranchInputView { name: seq![] }),
    {
        let n = NewBranchInput { name: String::new() };
        assert(n.name@ =~= seq![]);
        n
    }
}

/// What stands in front of the view and takes the keys.
#[derive(Debug, Clone)]
pub enum Modal {
    Nothing,
    Commit(CommitInput),
    Push(PushDialog),
    Confirm(ConfirmDialog),
    NewBranch(NewBranchInput),
}

/// The view of a `Modal`.
pub enum ModalView {
    Nothing,
    Commit(CommitInputView),
    Push(PushDialogView),
    Confirm(ConfirmDialogView),
    NewBranch(NewBranchInputView),
}

impl DeepView for Modal {
    type V = ModalView;

    open spec fn deep_view(&self) -> ModalView {
        match *self {
            Modal::Nothing => ModalView::Nothing,
            Modal::Commit(c) => ModalView::Commit(c.deep_view()),
            Modal::Push(d) => ModalView::Push(d.deep_view()),
            Modal::Confirm(c) => ModalView::Confirm(c.deep_view()),
            Modal::NewBranch(n) => ModalView::NewBranch(n.deep_view()),
        }
    }
}

/// The job that runs in the background, and since when.
#[derive(Debug)]
pub struct Pending {
    pub label: String,
    pub started: u64,
    pub job: Job,
}

/// The view of a `Pending`.
pub struct PendingView {
    pub label: Seq<char>,
    pub started: u64,
    pub job: JobView,
}

impl DeepView for Pending {
    type V = PendingView;

    open spec fn deep_view(&self) -> PendingView {
        PendingView {
            label: self.label@,
            started: self.started,
            job: self.job.deep_view(),
        }
    }
}

/// What has come of the job in the background.
#[derive(Debug)]
pub enum Polled {
    /// It still runs.
    Running,
    /// It ended; it brought something or failed with a message.
    Done(Result<OpDone, String>),
    /// It broke off.
    Disconnected,
}

/// The view of a `Polled`.
pub enum PolledView {
    Running,
    Done(Result<OpDoneView, Seq<char>>),
    Disconnected,
}

impl DeepView for Polled {
    type V = PolledView;

    open spec fn deep_view(&self) -> PolledView {
        match *self {
            Polled::Running => PolledView::Running,
            Polled::Done(r) => PolledView::Done(git::outcome(r)),
            Polled::Disconnected => PolledView::Disconnected,
        }
    }
}

/// The state of the program. Times are in nanoseconds; `clock` is the time now.
pub struct App {
    pub tab: Tab,
    pub entries: Vec<FileEntry>,
    pub rows: Vec<Row>,
    pub cursor: usize,
    pub collapsed: PathSet,
    pub focus: Focus,
    pub diff_view: DiffView,
    pub diff_text: String,
    pub diff_scroll: u16,
    pub log: LogState,
    pub stash: StashState,
    pub branches: BranchesState,
    pub modal: Modal,
    pub status_line: Option<(String, u64)>,
    pub branch: String,
    pub upstream: Option<String>,
    pub pending: Option<Pending>,
    pub quit: bool,
    pub clock: u64,
}

/// The view of an `App`.
pub struct AppView {
    pub tab: Tab,
    pub entries: Seq<FileEntryView>,
    pub rows: Seq<RowView>,
    pub cursor: usize,
    pub collapsed: Set<Seq<char>>,
    pub focus: Focus,
    pub diff_view: DiffView,
    pub diff_text: Seq<char>,
    pub diff_scroll: u16,
    pub log: LogStateView,
    pub stash: StashStateView,
    pub branches: BranchesStateView,
    pub modal: ModalView,
    pub status_line: Option<(Seq<char>, u64)>,
    pub branch: Seq<char>,
    pub upstream: Option<Seq<char>>,
    pub pending: Option<PendingView>,
    pub quit: bool,
    pub clock: u64,
}

impl DeepView for App {
    type V = AppView;

    open spec fn deep_view(&self) -> AppView {
        AppView {
            tab: self.tab,
            entries: self.entries.deep_view(),
            rows: self.rows.deep_view(),
            cursor: self.cursor,
            collapsed: self.collapsed@,
            focus: self.focus,
            diff_view: self.diff_view,
            diff_text: self.diff_text@,
            diff_scroll: self.diff_scroll,
            log: self.log.deep_view(),
            stash: self.stash.deep_view(),
            branches: self.branches.deep_view(),
            modal: self.modal.deep_view(),
            status_line: self.status_line.deep_view(),
            branch: self.branch@,
            upstream: self.upstream.deep_view(),
            pending: self.pending.deep_view(),
            quit: self.quit,
            clock: self.clock,
        }
    }
}

// ---------------------------------------------------------------------------
// How it is done

fn read_move(code: KeyCode) -> (m: Option<Move>)
    ensures
        m == model::move_of(code),
{
    match code {
        KeyCode::Up | KeyCode::Char('k') => Some(Move::Back),
        KeyCode::Down | KeyCode::Char('j') => Some(Move::On),
        KeyCode::Home => Some(Move::First),
        KeyCode::End => Some(Move::Last),
        _ => None,
    }
}

fn follow(cursor: usize, len: usize, m: Move) -> (c: Option<usize>)
    requires
        model::in_list(cursor, len as nat),
    ensures
        c == model::moved(cursor, len as nat, m),
        c matches Some(i) ==> i < len,
{
    match m {
        Move::Back => if cursor > 0 {
            Some(cursor - 1)
        } else {
            None
        },
        Move::On => if cursor < len && cursor + 1 < len {
            Some(cursor + 1)
        } else {
            None
        },
        Move::First => if len > 0 {
            Some(0)
        } else {
            None
        },
        Move::Last => if len > 0 {
            Some(len - 1)
        } else {
            None
        },
    }
}

fn clamp(cursor: usize, len: usize) -> (c: usize)
    ensures
        c == model::clamped(cursor, len as nat),
        model::in_list(c, len as nat),
{
    if cursor < len {
        cursor
    } else if len > 0 {
        len - 1
    } else {
        0
    }
}

fn scroll_up(scroll: u16, n: u16) -> (r: u16)
    ensures
        r == model::up(scroll, n),
{
    if scroll >= n {
        scroll - n
    } else {
        0
    }
}

fn scroll_down(scroll: u16, n: u16) -> (r: u16)
    ensures
        r == model::down(scroll, n),
{
    if scroll <= u16::MAX - n {
        scroll + n
    } else {
        u16::MAX
    }
}

fn scroll_end(s: &str) -> (r: u16)
    ensures
        r == model::last_line(s@),
{
    let lines = split_lines(s);
    let count: usize = lines.len() % 65536;
    scroll_up(count as u16, 1)
}

fn scroll(at: u16, s: &str, code: KeyCode) -> (r: Option<u16>)
    ensures
        r == model::scrolled(at, s@, code),
{
    match code {
        KeyCode::Up | KeyCode::Char('k') => Some(scroll_up(at, 1)),
        KeyCode::Down | KeyCode::Char('j') => Some(scroll_down(at, 1)),
        KeyCode::PageUp => Some(scroll_up(at, 10)),
        KeyCode::PageDown => Some(scroll_down(at, 10)),
        KeyCode::Home => Some(0),
        KeyCode::End => Some(scroll_end(s)),
        _ => None,
    }
}

fn ends_white(s: &String) -> (r: Option<bool>)
    ensures
        s@.len() == 0 ==> r is None,
        s@.len() > 0 ==> r == Some(text::is_white(s@.last())),
{
    let v = text::chars_of(s.as_str());
    let n: usize = v.len();
    if n == 0 {
        None
    } else {
        Some(is_white_space(v[n - 1]))
    }
}

/// Takes the last word off a text.
fn pop_word(s: &mut String)
    ensures
        final(s)@ == model::without_word(old(s)@),
{
    let ghost start = s@;
    let mut last = ends_white(s);
    while last == Some(true)
        invariant
            text::trim_back(s@) == text::trim_back(start),
            s@.len() == 0 ==> last is None,
            s@.len() > 0 ==> last == Some(text::is_white(s@.last())),
        decreases s@.len(),
    {
        s.pop();
        last = ends_white(s);
    }
    while last == Some(false)
        invariant
            model::without_letters(s@) == model::without_word(start),
            s@.len() == 0 ==> last is None,
            s@.len() > 0 ==> last == Some(text::is_white(s@.last())),
        decreases s@.len(),
    {
        s.pop();
        last = ends_white(s);
    }
}

/// Lets a key edit a line of input.
fn edit(s: &mut String, key: Key)
    ensures
        final(s)@ == model::edited(old(s)@, key),
{
    match key.code {
        KeyCode::Backspace => {
            if key.ctrl {
                pop_word(s);
            } else {
                s.pop();
            }
        },
        KeyCode::Char(c) => {
            if !key.ctrl {
                s.push(c);
            }
        },
        _ => {},
    }
}

/// The folder that a path lies in.
fn parent_path(p: &str) -> (r: String)
    ensures
        r@ == model::parent(p@),
{
    up_to_last(p, '/')
}

fn find_row(rows: &Vec<Row>, path: &str) -> (i: usize)
    ensures
        i == model::row_at(rows.deep_view(), path@),
        i <= rows@.len(),
{
    let ghost all = rows.deep_view();
    let mut i: usize = 0;
    assert(all.skip(0) =~= all);
    while i < rows.len()
        invariant
            i <= rows@.len(),
            all == rows.deep_view(),
            model::row_at(all, path@) == i + model::row_at(all.skip(i as int), path@),
        decreases rows@.len() - i,
    {
        assert(all.skip(i as int)[0] == rows@[i as int].deep_view());
        if same(rows[i].path.as_str(), path) {
            return i;
        }
        assert(all.skip(i as int).skip(1) =~= all.skip(i + 1));
        i += 1;
    }
    i
}

fn describe_folder(r: &Row) -> (s: String)
    requires
        r.deep_view().agg.files() <= u32::MAX,
    ensures
        s@ == model::folder_text(r.deep_view()),
{
    let n: u32 = r.agg.staged + r.agg.unstaged + r.agg.untracked + r.agg.conflict;
    let mut s = concat3("(folder ", r.path.as_str(), " — ");
    s.append(number(n as usize).as_str());
    s.append(" changed file(s))");
    s
}

impl App {
    /// Sets the time.
    pub fn tick(&mut self, now: u64)
        ensures
            final(self).deep_view() == (AppView { clock: now, ..old(self).deep_view() }),
            old(self).deep_view().in_order() ==> final(self).deep_view().in_order(),
    {
        self.clock = now;
    }

    /// How long to wait for a key, in milliseconds: shorter while a job runs, which
    /// is to be looked after.
    pub fn wait(&self) -> (ms: u64)
        ensures
            ms == (if self.deep_view().pending is Some {
                80u64
            } else {
                200u64
            }),
    {
        if self.pending.is_some() {
            80
        } else {
            200
        }
    }

    /// Shows a message.
    pub fn toast(&mut self, msg: String)
        ensures
            final(self).deep_view() == old(self).deep_view().said(msg@),
            old(self).deep_view().in_order() ==> final(self).deep_view().in_order(),
    {
        self.status_line = Some((msg, self.clock));
    }

    /// Puts a job in the background, unless one is there already.
    pub fn start(&mut self, label: String, job: Job)
        ensures
            final(self).deep_view() == old(self).deep_view().started(label@, job.deep_view()),
            old(self).deep_view().in_order() ==> final(self).deep_view().in_order(),
    {
        if self.pending.is_some() {
            return;
        }
        self.pending = Some(Pending { label, started: self.clock, job });
    }

    /// The number of files to be committed: outside the large-file storage, and in it.
    pub fn staged_counts(&self) -> (r: (usize, usize))
        ensures
            r.0 == model::staged_number(self.deep_view().entries, false),
            r.1 == model::staged_number(self.deep_view().entries, true),
    {
        let mut git_n: usize = 0;
        let mut lfs_n: usize = 0;
        let ghost all = self.entries.deep_view();
        let mut i: usize = 0;
        while i < self.entries.len()
            invariant
                i <= self.entries@.len(),
                all == self.entries.deep_view(),
                git_n == model::staged_number(all.take(i as int), false),
                lfs_n == model::staged_number(all.take(i as int), true),
                git_n + lfs_n <= i,
            decreases self.entries@.len() - i,
        {
            let e = &self.entries[i];
            let staged = match e.index {
                Stage::Added
                | Stage::Modified
                | Stage::Deleted
                | Stage::Renamed
                | Stage::Copied
                | Stage::TypeChange => true,
                _ => false,
            };
            proof {
                assert(all.take(i + 1).drop_last() =~= all.take(i as int));
                assert(all.take(i + 1).last() == e.deep_view());
            }
            if staged {
                if e.lfs_tracked {
                    lfs_n += 1;
                } else {
                    git_n += 1;
                }
            }
            i += 1;
        }
        assert(all.take(all.len() as int) =~= all);
        (git_n, lfs_n)
    }

    fn rebuild_rows(&mut self)
        requires
            old(self).deep_view().entries.len() <= u32::MAX,
        ensures
            final(self).deep_view() == old(self).deep_view().rebuilt(),
    {
        let entries = self.entries.as_slice();
        assert(entries.deep_view() =~= self.entries.deep_view());
        let mut rows = build_rows(entries, &self.collapsed, Side::Unstaged);
        let mut staged = build_rows(entries, &self.collapsed, Side::Staged);
        let ghost a = rows.deep_view();
        let ghost b = staged.deep_view();
        rows.append(&mut staged);
        assert(rows.deep_view() =~= a + b);
        self.rows = rows;
    }

    /// Makes the difference anew; for a file it is asked for.
    pub fn refresh_diff(&mut self) -> (r: Option<Job>)
        requires
            old(self).deep_view().in_order(),
        ensures
            (final(self).deep_view(), r.deep_view()) == old(self).deep_view().with_diff(),
            final(self).deep_view().in_order(),
    {
        self.diff_scroll = 0;
        if self.cursor >= self.rows.len() {
            self.diff_text = String::new();
            assert(self.diff_text@ =~= seq![]);
            return None;
        }
        let r = &self.rows[self.cursor];
        proof {
            let v = self.deep_view();
            assert(v.rows[self.cursor as int] == r.deep_view());
            rows::law_rows_faithful(v.entries, v.collapsed, Side::Unstaged);
            rows::law_rows_faithful(v.entries, v.collapsed, Side::Staged);
        }
        if r.is_dir {
            self.diff_text = describe_folder(r);
            return None;
        }
        match r.entry_index {
            Some(i) => {
                if i < self.entries.len() {
                    let entry = self.entries[i].clone();
                    assert(self.deep_view().entries[i as int] == entry.deep_view());
                    return Some(Job::Diff { entry });
                }
            },
            None => {},
        }
        self.diff_text = String::new();
        assert(self.diff_text@ =~= seq![]);
        None
    }
}

impl App {
    /// Moves the cursor to a row.
    fn go_to_row(&mut self, cursor: usize) -> (r: Option<Job>)
        requires
            (AppView { cursor, ..old(self).deep_view() }).in_order(),
        ensures
            (final(self).deep_view(), r.deep_view()) == old(self).deep_view().at_row(cursor),
            final(self).deep_view().in_order(),
    {
        self.cursor = cursor;
        self.refresh_diff()
    }

    /// Brings the rows and the cursor in line with the collapsed folders.
    fn clamp_cursor(&mut self) -> (r: Option<Job>)
        requires
            (AppView { cursor: 0, ..old(self).deep_view() }).rebuilt().in_order(),
        ensures
            (final(self).deep_view(), r.deep_view()) == old(self).deep_view().folded(
                old(self).deep_view().collapsed,
            ),
            final(self).deep_view().in_order(),
    {
        self.rebuild_rows();
        let c = clamp(self.cursor, self.rows.len());
        self.go_to_row(c)
    }

    fn show_diff_panel(&mut self)
        ensures
            final(self).deep_view() == (AppView {
                diff_view: if old(self).deep_view().diff_view == DiffView::Hidden {
                    DiffView::Split
                } else {
                    old(self).deep_view().diff_view
                },
                ..old(self).deep_view()
            }),
    {
        if self.diff_view == DiffView::Hidden {
            self.diff_view = DiffView::Split;
        }
    }

    fn open_diff(&mut self)
        requires
            old(self).deep_view().in_order(),
        ensures
            final(self).deep_view() == old(self).deep_view().diff_opened(),
            final(self).deep_view().in_order(),
    {
        self.show_diff_panel();
        self.focus = Focus::Diff;
    }

    fn close_diff(&mut self)
        requires
            old(self).deep_view().in_order(),
        ensures
            final(self).deep_view() == old(self).deep_view().diff_closed(),
            final(self).deep_view().in_order(),
    {
        self.diff_view = DiffView::Hidden;
        self.focus = Focus::Files;
    }

    fn right_action(&mut self) -> (r: Option<Job>)
        requires
            old(self).deep_view().in_order(),
        ensures
            (final(self).deep_view(), r.deep_view()) == old(self).deep_view().gone_right(),
            final(self).deep_view().in_order(),
    {
        if self.cursor >= self.rows.len() {
            return None;
        }
        let r = &self.rows[self.cursor];
        assert(self.deep_view().rows[self.cursor as int] == r.deep_view());
        if r.is_dir {
            let p = r.path.clone();
            self.collapsed.remove(p.as_str());
            self.clamp_cursor()
        } else {
            self.open_diff();
            None
        }
    }

    fn left_action(&mut self) -> (r: Option<Job>)
        requires
            old(self).deep_view().in_order(),
        ensures
            (final(self).deep_view(), r.deep_view()) == old(self).deep_view().gone_left(),
            final(self).deep_view().in_order(),
    {
        if self.cursor >= self.rows.len() {
            return None;
        }
        let r = &self.rows[self.cursor];
        assert(self.deep_view().rows[self.cursor as int] == r.deep_view());
        if r.is_dir && r.expanded {
            let p = r.path.clone();
            self.collapsed.insert(p);
            self.clamp_cursor()
        } else {
            let parent = parent_path(r.path.as_str());
            if parent.as_str().is_empty() {
                return None;
            }
            let i = find_row(&self.rows, parent.as_str());
            if i < self.rows.len() {
                self.go_to_row(i)
            } else {
                None
            }
        }
    }

    /// Folds or unfolds the folder under the cursor; of a file, shows or hides the
    /// difference. No key does this.
    pub fn enter_action(&mut self) -> (r: Option<Job>)
        requires
            old(self).deep_view().in_order(),
        ensures
            (final(self).deep_view(), r.deep_view()) == old(self).deep_view().toggled(),
            final(self).deep_view().in_order(),
    {
        if self.cursor >= self.rows.len() {
            return None;
        }
        let r = &self.rows[self.cursor];
        assert(self.deep_view().rows[self.cursor as int] == r.deep_view());
        if r.is_dir {
            let p = r.path.clone();
            if r.expanded {
                self.collapsed.insert(p);
            } else {
                self.collapsed.remove(p.as_str());
            }
            self.clamp_cursor()
        } else if self.diff_view == DiffView::Hidden {
            self.show_diff_panel();
            None
        } else {
            self.close_diff();
            None
        }
    }

    fn unstage_current(&mut self)
        requires
            old(self).deep_view().in_order(),
        ensures
            final(self).deep_view() == old(self).deep_view().unstaging(),
            final(self).deep_view().in_order(),
    {
        if self.cursor >= self.rows.len() {
            return;
        }
        let r = &self.rows[self.cursor];
        assert(self.deep_view().rows[self.cursor as int] == r.deep_view());
        if r.agg.has_staged() {
            let path = r.path.clone();
            self.start(concat("unstaging ", path.as_str()), Job::Unstage { path });
        }
    }

    fn toggle_stage(&mut self)
        requires
            old(self).deep_view().in_order(),
        ensures
            final(self).deep_view() == old(self).deep_view().restaged(),
            final(self).deep_view().in_order(),
    {
        if self.cursor >= self.rows.len() {
            return;
        }
        let r = &self.rows[self.cursor];
        assert(self.deep_view().rows[self.cursor as int] == r.deep_view());
        if r.agg.has_unstaged_or_untracked() {
            let path = r.path.clone();
            self.start(concat("staging ", path.as_str()), Job::Stage { path });
        } else {
            self.unstage_current();
        }
    }

    fn ask(&mut self, title: &str, message: String, kind: ConfirmKind)
        requires
            old(self).deep_view().in_order(),
        ensures
            final(self).deep_view() == old(self).deep_view().asked(
                title@,
                message@,
                kind.deep_view(),
            ),
            final(self).deep_view().in_order(),
    {
        self.modal = Modal::Confirm(ConfirmDialog { title: title.to_string(), message, kind });
    }

    fn say(&mut self, message: &str)
        ensures
            final(self).deep_view() == old(self).deep_view().said(message@),
            old(self).deep_view().in_order() ==> final(self).deep_view().in_order(),
    {
        self.toast(message.to_string());
    }

    fn start_discard(&mut self)
        requires
            old(self).deep_view().in_order(),
        ensures
            final(self).deep_view() == old(self).deep_view().discarding(),
            final(self).deep_view().in_order(),
    {
        if self.cursor >= self.rows.len() {
            return;
        }
        let r = &self.rows[self.cursor];
        assert(self.deep_view().rows[self.cursor as int] == r.deep_view());
        let path = r.path.clone();
        if r.is_dir {
            if r.agg.unstaged == 0 && r.agg.staged == 0 && r.agg.untracked == 0 {
                self.say("nothing to discard");
                return;
            }
            let message = concat3(
                "Restore tracked files under '",
                path.as_str(),
                "' to HEAD/index?\nUntracked files in this folder remain. [y/N]",
            );
            self.ask(
                "Discard changes in folder?",
                message,
                ConfirmKind::Restore { path, is_dir: true },
            );
        } else if r.agg.untracked > 0 {
            let message = concat3("Permanently delete ", path.as_str(), " from disk? [y/N]");
            self.ask("Delete untracked file?", message, ConfirmKind::DeleteUntracked { path });
        } else if r.agg.unstaged > 0 {
            let message = concat3(
                "Restore ",
                path.as_str(),
                " from index/HEAD? Working tree changes will be lost. [y/N]",
            );
            self.ask(
                "Discard changes?",
                message,
                ConfirmKind::Restore { path, is_dir: false },
            );
        } else {
            self.say("nothing to discard");
        }
    }

    /// Fetches the log in the background.
    pub fn refresh_log(&mut self)
        requires
            old(self).deep_view().in_order(),
        ensures
            final(self).deep_view() == old(self).deep_view().fetching_log(),
            final(self).deep_view().in_order(),
    {
        self.start("fetching log".to_string(), Job::FetchLog);
    }

    /// Fetches the stashes in the background.
    pub fn refresh_stash(&mut self)
        requires
            old(self).deep_view().in_order(),
        ensures
            final(self).deep_view() == old(self).deep_view().fetching_stashes(),
            final(self).deep_view().in_order(),
    {
        self.start("fetching stash list".to_string(), Job::FetchStashes);
    }

    /// Fetches the branches in the background.
    pub fn refresh_branches(&mut self)
        requires
            old(self).deep_view().in_order(),
        ensures
            final(self).deep_view() == old(self).deep_view().fetching_branches(),
            final(self).deep_view().in_order(),
    {
        self.start("fetching branches".to_string(), Job::FetchBranches);
    }

    fn start_refresh(&mut self)
        requires
            old(self).deep_view().in_order(),
        ensures
            final(self).deep_view() == old(self).deep_view().refreshing(),
            final(self).deep_view().in_order(),
    {
        self.start("refreshing".to_string(), Job::Refresh);
    }

    fn handle_files(&mut self, key: Key) -> (r: Option<Job>)
        requires
            old(self).deep_view().in_order(),
        ensures
            (final(self).deep_view(), r.deep_view()) == old(self).deep_view().on_files(key),
            final(self).deep_view().in_order(),
    {
        if let Some(m) = read_move(key.code) {
            return match follow(self.cursor, self.rows.len(), m) {
                Some(c) => self.go_to_row(c),
                None => None,
            };
        }
        match key.code {
            KeyCode::Char('q') => {
                self.quit = true;
            },
            KeyCode::Tab => {
                if self.rows.len() > 0 {
                    self.open_diff();
                }
            },
            KeyCode::Right | KeyCode::Char('l') => {
                return self.right_action();
            },
            KeyCode::Left | KeyCode::Char('h') => {
                return self.left_action();
            },
            KeyCode::Enter | KeyCode::Char(' ') => self.toggle_stage(),
            KeyCode::Char('a') => self.start("staging all".to_string(), Job::StageAll),
            KeyCode::Char('u') => self.unstage_current(),
            KeyCode::Char('d') => self.start_discard(),
            KeyCode::Char('c') => {
                self.modal = Modal::Commit(CommitInput::new());
            },
            KeyCode::Char('P') => {
                return Some(Job::FindPushTarget);
            },
            KeyCode::Char('r') => self.start_refresh(),
            _ => {},
        }
        None
    }

    fn handle_diff(&mut self, key: Key)
        requires
            old(self).deep_view().in_order(),
        ensures
            final(self).deep_view() == old(self).deep_view().on_diff(key),
            final(self).deep_view().in_order(),
    {
        if let Some(n) = scroll(self.diff_scroll, self.diff_text.as_str(), key.code) {
            self.diff_scroll = n;
            return;
        }
        match key.code {
            KeyCode::Char('q') => {
                self.quit = true;
            },
            KeyCode::Esc | KeyCode::Left | KeyCode::BackTab | KeyCode::Tab => self.close_diff(),
            KeyCode::Enter => {
                self.diff_view = match self.diff_view {
                    DiffView::Full => DiffView::Split,
                    _ => DiffView::Full,
                };
            },
            KeyCode::Char('r') => self.start_refresh(),
            _ => {},
        }
    }
}

impl App {
    fn refresh_stash_details(&mut self) -> (r: Option<Job>)
        requires
            old(self).deep_view().in_order(),
        ensures
            (final(self).deep_view(), r.deep_view()) == old(self).deep_view().with_stash_details(),
            final(self).deep_view().in_order(),
    {
        self.stash.details_scroll = 0;
        if self.stash.cursor < self.stash.stashes.len() {
            let s = &self.stash.stashes[self.stash.cursor];
            assert(self.deep_view().stash.stashes[self.stash.cursor as int] == s.deep_view());
            return Some(Job::ShowStash { reference: s.reference.clone() });
        }
        self.stash.details_text = String::new();
        assert(self.stash.details_text@ =~= seq![]);
        None
    }

    fn refresh_log_details(&mut self) -> (r: Option<Job>)
        requires
            old(self).deep_view().in_order(),
        ensures
            (final(self).deep_view(), r.deep_view()) == old(self).deep_view().with_log_details(),
            final(self).deep_view().in_order(),
    {
        self.log.details_scroll = 0;
        if self.log.cursor < self.log.commits.len() {
            let c = &self.log.commits[self.log.cursor];
            assert(self.deep_view().log.commits[self.log.cursor as int] == c.deep_view());
            return Some(Job::ShowCommit { sha: c.sha.clone() });
        }
        self.log.details_text = String::new();
        assert(self.log.details_text@ =~= seq![]);
        None
    }

    fn start_stash_apply(&mut self)
        requires
            old(self).deep_view().in_order(),
        ensures
            final(self).deep_view() == old(self).deep_view().applying_stash(),
            final(self).deep_view().in_order(),
    {
        if self.stash.cursor < self.stash.stashes.len() {
            let s = &self.stash.stashes[self.stash.cursor];
            assert(self.deep_view().stash.stashes[self.stash.cursor as int] == s.deep_view());
            let reference = s.reference.clone();
            self.start(concat("applying ", reference.as_str()), Job::StashApply { reference });
        }
    }

    fn start_stash_pop(&mut self)
        requires
            old(self).deep_view().in_order(),
        ensures
            final(self).deep_view() == old(self).deep_view().popping_stash(),
            final(self).deep_view().in_order(),
    {
        if self.stash.cursor < self.stash.stashes.len() {
            let s = &self.stash.stashes[self.stash.cursor];
            assert(self.deep_view().stash.stashes[self.stash.cursor as int] == s.deep_view());
            let reference = s.reference.clone();
            let message = concat3(
                "Pop ",
                reference.as_str(),
                " into working tree? Stash will be removed. [y/N]",
            );
            self.ask("Pop stash?", message, ConfirmKind::StashPop { reference });
        }
    }

    fn start_stash_drop(&mut self)
        requires
            old(self).deep_view().in_order(),
        ensures
            final(self).deep_view() == old(self).deep_view().dropping_stash(),
            final(self).deep_view().in_order(),
    {
        if self.stash.cursor < self.stash.stashes.len() {
            let s = &self.stash.stashes[self.stash.cursor];
            assert(self.deep_view().stash.stashes[self.stash.cursor as int] == s.deep_view());
            let reference = s.reference.clone();
            let message = concat3("Permanently drop ", reference.as_str(), "? [y/N]");
            self.ask("Drop stash?", message, ConfirmKind::StashDrop { reference });
        }
    }

    fn handle_stash_list(&mut self, key: Key) -> (r: Option<Job>)
        requires
            old(self).deep_view().in_order(),
        ensures
            (final(self).deep_view(), r.deep_view()) == old(self).deep_view().on_stash_list(key),
            final(self).deep_view().in_order(),
    {
        if let Some(m) = read_move(key.code) {
            return match follow(self.stash.cursor, self.stash.stashes.len(), m) {
                Some(c) => {
                    self.stash.cursor = c;
                    self.refresh_stash_details()
                },
                None => None,
            };
        }
        match key.code {
            KeyCode::Char('q') => {
                self.quit = true;
            },
            KeyCode::Right | KeyCode::Char('l') | KeyCode::Tab | KeyCode::Enter => {
                if self.stash.stashes.len() > 0 {
                    self.stash.focus = StashFocus::Details;
                }
            },
            KeyCode::Char('a') => self.start_stash_apply(),
            KeyCode::Char('p') => self.start_stash_pop(),
            KeyCode::Char('d') => self.start_stash_drop(),
            KeyCode::Char('r') => self.refresh_stash(),
            _ => {},
        }
        None
    }

    fn handle_stash_details(&mut self, key: Key)
        requires
            old(self).deep_view().in_order(),
        ensures
            final(self).deep_view() == old(self).deep_view().on_stash_details(key),
            final(self).deep_view().in_order(),
    {
        if let Some(n) = scroll(
            self.stash.details_scroll,
            self.stash.details_text.as_str(),
            key.code,
        ) {
            self.stash.details_scroll = n;
            return;
        }
        match key.code {
            KeyCode::Char('q') => {
                self.quit = true;
            },
            KeyCode::Esc | KeyCode::Left | KeyCode::Char('h') | KeyCode::BackTab | KeyCode::Tab => {
                self.stash.focus = StashFocus::List;
            },
            KeyCode::Char('r') => self.refresh_stash(),
            _ => {},
        }
    }

    fn handle_log_list(&mut self, key: Key) -> (r: Option<Job>)
        requires
            old(self).deep_view().in_order(),
        ensures
            (final(self).deep_view(), r.deep_view()) == old(self).deep_view().on_log_list(key),
            final(self).deep_view().in_order(),
    {
        if let Some(m) = read_move(key.code) {
            return match follow(self.log.cursor, self.log.commits.len(), m) {
                Some(c) => {
                    self.log.cursor = c;
                    self.refresh_log_details()
                },
                None => None,
            };
        }
        match key.code {
            KeyCode::Char('q') => {
                self.quit = true;
            },
            KeyCode::Right | KeyCode::Char('l') | KeyCode::Tab | KeyCode::Enter => {
                if self.log.commits.len() > 0 {
                    self.log.focus = LogFocus::Details;
                }
            },
            KeyCode::Char('r') => self.refresh_log(),
            _ => {},
        }
        None
    }

    fn handle_log_details(&mut self, key: Key)
        requires
            old(self).deep_view().in_order(),
        ensures
            final(self).deep_view() == old(self).deep_view().on_log_details(key),
            final(self).deep_view().in_order(),
    {
        if let Some(n) = scroll(
            self.log.details_scroll,
            self.log.details_text.as_str(),
            key.code,
        ) {
            self.log.details_scroll = n;
            return;
        }
        match key.code {
            KeyCode::Char('q') => {
                self.quit = true;
            },
            KeyCode::Esc | KeyCode::Left | KeyCode::Char('h') | KeyCode::BackTab | KeyCode::Tab => {
                self.log.focus = LogFocus::List;
            },
            KeyCode::Char('r') => self.refresh_log(),
            _ => {},
        }
    }

    /// Moves the cursor of the list of branches that has the focus.
    fn move_branch_cursor(&mut self, m: Move)
        requires
            old(self).deep_view().in_order(),
        ensures
            final(self).deep_view() == (match model::moved(
                old(self).deep_view().branch_cursor(),
                old(self).deep_view().branch_number(),
                m,
            ) {
                Some(c) => old(self).deep_view().at_branch(c),
                None => old(self).deep_view(),
            }),
            final(self).deep_view().in_order(),
    {
        match self.branches.focus {
            BranchFocus::Local => {
                if let Some(c) = follow(
                    self.branches.local_cursor,
                    self.branches.locals.len(),
                    m,
                ) {
                    self.branches.local_cursor = c;
                }
            },
            BranchFocus::Remote => {
                if let Some(c) = follow(
                    self.branches.remote_cursor,
                    self.branches.remotes.len(),
                    m,
                ) {
                    self.branches.remote_cursor = c;
                }
            },
        }
    }

    fn start_checkout(&mut self)
        requires
            old(self).deep_view().in_order(),
        ensures
            final(self).deep_view() == old(self).deep_view().checking_out(),
            final(self).deep_view().in_order(),
    {
        let target = match self.branches.focus {
            BranchFocus::Local => {
                if self.branches.local_cursor >= self.branches.locals.len() {
                    return;
                }
                let b = &self.branches.locals[self.branches.local_cursor];
                assert(self.deep_view().branches.locals[self.branches.local_cursor as int]
                    == b.deep_view());
                b.name.clone()
            },
            BranchFocus::Remote => {
                if self.branches.remote_cursor >= self.branches.remotes.len() {
                    return;
                }
                let b = &self.branches.remotes[self.branches.remote_cursor];
                assert(self.deep_view().branches.remotes[self.branches.remote_cursor as int]
                    == b.deep_view());
                b.name.clone()
            },
        };
        self.start(concat("checking out ", target.as_str()), Job::Checkout { name: target });
    }

    fn start_branch_delete(&mut self, force: bool)
        requires
            old(self).deep_view().in_order(),
        ensures
            final(self).deep_view() == old(self).deep_view().deleting_branch(force),
            final(self).deep_view().in_order(),
    {
        if self.branches.focus != BranchFocus::Local {
            self.say("delete only for local branches");
            return;
        }
        if self.branches.local_cursor >= self.branches.locals.len() {
            return;
        }
        let b = &self.branches.locals[self.branches.local_cursor];
        assert(self.deep_view().branches.locals[self.branches.local_cursor as int]
            == b.deep_view());
        if b.is_head {
            self.say("cannot delete current branch");
            return;
        }
        let name = b.name.clone();
        if force {
            let message = concat3(
                "Force-delete '",
                name.as_str(),
                "' (git branch -D)? Unmerged work will be lost. [y/N]",
            );
            self.ask(
                "Force-delete branch?",
                message,
                ConfirmKind::BranchDelete { name, force },
            );
        } else {
            let message = concat3("Delete branch '", name.as_str(), "'? [y/N]");
            self.ask("Delete branch?", message, ConfirmKind::BranchDelete { name, force });
        }
    }

    fn handle_branches(&mut self, key: Key)
        requires
            old(self).deep_view().in_order(),
        ensures
            final(self).deep_view() == old(self).deep_view().on_branches(key),
            final(self).deep_view().in_order(),
    {
        if let Some(m) = read_move(key.code) {
            self.move_branch_cursor(m);
            return;
        }
        match key.code {
            KeyCode::Char('q') => {
                self.quit = true;
            },
            KeyCode::Tab | KeyCode::BackTab => {
                self.branches.focus = match self.branches.focus {
                    BranchFocus::Local => BranchFocus::Remote,
                    BranchFocus::Remote => BranchFocus::Local,
                };
            },
            KeyCode::Left | KeyCode::Char('h') => {
                self.branches.focus = BranchFocus::Local;
            },
            KeyCode::Right | KeyCode::Char('l') => {
                self.branches.focus = BranchFocus::Remote;
            },
            KeyCode::Enter => self.start_checkout(),
            KeyCode::Char('d') => self.start_branch_delete(false),
            KeyCode::Char('D') => self.start_branch_delete(true),
            KeyCode::Char('n') => {
                self.modal = Modal::NewBranch(NewBranchInput::new());
            },
            KeyCode::Char('r') => self.refresh_branches(),
            _ => {},
        }
    }
}

/// Which files are looked for.
enum Choice<'a> {
    Offending,
    Restore(&'a str),
}

spec fn chosen(c: Choice) -> spec_fn(FileEntryView) -> Option<Seq<char>> {
    match c {
        Choice::Offending => model::offender(),
        Choice::Restore(folder) => model::to_restore(folder@),
    }
}

fn choose_entry(e: &FileEntry, c: &Choice) -> (r: bool)
    ensures
        chosen(*c)(e.deep_view()) == (if r {
            Some(e.path@)
        } else {
            None
        }),
{
    match c {
        Choice::Offending => {
            let staged = match e.index {
                Stage::Added
                | Stage::Modified
                | Stage::Renamed
                | Stage::Copied
                | Stage::TypeChange => true,
                _ => false,
            };
            let raw = match e.lfs_pointer_ok {
                Some(ok) => !ok,
                None => false,
            };
            staged && e.lfs_tracked && raw
        },
        Choice::Restore(folder) => {
            let prefix = concat(folder, "/");
            starts_with(e.path.as_str(), prefix.as_str()) && e.index != Stage::Untracked
                && e.worktree.is_changed()
        },
    }
}

fn choose_paths(entries: &Vec<FileEntry>, c: &Choice) -> (r: Vec<String>)
    ensures
        r.deep_view() == git::kept(entries.deep_view(), chosen(*c)),
{
    let ghost all = entries.deep_view();
    let mut r: Vec<String> = Vec::new();
    let mut i: usize = 0;
    assert(r.deep_view() =~= seq![]);
    while i < entries.len()
        invariant
            i <= entries@.len(),
            all == entries.deep_view(),
            r.deep_view() == git::kept(all.take(i as int), chosen(*c)),
        decreases entries@.len() - i,
    {
        let e = &entries[i];
        let ghost before = r.deep_view();
        proof {
            assert(all.take(i + 1).drop_last() =~= all.take(i as int));
            assert(all.take(i + 1).last() == e.deep_view());
        }
        if choose_entry(e, c) {
            r.push(e.path.clone());
            assert(r.deep_view() =~= before.push(e.path@));
        }
        i += 1;
    }
    assert(all.take(all.len() as int) =~= all);
    r
}

fn has_name(list: &Vec<String>, name: &str) -> (r: bool)
    ensures
        r == list.deep_view().contains(name@),
{
    let ghost all = list.deep_view();
    let mut i: usize = 0;
    while i < list.len()
        invariant
            i <= list@.len(),
            all == list.deep_view(),
            forall|j: int| 0 <= j < i ==> #[trigger] all[j] != name@,
        decreases list@.len() - i,
    {
        if same(list[i].as_str(), name) {
            assert(all[i as int] == name@);
            return true;
        }
        assert(all[i as int] != name@);
        i += 1;
    }
    false
}

impl App {
    fn handle_new_branch(&mut self, n: NewBranchInput, key: Key)
        requires
            old(self).deep_view().in_order(),
        ensures
            final(self).deep_view() == old(self).deep_view().with_modal(ModalView::NewBranch(n.deep_view())).on_new_branch(
                n.deep_view(),
                key,
            ),
            final(self).deep_view().in_order(),
    {
        let mut n = n;
        match key.code {
            KeyCode::Esc => {
                self.modal = Modal::Nothing;
            },
            KeyCode::Enter => {
                let name = trim(n.name.as_str());
                if name.as_str().is_empty() {
                    self.say("branch name required");
                    self.modal = Modal::NewBranch(n);
                } else {
                    self.modal = Modal::Nothing;
                    self.start(concat("creating ", name.as_str()), Job::CreateBranch { name });
                }
            },
            _ => {
                edit(&mut n.name, key);
                self.modal = Modal::NewBranch(n);
            },
        }
    }

    fn do_commit_with(&mut self, c: CommitInput)
        requires
            old(self).deep_view().in_order(),
        ensures
            final(self).deep_view() == old(self).deep_view().committing(c.deep_view()),
            final(self).deep_view().in_order(),
    {
        let subject = c.subject.clone();
        let amend = c.amend;
        self.modal = Modal::Commit(c);
        self.start("committing".to_string(), Job::Commit { subject, amend });
    }

    fn submit_commit(&mut self, c: CommitInput)
        requires
            old(self).deep_view().in_order(),
        ensures
            final(self).deep_view() == old(self).deep_view().with_modal(ModalView::Commit(c.deep_view())).submitted(
                c.deep_view(),
            ),
            final(self).deep_view().in_order(),
    {
        if is_blank(c.subject.as_str()) {
            self.modal = Modal::Commit(c);
            self.say("commit subject required");
            return;
        }
        let offending = choose_paths(&self.entries, &Choice::Offending);
        if offending.len() > 0 {
            let list = join(&offending, "\n  ");
            let message = concat3(
                "Files match LFS pattern but staged as raw blobs:\n  ",
                list.as_str(),
                "\nCommit anyway? [y/N]",
            );
            self.ask("LFS pointer mismatch", message, ConfirmKind::CommitDespiteLfs { pending: c });
        } else {
            self.do_commit_with(c);
        }
    }

    fn handle_commit(&mut self, c: CommitInput, key: Key) -> (r: Option<Job>)
        requires
            old(self).deep_view().in_order(),
        ensures
            (final(self).deep_view(), r.deep_view()) == old(self).deep_view().with_modal(ModalView::Commit(c.deep_view())).on_commit(
                c.deep_view(),
                key,
            ),
            final(self).deep_view().in_order(),
    {
        let mut c = c;
        match (key.code, key.ctrl) {
            (KeyCode::Esc, _) => {
                self.modal = Modal::Nothing;
                None
            },
            (KeyCode::Char('a'), true) => {
                c.amend = !c.amend;
                let ask = c.amend && c.subject.as_str().is_empty();
                self.modal = Modal::Commit(c);
                if ask {
                    Some(Job::LastSubject)
                } else {
                    None
                }
            },
            (KeyCode::Enter, _) | (KeyCode::Char('s'), true) => {
                self.submit_commit(c);
                None
            },
            _ => {
                edit(&mut c.subject, key);
                self.modal = Modal::Commit(c);
                None
            },
        }
    }

    fn do_push(&mut self, remote: String, branch: String, set_upstream: bool)
        requires
            old(self).deep_view().in_order(),
        ensures
            final(self).deep_view() == old(self).deep_view().pushing(
                remote@,
                branch@,
                set_upstream,
            ),
            final(self).deep_view().in_order(),
    {
        self.modal = Modal::Nothing;
        let mut label = concat3("pushing ", branch.as_str(), " → ");
        label.append(remote.as_str());
        self.start(label, Job::Push { remote, branch, set_upstream });
    }

    /// Takes the answer to `Job::FindPushTarget`.
    pub fn push_target_found(&mut self, found: Result<PushTarget, String>)
        requires
            old(self).deep_view().in_order(),
        ensures
            final(self).deep_view() == old(self).deep_view().push_found(git::outcome(found)),
            final(self).deep_view().in_order(),
    {
        match found {
            Err(message) => self.toast(concat("error: ", message.as_str())),
            Ok(PushTarget::NoBranch { message }) => {
                self.toast(concat("no branch: ", message.as_str()))
            },
            Ok(PushTarget::Upstream { upstream, branch }) => {
                let parts = split(upstream.as_str(), '/');
                assert(parts.deep_view()[0] == parts@[0]@);
                self.do_push(parts[0].clone(), branch, false);
            },
            Ok(PushTarget::Remotes { remotes, branch }) => {
                if remotes.len() == 0 {
                    self.say("no remotes configured");
                } else if has_name(&remotes, "origin") {
                    let remote = "origin".to_string();
                    self.modal = Modal::Push(PushDialog::Confirm { remote, branch });
                } else {
                    self.modal = Modal::Push(PushDialog::Pick { remotes, cursor: 0, branch });
                }
            },
        }
    }

    fn handle_push_modal(&mut self, d: PushDialog, key: Key)
        requires
            old(self).deep_view().with_modal(ModalView::Push(d.deep_view())).in_order(),
        ensures
            final(self).deep_view() == old(self).deep_view().with_modal(
                ModalView::Push(d.deep_view()),
            ).on_push(d.deep_view(), key),
            final(self).deep_view().in_order(),
    {
        match d {
            PushDialog::Confirm { remote, branch } => match key.code {
                KeyCode::Esc | KeyCode::Char('n') | KeyCode::Char('N') => {
                    self.modal = Modal::Nothing;
                },
                KeyCode::Char('y') | KeyCode::Char('Y') | KeyCode::Enter => {
                    self.modal = Modal::Push(PushDialog::Running);
                    self.do_push(remote, branch, true);
                },
                _ => {
                    self.modal = Modal::Push(PushDialog::Confirm { remote, branch });
                },
            },
            PushDialog::Pick { remotes, cursor, branch } => match key.code {
                KeyCode::Esc => {
                    self.modal = Modal::Nothing;
                },
                KeyCode::Up | KeyCode::Char('k') => {
                    let cursor: usize = if cursor > 0 {
                        cursor - 1
                    } else {
                        cursor
                    };
                    self.modal = Modal::Push(PushDialog::Pick { remotes, cursor, branch });
                },
                KeyCode::Down | KeyCode::Char('j') => {
                    let last: usize = remotes.len() - 1;
                    let cursor: usize = if cursor < last {
                        cursor + 1
                    } else {
                        cursor
                    };
                    self.modal = Modal::Push(PushDialog::Pick { remotes, cursor, branch });
                },
                KeyCode::Enter => {
                    let remote = remotes[cursor].clone();
                    assert(remotes.deep_view()[cursor as int] == remote@);
                    self.modal = Modal::Push(PushDialog::Confirm { remote, branch });
                },
                _ => {
                    self.modal = Modal::Push(PushDialog::Pick { remotes, cursor, branch });
                },
            },
            PushDialog::Running => {
                self.modal = Modal::Push(PushDialog::Running);
            },
        }
    }

    fn do_confirmed(&mut self, kind: ConfirmKind)
        requires
            old(self).deep_view().in_order(),
        ensures
            final(self).deep_view() == old(self).deep_view().confirmed(kind.deep_view()),
            final(self).deep_view().in_order(),
    {
        self.modal = Modal::Nothing;
        match kind {
            ConfirmKind::Restore { path, is_dir } => {
                let label = concat("restoring ", path.as_str());
                if is_dir {
                    let restore = choose_paths(&self.entries, &Choice::Restore(path.as_str()));
                    self.start(label, Job::RestoreFolder { path, restore });
                } else {
                    self.start(label, Job::Restore { path });
                }
            },
            ConfirmKind::DeleteUntracked { path } => {
                self.start(concat("deleting ", path.as_str()), Job::DeleteUntracked { path })
            },
            ConfirmKind::CommitDespiteLfs { pending } => self.do_commit_with(pending),
            ConfirmKind::StashPop { reference } => {
                self.start(concat("popping ", reference.as_str()), Job::StashPop { reference })
            },
            ConfirmKind::StashDrop { reference } => {
                self.start(concat("dropping ", reference.as_str()), Job::StashDrop { reference })
            },
            ConfirmKind::BranchDelete { name, force } => {
                self.start(concat("deleting ", name.as_str()), Job::DeleteBranch { name, force })
            },
        }
    }

    fn handle_confirm(&mut self, c: ConfirmDialog, key: Key)
        requires
            old(self).deep_view().in_order(),
        ensures
            final(self).deep_view() == old(self).deep_view().with_modal(ModalView::Confirm(c.deep_view())).on_confirm(
                c.deep_view(),
                key,
            ),
            final(self).deep_view().in_order(),
    {
        match key.code {
            KeyCode::Char('y') | KeyCode::Char('Y') => self.do_confirmed(c.kind),
            KeyCode::Esc | KeyCode::Char('n') | KeyCode::Char('N') => {
                self.modal = Modal::Nothing;
            },
            _ => {
                self.modal = Modal::Confirm(c);
            },
        }
    }

    fn switch_tab(&mut self, new_tab: Tab) -> (r: Option<Job>)
        requires
            old(self).deep_view().in_order(),
        ensures
            (final(self).deep_view(), r.deep_view()) == old(self).deep_view().switched(new_tab),
            final(self).deep_view().in_order(),
    {
        if self.tab == new_tab {
            return None;
        }
        self.tab = new_tab;
        match new_tab {
            Tab::Status => {
                self.cursor = 0;
                self.diff_view = DiffView::Hidden;
                self.focus = Focus::Files;
                self.rebuild_rows();
                self.refresh_diff()
            },
            Tab::Stash => {
                if !self.stash.loaded {
                    self.refresh_stash();
                }
                None
            },
            Tab::Log => {
                if !self.log.loaded {
                    self.refresh_log();
                }
                None
            },
            Tab::Branches => {
                if !self.branches.loaded {
                    self.refresh_branches();
                }
                None
            },
        }
    }

    fn handle_view(&mut self, key: Key) -> (r: Option<Job>)
        requires
            old(self).deep_view().in_order(),
        ensures
            (final(self).deep_view(), r.deep_view()) == old(self).deep_view().on_view(key),
            final(self).deep_view().in_order(),
    {
        match key.code {
            KeyCode::Char('1') => {
                return self.switch_tab(Tab::Status);
            },
            KeyCode::Char('2') => {
                return self.switch_tab(Tab::Stash);
            },
            KeyCode::Char('3') => {
                return self.switch_tab(Tab::Log);
            },
            KeyCode::Char('4') => {
                return self.switch_tab(Tab::Branches);
            },
            _ => {},
        }
        match self.tab {
            Tab::Status => match self.focus {
                Focus::Files => self.handle_files(key),
                Focus::Diff => {
                    self.handle_diff(key);
                    None
                },
            },
            Tab::Stash => match self.stash.focus {
                StashFocus::List => self.handle_stash_list(key),
                StashFocus::Details => {
                    self.handle_stash_details(key);
                    None
                },
            },
            Tab::Log => match self.log.focus {
                LogFocus::List => self.handle_log_list(key),
                LogFocus::Details => {
                    self.handle_log_details(key);
                    None
                },
            },
            Tab::Branches => {
                self.handle_branches(key);
                None
            },
        }
    }

    /// Takes a key. What it needs at once is returned as a request.
    pub fn handle_key(&mut self, key: Key) -> (r: Option<Job>)
        requires
            old(self).deep_view().in_order(),
        ensures
            (final(self).deep_view(), r.deep_view()) == old(self).deep_view().on_key(key),
            final(self).deep_view().in_order(),
    {
        if self.pending.is_some() {
            let writing = match &self.modal {
                Modal::Commit(_) | Modal::NewBranch(_) => true,
                _ => false,
            };
            if key.code == KeyCode::Char('q') && !writing {
                self.quit = true;
            }
            return None;
        }
        let mut modal = Modal::Nothing;
        std::mem::swap(&mut modal, &mut self.modal);
        match modal {
            Modal::Nothing => self.handle_view(key),
            Modal::Commit(c) => self.handle_commit(c, key),
            Modal::Push(d) => {
                self.handle_push_modal(d, key);
                None
            },
            Modal::Confirm(c) => {
                self.handle_confirm(c, key);
                None
            },
            Modal::NewBranch(n) => {
                self.handle_new_branch(n, key);
                None
            },
        }
    }
}

fn push_request(list: &mut Vec<Job>, r: Option<Job>)
    ensures
        final(list).deep_view() == old(list).deep_view() + model::requests(r.deep_view()),
{
    match r {
        Some(job) => {
            list.push(job);
            assert(list.deep_view() =~= old(list).deep_view() + seq![job.deep_view()]);
        },
        None => {
            assert(list.deep_view() =~= old(list).deep_view() + seq![]);
        },
    }
}

impl App {
    /// Takes the answer to a request that a key or a background job made.
    pub fn answer(&mut self, job: &Job, found: Result<Answer, String>)
        requires
            old(self).deep_view().in_order(),
        ensures
            final(self).deep_view() == old(self).deep_view().answered(
                job.deep_view(),
                git::outcome(found),
            ),
            final(self).deep_view().in_order(),
    {
        match (job, found) {
            (Job::Diff { .. }, Ok(Answer::Text(t))) => {
                self.diff_text = t;
            },
            (Job::ShowCommit { .. }, Ok(Answer::Text(t))) => {
                self.log.details_text = t;
            },
            (Job::ShowStash { .. }, Ok(Answer::Text(t))) => {
                self.stash.details_text = t;
            },
            (Job::LastSubject, Ok(Answer::Text(t))) => {
                let mut modal = Modal::Nothing;
                std::mem::swap(&mut modal, &mut self.modal);
                self.modal = match modal {
                    Modal::Commit(c) => Modal::Commit(CommitInput { subject: t, amend: c.amend }),
                    other => other,
                };
            },
            (Job::FindPushTarget, Ok(Answer::Push(p))) => self.push_target_found(Ok(p)),
            (Job::FindPushTarget, Err(message)) => self.push_target_found(Err(message)),
            _ => {},
        }
    }

    fn take_entries(&mut self, entries: Vec<FileEntry>)
        requires
            old(self).deep_view().in_order(),
            entries@.len() <= u32::MAX,
        ensures
            final(self).deep_view() == old(self).deep_view().with_entries(entries.deep_view()),
            final(self).deep_view().in_order(),
    {
        if self.cursor < self.rows.len() {
            let path = self.rows[self.cursor].path.clone();
            assert(self.deep_view().rows[self.cursor as int].path == path@);
            self.entries = entries;
            self.rebuild_rows();
            let i = find_row(&self.rows, path.as_str());
            if i < self.rows.len() {
                self.cursor = i;
            } else {
                self.cursor = clamp(self.cursor, self.rows.len());
            }
        } else {
            self.entries = entries;
            self.rebuild_rows();
            self.cursor = 0;
        }
    }

    fn take_status(&mut self, s: StatusSnapshot) -> (r: Option<Job>)
        requires
            old(self).deep_view().in_order(),
            s.entries@.len() <= u32::MAX,
        ensures
            (final(self).deep_view(), r.deep_view()) == old(self).deep_view().with_status(
                s.deep_view(),
            ),
            final(self).deep_view().in_order(),
    {
        self.take_entries(s.entries);
        self.branch = s.branch;
        self.upstream = s.upstream;
        let r = self.refresh_diff();
        self.log.loaded = false;
        self.branches.loaded = false;
        r
    }

    /// Takes the state of the working tree. Where it could not be told nothing
    /// changes, and the reason is returned.
    pub fn refresh(&mut self, found: Result<StatusReport, String>) -> (r: Result<
        Option<Job>,
        String,
    >)
        requires
            old(self).deep_view().in_order(),
            found matches Ok(report) ==> report.snapshot.entries@.len() <= u32::MAX,
        ensures
            match git::outcome(found) {
                Ok(report) => r is Ok && (final(self).deep_view(), r->Ok_0.deep_view()) == old(
                    self,
                ).deep_view().refreshed(report),
                Err(message) => git::outcome(r) == Err::<Option<JobView>, _>(message)
                    && *final(self) == *old(self),
            },
            final(self).deep_view().in_order(),
    {
        let report = match found {
            Ok(report) => report,
            Err(message) => {
                return Err(message);
            },
        };
        if let Some(w) = report.warning {
            self.toast(concat("LFS annotate failed: ", w.as_str()));
        }
        Ok(self.take_status(report.snapshot))
    }

    /// The state at the start, once the state of the working tree has been told.
    /// Where it could not be told there is none, and the reason is returned.
    pub fn new(clock: u64, found: Result<StatusReport, String>) -> (r: Result<
        (App, Option<Job>),
        String,
    >)
        requires
            found matches Ok(report) ==> report.snapshot.entries@.len() <= u32::MAX,
        ensures
            match git::outcome(found) {
                Ok(report) => r is Ok && r->Ok_0.deep_view() == AppView::blank(clock).refreshed(
                    report,
                ) && r->Ok_0.0.deep_view().in_order(),
                Err(message) => git::outcome(r) == Err::<(AppView, Option<JobView>), _>(message),
            },
    {
        let mut app = App {
            tab: Tab::Status,
            entries: Vec::new(),
            rows: Vec::new(),
            cursor: 0,
            collapsed: PathSet::new(),
            focus: Focus::Files,
            diff_view: DiffView::Hidden,
            diff_text: String::new(),
            diff_scroll: 0,
            log: LogState::default(),
            stash: StashState::default(),
            branches: BranchesState::default(),
            modal: Modal::Nothing,
            status_line: None,
            branch: String::new(),
            upstream: None,
            pending: None,
            quit: false,
            clock,
        };
        proof {
            assert(app.entries.deep_view() =~= seq![]);
            assert(app.rows.deep_view() =~= seq![]);
            assert(app.diff_text@ =~= seq![]);
            assert(app.branch@ =~= seq![]);
            assert(app.deep_view() == AppView::blank(clock));
            lemma_no_rows(Set::empty());
        }
        match app.refresh(found) {
            Ok(r) => Ok((app, r)),
            Err(message) => Err(message),
        }
    }

    fn take_log(&mut self, log: Option<Vec<Commit>>) -> (r: Option<Job>)
        requires
            old(self).deep_view().in_order(),
        ensures
            (final(self).deep_view(), r.deep_view()) == old(self).deep_view().took_log(
                log.deep_view(),
            ),
            final(self).deep_view().in_order(),
    {
        match log {
            Some(commits) => {
                self.log.cursor = clamp(self.log.cursor, commits.len());
                self.log.commits = commits;
                self.log.loaded = true;
                self.refresh_log_details()
            },
            None => None,
        }
    }

    fn take_stashes(&mut self, list: Option<Vec<Stash>>) -> (r: Option<Job>)
        requires
            old(self).deep_view().in_order(),
        ensures
            (final(self).deep_view(), r.deep_view()) == old(self).deep_view().took_stashes(
                list.deep_view(),
            ),
            final(self).deep_view().in_order(),
    {
        match list {
            Some(stashes) => {
                self.stash.cursor = clamp(self.stash.cursor, stashes.len());
                self.stash.stashes = stashes;
                self.stash.loaded = true;
                self.refresh_stash_details()
            },
            None => None,
        }
    }

    fn take_branches(&mut self, b: Option<BranchesSnapshot>)
        requires
            old(self).deep_view().in_order(),
        ensures
            final(self).deep_view() == old(self).deep_view().took_branches(b.deep_view()),
            final(self).deep_view().in_order(),
    {
        if let Some(s) = b {
            self.branches.local_cursor = clamp(self.branches.local_cursor, s.locals.len());
            self.branches.remote_cursor = clamp(self.branches.remote_cursor, s.remotes.len());
            self.branches.locals = s.locals;
            self.branches.remotes = s.remotes;
            self.branches.loaded = true;
        }
    }

    /// Takes what a job in the background has brought. What is needed at once to
    /// show it is returned as requests.
    pub fn apply_op(&mut self, done: OpDone) -> (r: Vec<Job>)
        requires
            old(self).deep_view().in_order(),
            done.status matches Some(s) ==> s.entries@.len() <= u32::MAX,
        ensures
            (final(self).deep_view(), r.deep_view()) == old(self).deep_view().applied(
                done.deep_view(),
            ),
            final(self).deep_view().in_order(),
    {
        let mut r: Vec<Job> = Vec::new();
        assert(r.deep_view() =~= seq![]);
        let first = match done.status {
            Some(s) => {
                if let Modal::Commit(_) = self.modal {
                    self.modal = Modal::Nothing;
                }
                self.take_status(s)
            },
            None => None,
        };
        push_request(&mut r, first);
        let second = self.take_log(done.log);
        push_request(&mut r, second);
        let third = self.take_stashes(done.stashes);
        push_request(&mut r, third);
        self.take_branches(done.branches);
        if let Some(t) = done.toast {
            self.toast(t);
        }
        r
    }

    /// Takes what has come of the job in the background. What is needed at once to
    /// show it is returned as requests.
    pub fn poll(&mut self, p: Polled) -> (r: Vec<Job>)
        requires
            old(self).deep_view().in_order(),
            p matches Polled::Done(Ok(done)) ==> (done.status matches Some(s)
                ==> s.entries@.len() <= u32::MAX),
        ensures
            (final(self).deep_view(), r.deep_view()) == old(self).deep_view().polled(
                p.deep_view(),
            ),
            final(self).deep_view().in_order(),
    {
        let none: Vec<Job> = Vec::new();
        assert(none.deep_view() =~= seq![]);
        if self.pending.is_none() {
            return none;
        }
        match p {
            Polled::Running => none,
            Polled::Done(Ok(done)) => {
                self.pending = None;
                self.apply_op(done)
            },
            Polled::Done(Err(message)) => {
                self.pending = None;
                self.toast(concat("error: ", message.as_str()));
                none
            },
            Polled::Disconnected => {
                self.pending = None;
                self.say("worker disconnected");
                none
            },
        }
    }
}

/// Without entries there are no rows.
proof fn lemma_no_rows(collapsed: Set<Seq<char>>)
    ensures
        model::both_rows(seq![], collapsed) == Seq::<RowView>::empty(),
{
    rows::law_nothing_shown(collapsed, Side::Unstaged);
    rows::law_nothing_shown(collapsed, Side::Staged);
}

} // verus!
