//! What git is asked, and what its answers mean.
//!
//! For every call of git there is a function that gives its arguments (`.._args`)
//! and one that reads the reply. The arguments themselves are stated by the spec
//! functions whose names end in `_call`.

use crate::outside::{self, debug_text, lossy_text, utf8_text};
use crate::text::{
    self, after_prefix, concat, concat3, contains, ends_with, is_blank, number, parse_number, same,
    split, split_first, split_lines, split_n, starts_with, strip, trim, words,
};
use vstd::hash_map::StringHashMap;
use vstd::prelude::*;
use vstd::utf8;

verus! {

/// The outcome of a call, its parts taken by their views.
pub open spec fn outcome<T: DeepView, E: DeepView>(r: Result<T, E>) -> Result<T::V, E::V> {
    match r {
        Ok(t) => Ok(t.deep_view()),
        Err(e) => Err(e.deep_view()),
    }
}

// ---------------------------------------------------------------------------
// Files

/// What happened to a file on one side of the index.
#[derive(Debug, Clone, Copy, PartialEq, Eq, Structural)]
pub enum Stage {
    Unmodified,
    Modified,
    Added,
    Deleted,
    Renamed,
    Copied,
    Untracked,
    Ignored,
    TypeChange,
    Conflicted,
}

impl Stage {
    /// The stage that a status letter stands for.
    pub open spec fn of_letter(c: char) -> Stage {
        match c {
            'M' => Stage::Modified,
            'A' => Stage::Added,
            'D' => Stage::Deleted,
            'R' => Stage::Renamed,
            'C' => Stage::Copied,
            'T' => Stage::TypeChange,
            'U' => Stage::Conflicted,
            '?' => Stage::Untracked,
            '!' => Stage::Ignored,
            _ => Stage::Unmodified,
        }
    }

    /// Reads a status letter.
    pub fn from_xy(c: char) -> (s: Self)
        ensures
            s == Stage::of_letter(c),
    {
        match c {
            'M' => Stage::Modified,
            'A' => Stage::Added,
            'D' => Stage::Deleted,
            'R' => Stage::Renamed,
            'C' => Stage::Copied,
            'T' => Stage::TypeChange,
            'U' => Stage::Conflicted,
            '?' => Stage::Untracked,
            '!' => Stage::Ignored,
            _ => Stage::Unmodified,
        }
    }

    /// Whether anything happened.
    pub fn is_changed(self) -> (r: bool)
        ensures
            r == (self != Stage::Unmodified),
    {
        self != Stage::Unmodified
    }
}

/// Where the content of a file is kept.
#[derive(Debug, Clone, Copy, PartialEq, Eq, Structural)]
pub enum StorageMode {
    Git,
    Lfs,
}

impl DeepView for Stage {
    type V = Stage;

    open spec fn deep_view(&self) -> Stage {
        *self
    }
}

impl DeepView for StorageMode {
    type V = StorageMode;

    open spec fn deep_view(&self) -> StorageMode {
        *self
    }
}

/// A changed file.
#[derive(Debug)]
pub struct FileEntry {
    pub path: String,
    pub index: Stage,
    pub worktree: Stage,
    pub lfs_tracked: bool,
    pub lfs_pointer_ok: Option<bool>,
    pub prev_storage: Option<StorageMode>,
    pub next_storage: Option<StorageMode>,
}

/// The view of a `FileEntry`.
pub struct FileEntryView {
    pub path: Seq<char>,
    pub index: Stage,
    pub worktree: Stage,
    pub lfs_tracked: bool,
    pub lfs_pointer_ok: Option<bool>,
    pub prev_storage: Option<StorageMode>,
    pub next_storage: Option<StorageMode>,
}

impl DeepView for FileEntry {
    type V = FileEntryView;

    open spec fn deep_view(&self) -> FileEntryView {
        FileEntryView {
            path: self.path@,
            index: self.index,
            worktree: self.worktree,
            lfs_tracked: self.lfs_tracked,
            lfs_pointer_ok: self.lfs_pointer_ok,
            prev_storage: self.prev_storage,
            next_storage: self.next_storage,
        }
    }
}

impl FileEntryView {
    /// Whether the index holds a change of the file.
    pub open spec fn staged(self) -> bool {
        self.index != Stage::Unmodified && self.index != Stage::Untracked
    }

    /// Whether the file belongs in the unstaged tree.
    pub open spec fn unstaged_side(self) -> bool {
        ||| self.index == Stage::Untracked
        ||| self.index == Stage::Conflicted
        ||| self.worktree != Stage::Unmodified && self.worktree != Stage::Untracked
    }

    /// Whether the file belongs in the staged tree.
    pub open spec fn staged_side(self) -> bool {
        &&& self.index != Stage::Unmodified
        &&& self.index != Stage::Untracked
        &&& self.index != Stage::Conflicted
    }

    /// A file as the status lists it, before anything is known of its storage.
    pub open spec fn plain(path: Seq<char>, index: Stage, worktree: Stage) -> FileEntryView {
        FileEntryView {
            path,
            index,
            worktree,
            lfs_tracked: false,
            lfs_pointer_ok: None,
            prev_storage: None,
            next_storage: None,
        }
    }
}

impl Clone for FileEntry {
    fn clone(&self) -> (e: FileEntry)
        ensures
            e.deep_view() == self.deep_view(),
    {
        FileEntry {
            path: self.path.clone(),
            index: self.index,
            worktree: self.worktree,
            lfs_tracked: self.lfs_tracked,
            lfs_pointer_ok: self.lfs_pointer_ok,
            prev_storage: self.prev_storage,
            next_storage: self.next_storage,
        }
    }
}

impl FileEntry {
    /// Whether the index holds a change of the file.
    pub fn has_staged(&self) -> (r: bool)
        ensures
            r == self.deep_view().staged(),
    {
        self.index.is_changed() && self.index != Stage::Untracked
    }

    /// Belongs in the unstaged tree: untracked, conflicted, or has working-tree changes.
    pub fn in_unstaged(&self) -> (r: bool)
        ensures
            r == self.deep_view().unstaged_side(),
    {
        self.index == Stage::Untracked || self.index == Stage::Conflicted || (
        self.worktree.is_changed() && self.worktree != Stage::Untracked)
    }

    /// Belongs in the staged tree: has index changes (but is not merely untracked/conflicted).
    pub fn in_staged(&self) -> (r: bool)
        ensures
            r == self.deep_view().staged_side(),
    {
        self.index.is_changed() && self.index != Stage::Untracked && self.index
            != Stage::Conflicted
    }

    fn plain(path: String, index: Stage, worktree: Stage) -> (e: FileEntry)
        ensures
            e.deep_view() == FileEntryView::plain(path@, index, worktree),
    {
        FileEntry {
            path,
            index,
            worktree,
            lfs_tracked: false,
            lfs_pointer_ok: None,
            prev_storage: None,
            next_storage: None,
        }
    }
}

// ---------------------------------------------------------------------------
// Replies and errors

/// What came of one call of git.
#[derive(Debug, Clone)]
pub enum Reply {
    /// The program could not be run.
    NotStarted,
    /// The program was started, and talking to it failed with this message.
    Broken(String),
    /// The program ended.
    Exited { success: bool, stdout: Vec<u8>, stderr: Vec<u8> },
}

/// The view of a `Reply`.
pub enum ReplyView {
    NotStarted,
    Broken(Seq<char>),
    Exited { success: bool, stdout: Seq<u8>, stderr: Seq<u8> },
}

impl DeepView for Reply {
    type V = ReplyView;

    open spec fn deep_view(&self) -> ReplyView {
        match *self {
            Reply::NotStarted => ReplyView::NotStarted,
            Reply::Broken(m) => ReplyView::Broken(m@),
            Reply::Exited { success, stdout, stderr } => ReplyView::Exited {
                success,
                stdout: stdout@,
                stderr: stderr@,
            },
        }
    }
}

/// The kinds of status records whose fields are counted.
#[derive(Debug, Clone, Copy, PartialEq, Eq, Structural)]
pub enum RecordKind {
    Ordinary,
    Rename,
    Unmerged,
}

/// Why a call of git gave no result.
#[derive(Debug, Clone)]
pub enum GitError {
    /// git could not be run with these arguments.
    Spawn { args: Vec<String> },
    /// git was run with these arguments and failed; what it wrote to its error output.
    Failed { args: Vec<String>, stderr: String },
    /// A status record that is not UTF-8.
    NotUtf8,
    /// A status record with too few fields.
    Malformed { kind: RecordKind, record: String },
    /// `git check-attr` could not be run.
    SpawnAttr,
    /// Talking to `git check-attr` failed.
    AttrBroken(String),
    /// `git check-attr` failed.
    AttrFailed(String),
    /// `git push` could not be run.
    SpawnPush,
    /// `git push` failed.
    PushFailed(String),
    /// A file could not be removed.
    Remove { path: String },
}

/// The view of a `GitError`.
pub enum GitErrorView {
    Spawn { args: Seq<Seq<char>> },
    Failed { args: Seq<Seq<char>>, stderr: Seq<char> },
    NotUtf8,
    Malformed { kind: RecordKind, record: Seq<char> },
    SpawnAttr,
    AttrBroken(Seq<char>),
    AttrFailed(Seq<char>),
    SpawnPush,
    PushFailed(Seq<char>),
    Remove { path: Seq<char> },
}

impl DeepView for GitError {
    type V = GitErrorView;

    open spec fn deep_view(&self) -> GitErrorView {
        match *self {
            GitError::Spawn { args } => GitErrorView::Spawn { args: args.deep_view() },
            GitError::Failed { args, stderr } => GitErrorView::Failed {
                args: args.deep_view(),
                stderr: stderr@,
            },
            GitError::NotUtf8 => GitErrorView::NotUtf8,
            GitError::Malformed { kind, record } => GitErrorView::Malformed {
                kind,
                record: record@,
            },
            GitError::SpawnAttr => GitErrorView::SpawnAttr,
            GitError::AttrBroken(m) => GitErrorView::AttrBroken(m@),
            GitError::AttrFailed(m) => GitErrorView::AttrFailed(m@),
            GitError::SpawnPush => GitErrorView::SpawnPush,
            GitError::PushFailed(m) => GitErrorView::PushFailed(m@),
            GitError::Remove { path } => GitErrorView::Remove { path: path@ },
        }
    }
}

impl GitErrorView {
    /// The message shown for the error.
    pub open spec fn text(self) -> Seq<char> {
        match self {
            GitErrorView::Spawn { args } => "spawning git "@ + outside::debug_list(args),
            GitErrorView::Failed { args, stderr } => "git "@ + outside::debug_list(args) + " failed: "@
                + text::trimmed(stderr),
            GitErrorView::NotUtf8 => "non-utf8 status record"@,
            GitErrorView::Malformed { kind: RecordKind::Ordinary, record } =>
                "malformed v2 record: "@ + record,
            GitErrorView::Malformed { kind: RecordKind::Rename, record } =>
                "malformed v2 rename record: "@ + record,
            GitErrorView::Malformed { kind: RecordKind::Unmerged, record } =>
                "malformed v2 unmerged record: "@ + record,
            GitErrorView::SpawnAttr => "spawning git check-attr"@,
            GitErrorView::AttrBroken(m) => m,
            GitErrorView::AttrFailed(m) => "git check-attr failed: "@ + text::trimmed(m),
            GitErrorView::SpawnPush => "spawning git push"@,
            GitErrorView::PushFailed(m) => "push failed: "@ + text::trimmed(m),
            GitErrorView::Remove { path } => "removing "@ + path,
        }
    }
}

impl GitError {
    /// The message shown for the error.
    pub fn message(&self) -> (r: String)
        ensures
            r@ == self.deep_view().text(),
    {
        match self {
            GitError::Spawn { args } => {
                let shown = debug_text(args);
                assert(args.deep_view() =~= Seq::new(args@.len(), |i: int| args@[i]@));
                concat("spawning git ", shown.as_str())
            },
            GitError::Failed { args, stderr } => {
                let shown = debug_text(args);
                assert(args.deep_view() =~= Seq::new(args@.len(), |i: int| args@[i]@));
                let mut r = concat3("git ", shown.as_str(), " failed: ");
                r.append(trim(stderr.as_str()).as_str());
                r
            },
            GitError::NotUtf8 => "non-utf8 status record".to_string(),
            GitError::Malformed { kind, record } => match kind {
                RecordKind::Ordinary => concat("malformed v2 record: ", record.as_str()),
                RecordKind::Rename => concat("malformed v2 rename record: ", record.as_str()),
                RecordKind::Unmerged => concat("malformed v2 unmerged record: ", record.as_str()),
            },
            GitError::SpawnAttr => "spawning git check-attr".to_string(),
            GitError::AttrBroken(m) => m.clone(),
            GitError::AttrFailed(m) => concat("git check-attr failed: ", trim(m.as_str()).as_str()),
            GitError::SpawnPush => "spawning git push".to_string(),
            GitError::PushFailed(m) => concat("push failed: ", trim(m.as_str()).as_str()),
            GitError::Remove { path } => concat("removing ", path.as_str()),
        }
    }
}

// ---------------------------------------------------------------------------
// Running git

/// What a call that has to succeed gives: its output.
pub open spec fn ran(args: Seq<Seq<char>>, reply: ReplyView) -> Result<Seq<char>, GitErrorView> {
    match reply {
        ReplyView::Exited { success, stdout, stderr } => if success {
            Ok(outside::lossy(stdout))
        } else {
            Err(GitErrorView::Failed { args, stderr: outside::lossy(stderr) })
        },
        _ => Err(GitErrorView::Spawn { args }),
    }
}

/// What a call that may fail gives: its output where it succeeded.
pub open spec fn tried(args: Seq<Seq<char>>, reply: ReplyView) -> Result<
    Option<Seq<char>>,
    GitErrorView,
> {
    match reply {
        ReplyView::Exited { success, stdout, stderr } => if success {
            Ok(Some(outside::lossy(stdout)))
        } else {
            Ok(None)
        },
        _ => Err(GitErrorView::Spawn { args }),
    }
}

/// A result of which only the success counts.
pub open spec fn done<T>(r: Result<T, GitErrorView>) -> Result<(), GitErrorView> {
    match r {
        Ok(_) => Ok(()),
        Err(e) => Err(e),
    }
}

/// A result with the white space around it removed.
pub open spec fn tidy(r: Result<Seq<char>, GitErrorView>) -> Result<Seq<char>, GitErrorView> {
    match r {
        Ok(s) => Ok(text::trimmed(s)),
        Err(e) => Err(e),
    }
}

/// Reads the reply to a call that has to succeed.
pub fn run(args: Vec<String>, reply: &Reply) -> (r: Result<String, GitError>)
    ensures
        outcome(r) == ran(args.deep_view(), reply.deep_view()),
{
    match reply {
        Reply::Exited { success, stdout, stderr } => {
            if *success {
                Ok(lossy_text(stdout.as_slice()))
            } else {
                Err(GitError::Failed { args, stderr: lossy_text(stderr.as_slice()) })
            }
        },
        _ => Err(GitError::Spawn { args }),
    }
}

/// Reads the reply to a call that may fail.
pub fn run_try(args: Vec<String>, reply: &Reply) -> (r: Result<Option<String>, GitError>)
    ensures
        outcome(r) == tried(args.deep_view(), reply.deep_view()),
{
    match reply {
        Reply::Exited { success, stdout, stderr } => {
            if *success {
                Ok(Some(lossy_text(stdout.as_slice())))
            } else {
                Ok(None)
            }
        },
        _ => Err(GitError::Spawn { args }),
    }
}

fn run_only(args: Vec<String>, reply: &Reply) -> (r: Result<(), GitError>)
    ensures
        outcome(r) == done(ran(args.deep_view(), reply.deep_view())),
{
    match run(args, reply) {
        Ok(_) => Ok(()),
        Err(e) => Err(e),
    }
}

fn run_tidy(args: Vec<String>, reply: &Reply) -> (r: Result<String, GitError>)
    ensures
        outcome(r) == tidy(ran(args.deep_view(), reply.deep_view())),
{
    match run(args, reply) {
        Ok(s) => Ok(trim(s.as_str())),
        Err(e) => Err(e),
    }
}

// ---------------------------------------------------------------------------
// The repository

/// Asks for the top of the working tree.
pub open spec fn root_call() -> Seq<Seq<char>> {
    seq!["rev-parse"@, "--show-toplevel"@]
}

/// The arguments that ask for the top of the working tree.
pub fn repo_root_args() -> (r: Vec<String>)
    ensures
        r.deep_view() == root_call(),
{
    let r = words(&["rev-parse", "--show-toplevel"]);
    assert(r.deep_view() =~= root_call());
    r
}

/// The top of the working tree.
pub fn repo_root(reply: &Reply) -> (r: Result<String, GitError>)
    ensures
        outcome(r) == tidy(ran(root_call(), reply.deep_view())),
{
    run_tidy(repo_root_args(), reply)
}

/// Asks for the name of the current branch.
pub open spec fn branch_call() -> Seq<Seq<char>> {
    seq!["symbolic-ref"@, "--short"@, "HEAD"@]
}

/// The arguments that ask for the name of the current branch.
pub fn current_branch_args() -> (r: Vec<String>)
    ensures
        r.deep_view() == branch_call(),
{
    let r = words(&["symbolic-ref", "--short", "HEAD"]);
    assert(r.deep_view() =~= branch_call());
    r
}

/// The name of the current branch.
pub fn current_branch(reply: &Reply) -> (r: Result<String, GitError>)
    ensures
        outcome(r) == tidy(ran(branch_call(), reply.deep_view())),
{
    run_tidy(current_branch_args(), reply)
}

/// Asks for the upstream of the current branch.
pub open spec fn upstream_call() -> Seq<Seq<char>> {
    seq!["rev-parse"@, "--abbrev-ref"@, "--symbolic-full-name"@, "@{u}"@]
}

/// The arguments that ask for the upstream of the current branch.
pub fn upstream_args() -> (r: Vec<String>)
    ensures
        r.deep_view() == upstream_call(),
{
    let r = words(&["rev-parse", "--abbrev-ref", "--symbolic-full-name", "@{u}"]);
    assert(r.deep_view() =~= upstream_call());
    r
}

/// The upstream that a reply names, if there is one.
pub open spec fn upstream_of(reply: ReplyView) -> Result<Option<Seq<char>>, GitErrorView> {
    match tried(upstream_call(), reply) {
        Ok(Some(s)) => Ok(Some(text::trimmed(s))),
        Ok(None) => Ok(None),
        Err(e) => Err(e),
    }
}

/// The upstream of the current branch, if there is one.
pub fn upstream(reply: &Reply) -> (r: Result<Option<String>, GitError>)
    ensures
        outcome(r) == upstream_of(reply.deep_view()),
{
    match run_try(upstream_args(), reply) {
        Ok(Some(s)) => Ok(Some(trim(s.as_str()))),
        Ok(None) => Ok(None),
        Err(e) => Err(e),
    }
}

/// What is kept of the items of a list, in their order.
pub open spec fn kept<S, T>(list: Seq<S>, read: spec_fn(S) -> Option<T>) -> Seq<T>
    decreases list.len(),
{
    if list.len() == 0 {
        seq![]
    } else {
        let before = kept(list.drop_last(), read);
        match read(list.last()) {
            Some(t) => before.push(t),
            None => before,
        }
    }
}

/// The lines of a successful call's output, as far as they can be read.
pub open spec fn read_lines<T>(
    output: Result<Seq<char>, GitErrorView>,
    read: spec_fn(Seq<char>) -> Option<T>,
) -> Result<Seq<T>, GitErrorView> {
    match output {
        Ok(s) => Ok(kept(text::lines(s), read)),
        Err(e) => Err(e),
    }
}

/// The output of a call that may fail; nothing where it did.
pub open spec fn or_empty(r: Result<Option<Seq<char>>, GitErrorView>) -> Result<
    Seq<char>,
    GitErrorView,
> {
    match r {
        Ok(Some(s)) => Ok(s),
        Ok(None) => Ok(seq![]),
        Err(e) => Err(e),
    }
}

fn run_or_empty(args: Vec<String>, reply: &Reply) -> (r: Result<String, GitError>)
    ensures
        outcome(r) == or_empty(tried(args.deep_view(), reply.deep_view())),
{
    match run_try(args, reply) {
        Ok(Some(s)) => Ok(s),
        Ok(None) => Ok(String::new()),
        Err(e) => Err(e),
    }
}

/// Asks for the names of the remotes.
pub open spec fn remotes_call() -> Seq<Seq<char>> {
    seq!["remote"@]
}

/// The arguments that ask for the names of the remotes.
pub fn remotes_args() -> (r: Vec<String>)
    ensures
        r.deep_view() == remotes_call(),
{
    let r = words(&["remote"]);
    assert(r.deep_view() =~= remotes_call());
    r
}

/// Reads a line as the name of a remote.
pub open spec fn remote_name() -> spec_fn(Seq<char>) -> Option<Seq<char>> {
    |line: Seq<char>|
        if text::blank(line) {
            None
        } else {
            Some(text::trimmed(line))
        }
}

/// The names of the remotes.
pub fn remotes(reply: &Reply) -> (r: Result<Vec<String>, GitError>)
    ensures
        outcome(r) == read_lines(ran(remotes_call(), reply.deep_view()), remote_name()),
{
    match run(remotes_args(), reply) {
        Ok(s) => {
            let list = split_lines(s.as_str());
            let ghost all = list.deep_view();
            let mut r: Vec<String> = Vec::new();
            let mut i: usize = 0;
            while i < list.len()
                invariant
                    i <= list@.len(),
                    all == list.deep_view(),
                    r.deep_view() == kept(all.take(i as int), remote_name()),
                decreases list@.len() - i,
            {
                assert(all.take(i + 1).drop_last() =~= all.take(i as int));
                let ghost before = r.deep_view();
                let name = trim(list[i].as_str());
                if !name.as_str().is_empty() {
                    r.push(name);
                    assert(r.deep_view() =~= before.push(name@));
                }
                i += 1;
            }
            assert(all.take(all.len() as int) =~= all);
            Ok(r)
        },
        Err(e) => Err(e),
    }
}

// ---------------------------------------------------------------------------
// The status

/// Asks for the status of the working tree.
pub open spec fn status_call() -> Seq<Seq<char>> {
    seq!["status"@, "--porcelain=v2"@, "-z"@, "--untracked-files=all"@]
}

/// The arguments that ask for the status of the working tree.
pub fn status_args() -> (r: Vec<String>)
    ensures
        r.deep_view() == status_call(),
{
    let r = words(&["status", "--porcelain=v2", "-z", "--untracked-files=all"]);
    assert(r.deep_view() =~= status_call());
    r
}

/// The place of the first zero byte, or the length where there is none.
pub open spec fn first_zero(data: Seq<u8>) -> int
    decreases data.len(),
{
    if data.len() == 0 || data[0] == 0 {
        0
    } else {
        1 + first_zero(data.skip(1))
    }
}

/// `first_zero` is the least index that holds a zero.
pub proof fn lemma_first_zero(data: Seq<u8>)
    ensures
        0 <= first_zero(data) <= data.len(),
        forall|j: int| 0 <= j < first_zero(data) ==> data[j] != 0,
        first_zero(data) < data.len() ==> data[first_zero(data)] == 0,
    decreases data.len(),
{
    if data.len() > 0 && data[0] != 0 {
        lemma_first_zero(data.skip(1));
        assert forall|j: int| 0 <= j < first_zero(data) implies data[j] != 0 by {
            if j > 0 {
                assert(data.skip(1)[j - 1] == data[j]);
            }
        }
    }
}

/// What follows the first zero byte.
pub open spec fn behind_zero(data: Seq<u8>) -> Seq<u8> {
    if first_zero(data) < data.len() {
        data.skip(first_zero(data) + 1)
    } else {
        seq![]
    }
}

/// The letter at a place of a status field; a missing one counts as unmodified.
pub open spec fn letter(field: Seq<char>, i: int) -> char {
    if i < field.len() {
        field[i]
    } else {
        '.'
    }
}

/// What a status record says.
pub enum Record {
    /// Nothing about a changed file.
    Skip,
    /// A changed file.
    Entry(FileEntryView),
    /// A changed file, with its former path in the next record.
    Renamed(FileEntryView),
    /// Too few fields.
    Bad(GitErrorView),
    /// An untracked file without the blank before its path.
    Unreadable,
}

/// The file that a record with `n` fields lists: the second field holds its
/// letters, the last one its path.
pub open spec fn listed(record: Seq<char>, n: nat, kind: RecordKind) -> Result<
    FileEntryView,
    GitErrorView,
> {
    let fields = text::first_parts(record, ' ', n);
    if fields.len() < n {
        Err(GitErrorView::Malformed { kind, record })
    } else {
        Ok(
            FileEntryView::plain(
                fields[n - 1],
                Stage::of_letter(letter(fields[1], 0)),
                Stage::of_letter(letter(fields[1], 1)),
            ),
        )
    }
}

/// Reads one status record; `kind` is its first byte.
pub open spec fn read_record(kind: u8, record: Seq<char>) -> Record {
    if kind == 49 {
        match listed(record, 9, RecordKind::Ordinary) {
            Ok(e) => Record::Entry(e),
            Err(e) => Record::Bad(e),
        }
    } else if kind == 50 {
        match listed(record, 10, RecordKind::Rename) {
            Ok(e) => Record::Renamed(e),
            Err(e) => Record::Bad(e),
        }
    } else if kind == 63 {
        if record.len() >= 2 && ('\u{7f}' >= record[1]) {
            Record::Entry(
                FileEntryView::plain(record.skip(2), Stage::Untracked, Stage::Untracked),
            )
        } else {
            Record::Unreadable
        }
    } else if kind == 117 {
        match listed(record, 11, RecordKind::Unmerged) {
            Ok(e) => Record::Entry(
                FileEntryView::plain(e.path, Stage::Conflicted, Stage::Conflicted),
            ),
            Err(e) => Record::Bad(e),
        }
    } else {
        Record::Skip
    }
}

/// A list of files in front of what a later part of the status gives.
pub open spec fn ahead_of(
    list: Seq<FileEntryView>,
    rest: Option<Result<Seq<FileEntryView>, GitErrorView>>,
) -> Option<Result<Seq<FileEntryView>, GitErrorView>> {
    match rest {
        Some(Ok(more)) => Some(Ok(list + more)),
        other => other,
    }
}

/// The files that a status in the porcelain format, version 2, lists. Its
/// records end with a zero byte. The first record that is not UTF-8 or has too
/// few fields is an error. `None`: an untracked file comes without its path, or
/// the status breaks off between a renamed file and its former path.
pub open spec fn porcelain(data: Seq<u8>) -> Option<Result<Seq<FileEntryView>, GitErrorView>>
    decreases data.len(),
{
    proof {
        lemma_first_zero(data);
        lemma_first_zero(behind_zero(data));
    }
    let record = data.take(first_zero(data));
    if data.len() == 0 {
        Some(Ok(seq![]))
    } else if record.len() == 0 {
        porcelain(behind_zero(data))
    } else if !utf8::valid_utf8(record) {
        Some(Err(GitErrorView::NotUtf8))
    } else {
        match read_record(record[0], utf8::decode_utf8(record)) {
            Record::Skip => porcelain(behind_zero(data)),
            Record::Entry(e) => ahead_of(seq![e], porcelain(behind_zero(data))),
            Record::Renamed(e) => if first_zero(data) < data.len() {
                ahead_of(seq![e], porcelain(behind_zero(behind_zero(data))))
            } else {
                None
            },
            Record::Bad(e) => Some(Err(e)),
            Record::Unreadable => None,
        }
    }
}

/// The first zero byte at or behind `from`.
fn zero_from(data: &[u8], from: usize) -> (i: usize)
    requires
        from <= data@.len(),
    ensures
        i == from + first_zero(data@.skip(from as int)),
        from <= i <= data@.len(),
{
    let n: usize = data.len();
    let mut i: usize = from;
    while i < n && data[i] != 0
        invariant
            n == data@.len(),
            from <= i <= n,
            forall|j: int| from <= j < i ==> data@[j] != 0,
        decreases n - i,
    {
        i += 1;
    }
    proof {
        let s = data@.skip(from as int);
        lemma_first_zero(s);
        let f = first_zero(s);
        if f < i - from {
            assert(s[f] == data@[from + f]);
        }
        if i - from < f {
            assert(s[i - from] == data@[i as int]);
        }
    }
    i
}

fn letter_of(field: &str, i: usize) -> (c: char)
    ensures
        c == letter(field@, i as int),
{
    let v = text::chars_of(field);
    if i < v.len() {
        v[i]
    } else {
        '.'
    }
}

fn listed_file(record: &str, n: usize, kind: RecordKind) -> (r: Result<FileEntry, GitError>)
    requires
        n >= 2,
    ensures
        outcome(r) == listed(record@, n as nat, kind),
{
    let mut fields = split_n(record, ' ', n);
    let ghost all = fields.deep_view();
    proof {
        text::lemma_first_parts_len(record@, ' ', n as nat);
    }
    if fields.len() < n {
        return Err(GitError::Malformed { kind, record: record.to_string() });
    }
    let x = letter_of(fields[1].as_str(), 0);
    let y = letter_of(fields[1].as_str(), 1);
    let path = fields[n - 1].clone();
    assert(all[1] == fields@[1]@);
    assert(all[n - 1] == path@);
    Ok(FileEntry::plain(path, Stage::from_xy(x), Stage::from_xy(y)))
}

/// Reads a status in the porcelain format, version 2.
pub fn parse_porcelain_v2(data: &[u8]) -> (r: Option<Result<Vec<FileEntry>, GitError>>)
    ensures
        match r {
            Some(read) => porcelain(data@) == Some(outcome(read)),
            None => porcelain(data@) is None,
        },
{
    let n: usize = data.len();
    let mut entries: Vec<FileEntry> = Vec::new();
    let mut i: usize = 0;
    assert(data@.skip(0) =~= data@);
    assert(ahead_of(seq![], porcelain(data@)) == porcelain(data@)) by {
        if let Some(Ok(more)) = porcelain(data@) {
            assert(Seq::<FileEntryView>::empty() + more =~= more);
        }
    }
    assert(entries.deep_view() =~= seq![]);
    while i < n
        invariant
            n == data@.len(),
            i <= n,
            porcelain(data@) == ahead_of(entries.deep_view(), porcelain(data@.skip(i as int))),
        decreases n - i,
    {
        let end: usize = zero_from(data, i);
        let ghost rest = data@.skip(i as int);
        let ghost before = entries.deep_view();
        proof {
            lemma_first_zero(rest);
            assert(rest.take(end - i) =~= data@.subrange(i as int, end as int));
        }
        let next: usize = if end < n { end + 1 } else { n };
        assert(data@.skip(next as int) =~= behind_zero(rest));
        if end == i {
            i = next;
            continue;
        }
        let record = &data[i..end];
        let kind: u8 = record[0];
        let line = match utf8_text(record) {
            Some(t) => t,
            None => {
                return Some(Err(GitError::NotUtf8));
            },
        };
        if kind == 49 || kind == 117 {
            let form = if kind == 49 { RecordKind::Ordinary } else { RecordKind::Unmerged };
            let count: usize = if kind == 49 { 9 } else { 11 };
            match listed_file(line.as_str(), count, form) {
                Err(e) => {
                    return Some(Err(e));
                },
                Ok(e) => {
                    let e = if kind == 49 {
                        e
                    } else {
                        FileEntry::plain(e.path, Stage::Conflicted, Stage::Conflicted)
                    };
                    entries.push(e);
                    proof {
                        lemma_ahead_of(before, e.deep_view(), porcelain(behind_zero(rest)));
                        assert(entries.deep_view() =~= before.push(e.deep_view()));
                    }
                },
            }
            i = next;
        } else if kind == 50 {
            match listed_file(line.as_str(), 10, RecordKind::Rename) {
                Err(e) => {
                    return Some(Err(e));
                },
                Ok(e) => {
                    if end == n {
                        return None;
                    }
                    let orig_end: usize = zero_from(data, end + 1);
                    let ghost tail = behind_zero(rest);
                    entries.push(e);
                    proof {
                        lemma_first_zero(tail);
                        lemma_ahead_of(before, e.deep_view(), porcelain(behind_zero(tail)));
                        assert(entries.deep_view() =~= before.push(e.deep_view()));
                    }
                    i = if orig_end < n { orig_end + 1 } else { n };
                    assert(data@.skip(i as int) =~= behind_zero(tail));
                },
            }
        } else if kind == 63 {
            let v = text::chars_of(line.as_str());
            if v.len() >= 2 && ('\u{7f}' >= v[1]) {
                let path = text::piece(&v, 2, v.len());
                assert(path@ =~= line@.skip(2));
                let e = FileEntry::plain(path, Stage::Untracked, Stage::Untracked);
                entries.push(e);
                proof {
                    lemma_ahead_of(before, e.deep_view(), porcelain(behind_zero(rest)));
                    assert(entries.deep_view() =~= before.push(e.deep_view()));
                }
                i = next;
            } else {
                return None;
            }
        } else {
            i = next;
        }
    }
    assert(data@.skip(n as int) =~= seq![]);
    assert(entries.deep_view() + Seq::<FileEntryView>::empty() =~= entries.deep_view());
    Some(Ok(entries))
}

proof fn lemma_ahead_of(
    before: Seq<FileEntryView>,
    e: FileEntryView,
    rest: Option<Result<Seq<FileEntryView>, GitErrorView>>,
)
    ensures
        ahead_of(before, ahead_of(seq![e], rest)) == ahead_of(before.push(e), rest),
{
    if let Some(Ok(more)) = rest {
        assert(before + (seq![e] + more) =~= before.push(e) + more);
    }
}

/// What a reply to the status call gives; `None` as in `porcelain`.
pub open spec fn status_of(reply: ReplyView) -> Option<
    Result<Seq<FileEntryView>, GitErrorView>,
> {
    match reply {
        ReplyView::Exited { success, stdout, stderr } => if success {
            porcelain(stdout)
        } else {
            Some(Err(GitErrorView::Failed { args: status_call(), stderr: outside::lossy(stderr) }))
        },
        _ => Some(Err(GitErrorView::Spawn { args: status_call() })),
    }
}

/// Reads the reply to the status call, whatever it holds.
pub fn read_status(reply: &Reply) -> (r: Option<Result<Vec<FileEntry>, GitError>>)
    ensures
        match r {
            Some(read) => status_of(reply.deep_view()) == Some(outcome(read)),
            None => status_of(reply.deep_view()) is None,
        },
{
    match reply {
        Reply::Exited { success, stdout, stderr } => {
            if *success {
                parse_porcelain_v2(stdout.as_slice())
            } else {
                Some(
                    Err(
                        GitError::Failed {
                            args: status_args(),
                            stderr: lossy_text(stderr.as_slice()),
                        },
                    ),
                )
            }
        },
        _ => Some(Err(GitError::Spawn { args: status_args() })),
    }
}

/// The changed files that the reply to the status call lists.
pub fn status(reply: &Reply) -> (r: Result<Vec<FileEntry>, GitError>)
    requires
        status_of(reply.deep_view()) is Some,
    ensures
        status_of(reply.deep_view()) == Some(outcome(r)),
{
    read_status(reply).unwrap()
}

// ---------------------------------------------------------------------------
// Large files

/// Asks which filter each of the paths on the input has.
pub open spec fn attr_call() -> Seq<Seq<char>> {
    seq!["check-attr"@, "-z"@, "--stdin"@, "filter"@]
}

/// The arguments that ask for the filters of paths.
pub fn attr_filter_args() -> (r: Vec<String>)
    ensures
        r.deep_view() == attr_call(),
{
    let r = words(&["check-attr", "-z", "--stdin", "filter"]);
    assert(r.deep_view() =~= attr_call());
    r
}

/// The paths of files, each with a zero byte behind it.
pub open spec fn attr_input(entries: Seq<FileEntryView>) -> Seq<u8>
    decreases entries.len(),
{
    if entries.len() == 0 {
        seq![]
    } else {
        attr_input(entries.drop_last()) + utf8::encode_utf8(entries.last().path) + seq![0u8]
    }
}

/// The input of the call that asks for the filters of files.
pub fn attr_filter_input(entries: &Vec<FileEntry>) -> (r: Vec<u8>)
    ensures
        r@ == attr_input(entries.deep_view()),
{
    let ghost all = entries.deep_view();
    let mut r: Vec<u8> = Vec::new();
    let mut i: usize = 0;
    while i < entries.len()
        invariant
            i <= entries@.len(),
            all == entries.deep_view(),
            r@ == attr_input(all.take(i as int)),
        decreases entries@.len() - i,
    {
        let bytes = entries[i].path.as_str().as_bytes();
        let ghost before = r@;
        let mut j: usize = 0;
        while j < bytes.len()
            invariant
                j <= bytes@.len(),
                r@ == before + bytes@.take(j as int),
            decreases bytes@.len() - j,
        {
            r.push(bytes[j]);
            assert(bytes@.take(j + 1) =~= bytes@.take(j as int).push(bytes@[j as int]));
            j += 1;
        }
        assert(bytes@.take(bytes@.len() as int) =~= bytes@);
        r.push(0);
        assert(all.take(i + 1).drop_last() =~= all.take(i as int));
        assert(r@ =~= attr_input(all.take(i + 1)));
        i += 1;
    }
    assert(all.take(all.len() as int) =~= all);
    r
}

/// The filters that the first `n` triples of path, attribute and value give; a
/// later triple overrides an earlier one.
pub open spec fn filters(fields: Seq<Seq<char>>, n: int) -> Map<Seq<char>, Seq<char>>
    decreases n,
{
    if n <= 0 {
        Map::empty()
    } else {
        let before = filters(fields, n - 1);
        if fields[3 * (n - 1)].len() == 0 {
            before
        } else {
            before.insert(fields[3 * (n - 1)], fields[3 * (n - 1) + 2])
        }
    }
}

/// The filters that a reply gives, by path.
pub open spec fn filters_of(reply: ReplyView) -> Result<
    Map<Seq<char>, Seq<char>>,
    GitErrorView,
> {
    match reply {
        ReplyView::NotStarted => Err(GitErrorView::SpawnAttr),
        ReplyView::Broken(m) => Err(GitErrorView::AttrBroken(m)),
        ReplyView::Exited { success, stdout, stderr } => if success {
            let fields = text::parts(outside::lossy(stdout), '\0');
            Ok(filters(fields, fields.len() as int / 3))
        } else {
            Err(GitErrorView::AttrFailed(outside::lossy(stderr)))
        },
    }
}

/// The texts of a map of strings.
pub open spec fn text_map(m: Map<Seq<char>, String>) -> Map<Seq<char>, Seq<char>> {
    m.map_values(|s: String| s@)
}

/// The filters of the paths of files, by path, as the reply gives them. Without
/// files there are none, whatever the reply.
pub fn attr_filter(entries: &Vec<FileEntry>, reply: &Reply) -> (r: Result<
    StringHashMap<String>,
    GitError,
>)
    ensures
        entries@.len() == 0 ==> (r matches Ok(m) && m@ == Map::<Seq<char>, String>::empty()),
        entries@.len() > 0 ==> match r {
            Ok(m) => filters_of(reply.deep_view()) == Ok::<_, GitErrorView>(text_map(m@)),
            Err(e) => filters_of(reply.deep_view()) == Err::<
                Map<Seq<char>, Seq<char>>,
                _,
            >(e.deep_view()),
        },
{
    if entries.len() == 0 {
        return Ok(StringHashMap::new());
    }
    match reply {
        Reply::NotStarted => Err(GitError::SpawnAttr),
        Reply::Broken(m) => Err(GitError::AttrBroken(m.clone())),
        Reply::Exited { success, stdout, stderr } => {
            if !*success {
                return Err(GitError::AttrFailed(lossy_text(stderr.as_slice())));
            }
            let fields = split(lossy_text(stdout.as_slice()).as_str(), '\0');
            let ghost all = fields.deep_view();
            let mut map: StringHashMap<String> = StringHashMap::new();
            assert(text_map(map@) =~= Map::empty());
            let mut n: usize = 0;
            while n < fields.len() / 3
                invariant
                    n <= fields@.len() / 3,
                    all == fields.deep_view(),
                    text_map(map@) == filters(all, n as int),
                decreases fields@.len() - n,
            {
                let path = fields[3 * n].clone();
                let value = fields[3 * n + 2].clone();
                assert(all[3 * n] == path@);
                assert(all[3 * n + 2] == value@);
                let ghost before = map@;
                if !path.as_str().is_empty() {
                    map.insert(path, value);
                    assert(text_map(map@) =~= text_map(before).insert(path@, value@));
                }
                n += 1;
            }
            Ok(map)
        },
    }
}

/// Whether the filters send a path to the large-file storage.
pub open spec fn is_lfs(filters: Map<Seq<char>, Seq<char>>, path: Seq<char>) -> bool {
    filters.contains_key(path) && filters[path] == "lfs"@
}

/// Asks for the content of a path at a revision, or in the index.
pub open spec fn blob_call(revision: Seq<char>, path: Seq<char>) -> Seq<Seq<char>> {
    seq!["show"@, revision + path]
}

/// The arguments that ask for the content of a path.
pub fn blob_args(revision: &str, path: &str) -> (r: Vec<String>)
    ensures
        r.deep_view() == blob_call(revision@, path@),
{
    let spec = concat(revision, path);
    let r = words(&["show", spec.as_str()]);
    assert(r.deep_view() =~= blob_call(revision@, path@));
    r
}

/// How a pointer file of the large-file storage begins.
pub open spec fn pointer_head() -> Seq<char> {
    "version https://git-lfs.github.com/spec/"@
}

/// Whether a content, of which only the first bytes count, is a pointer of the
/// large-file storage.
pub open spec fn pointer_of(reply: ReplyView) -> Option<bool> {
    match reply {
        ReplyView::Exited { success, stdout, stderr } => if success {
            let head = if stdout.len() > 200 {
                stdout.take(200)
            } else {
                stdout
            };
            Some(text::begins(outside::lossy(head), pointer_head()))
        } else {
            None
        },
        _ => None,
    }
}

/// Whether the content in a reply is a pointer of the large-file storage.
pub fn blob_is_lfs_pointer(reply: &Reply) -> (r: Option<bool>)
    ensures
        r == pointer_of(reply.deep_view()),
{
    match reply {
        Reply::Exited { success, stdout, stderr } => {
            if !*success {
                return None;
            }
            let n: usize = if stdout.len() > 200 { 200 } else { stdout.len() };
            let bytes = stdout.as_slice();
            let head = &bytes[0..n];
            assert(stdout@.len() > 200 ==> stdout@.subrange(0, 200) =~= stdout@.take(200));
            assert(stdout@.subrange(0, stdout@.len() as int) =~= stdout@);
            let s = lossy_text(head);
            Some(starts_with(s.as_str(), "version https://git-lfs.github.com/spec/"))
        },
        _ => None,
    }
}

/// The storage of the content in a reply.
pub open spec fn storage_in(reply: ReplyView) -> Option<StorageMode> {
    match pointer_of(reply) {
        Some(true) => Some(StorageMode::Lfs),
        Some(false) => Some(StorageMode::Git),
        None => None,
    }
}

/// The storage of the content in a reply.
pub fn storage_of(reply: &Reply) -> (r: Option<StorageMode>)
    ensures
        r == storage_in(reply.deep_view()),
{
    match blob_is_lfs_pointer(reply) {
        Some(true) => Some(StorageMode::Lfs),
        Some(false) => Some(StorageMode::Git),
        None => None,
    }
}

impl FileEntryView {
    /// Whether the last commit may hold the file.
    pub open spec fn has_former(self) -> bool {
        self.index != Stage::Untracked
    }

    /// Whether the index holds a content of the file that will be committed.
    pub open spec fn has_next(self) -> bool {
        self.staged() && self.index != Stage::Deleted
    }

    /// How many replies tell of the storage of the file: one of the last commit and
    /// one of the index, as far as either may hold it.
    pub open spec fn asked(self) -> nat {
        (if self.has_former() {
            1nat
        } else {
            0nat
        }) + (if self.has_next() {
            1nat
        } else {
            0nat
        })
    }

    /// The file with what is known of its storage: whether it belongs to the
    /// large-file storage, and how the last commit and the index have it. A file of
    /// the large-file storage is in order if the index holds a pointer.
    pub open spec fn annotated(
        self,
        in_lfs: bool,
        former: Option<StorageMode>,
        next: Option<StorageMode>,
    ) -> FileEntryView {
        FileEntryView {
            lfs_tracked: in_lfs,
            prev_storage: if self.has_former() {
                former
            } else {
                self.prev_storage
            },
            next_storage: if self.has_next() {
                next
            } else {
                self.next_storage
            },
            lfs_pointer_ok: if self.has_next() && in_lfs {
                Some(next == Some(StorageMode::Lfs))
            } else {
                self.lfs_pointer_ok
            },
            ..self
        }
    }
}

impl FileEntry {
    /// Whether the last commit may hold the file.
    pub fn asks_former(&self) -> (r: bool)
        ensures
            r == self.deep_view().has_former(),
    {
        self.index != Stage::Untracked
    }

    /// Whether the index holds a content of the file that will be committed.
    pub fn asks_next(&self) -> (r: bool)
        ensures
            r == self.deep_view().has_next(),
    {
        self.has_staged() && self.index != Stage::Deleted
    }
}

/// How many replies tell of the storage of the first `n` files.
pub open spec fn asked_before(entries: Seq<FileEntryView>, n: int) -> nat
    decreases n,
{
    if n <= 0 {
        0
    } else {
        asked_before(entries, n - 1) + entries[n - 1].asked()
    }
}

/// What was found at a place; what was not found is not known.
pub open spec fn found_at(found: Seq<Option<StorageMode>>, i: nat) -> Option<StorageMode> {
    if i < found.len() {
        found[i as int]
    } else {
        None
    }
}

/// The files with what the filters say and what was found of their storage, file
/// by file, first of the last commit and then of the index.
pub open spec fn annotated(
    entries: Seq<FileEntryView>,
    filters: Map<Seq<char>, Seq<char>>,
    found: Seq<Option<StorageMode>>,
) -> Seq<FileEntryView> {
    Seq::new(
        entries.len(),
        |i: int|
            {
                let at = asked_before(entries, i);
                let behind = if entries[i].has_former() {
                    at + 1
                } else {
                    at
                };
                entries[i].annotated(
                    is_lfs(filters, entries[i].path),
                    found_at(found, at),
                    found_at(found, behind),
                )
            },
    )
}

/// Takes the next of what was found, if there is one.
fn take_found(found: &Vec<Option<StorageMode>>, at: &mut usize) -> (r: Option<StorageMode>)
    requires
        *old(at) <= found@.len(),
    ensures
        r == found_at(found@, *old(at) as nat),
        *final(at) == (if *old(at) < found@.len() {
            *old(at) + 1
        } else {
            *old(at) as int
        }),
{
    if *at < found.len() {
        let r = found[*at];
        *at = *at + 1;
        r
    } else {
        None
    }
}

/// Notes what is known of the storage of files: what the filters say, and what was
/// found of each file, first of the last commit and then of the index. Where the
/// filters could not be had the files stay as they are. Without files there is
/// nothing to note, and the filters do not matter.
pub fn annotate_lfs(
    entries: &mut Vec<FileEntry>,
    filters: Result<StringHashMap<String>, GitError>,
    found: &Vec<Option<StorageMode>>,
) -> (r: Result<(), GitError>)
    ensures
        old(entries)@.len() == 0 ==> r is Ok && *final(entries) == *old(entries),
        old(entries)@.len() > 0 ==> match filters {
            Ok(m) => r is Ok && final(entries).deep_view() == annotated(
                old(entries).deep_view(),
                text_map(m@),
                found@,
            ),
            Err(e) => outcome(r) == Err::<(), _>(e.deep_view()) && *final(entries) == *old(entries),
        },
{
    if entries.len() == 0 {
        return Ok(());
    }
    let filters = match filters {
        Ok(m) => m,
        Err(e) => {
            return Err(e);
        },
    };
    let ghost all = entries.deep_view();
    let ghost done = annotated(all, text_map(filters@), found@);
    let mut at: usize = 0;
    let mut i: usize = 0;
    while i < entries.len()
        invariant
            i <= entries@.len(),
            entries@.len() == all.len(),
            done == annotated(all, text_map(filters@), found@),
            at <= found@.len(),
            at == asked_before(all, i as int) || at == found@.len() <= asked_before(all, i as int),
            forall|j: int| 0 <= j < i ==> (#[trigger] entries@[j]).deep_view() == done[j],
            forall|j: int|
                i <= j < entries@.len() ==> (#[trigger] entries@[j]).deep_view() == all[j],
        decreases entries@.len() - i,
    {
        let in_lfs = match filters.get(entries[i].path.as_str()) {
            Some(f) => same(f.as_str(), "lfs"),
            None => false,
        };
        assert(entries@[i as int].deep_view() == all[i as int]);
        entries[i].lfs_tracked = in_lfs;
        if entries[i].asks_former() {
            let storage = take_found(found, &mut at);
            entries[i].prev_storage = storage;
        }
        if entries[i].asks_next() {
            let storage = take_found(found, &mut at);
            let pointer = match storage {
                Some(StorageMode::Lfs) => true,
                _ => false,
            };
            entries[i].next_storage = storage;
            if in_lfs {
                entries[i].lfs_pointer_ok = Some(pointer);
            }
        }
        assert(entries@[i as int].deep_view() == done[i as int]);
        i += 1;
    }
    assert(entries.deep_view() =~= done);
    Ok(())
}

// ---------------------------------------------------------------------------
// Differences

/// Asks for what changed in the working tree.
pub open spec fn diff_worktree_call(path: Seq<char>) -> Seq<Seq<char>> {
    seq!["diff"@, "--"@, path]
}

/// The arguments that ask for what changed in the working tree.
pub fn diff_worktree_args(path: &str) -> (r: Vec<String>)
    ensures
        r.deep_view() == diff_worktree_call(path@),
{
    let r = words(&["diff", "--", path]);
    assert(r.deep_view() =~= diff_worktree_call(path@));
    r
}

/// What changed in the working tree.
pub fn diff_worktree(path: &str, reply: &Reply) -> (r: Result<String, GitError>)
    ensures
        outcome(r) == ran(diff_worktree_call(path@), reply.deep_view()),
{
    run(diff_worktree_args(path), reply)
}

/// Asks for what changed in the index.
pub open spec fn diff_cached_call(path: Seq<char>) -> Seq<Seq<char>> {
    seq!["diff"@, "--cached"@, "--"@, path]
}

/// The arguments that ask for what changed in the index.
pub fn diff_cached_args(path: &str) -> (r: Vec<String>)
    ensures
        r.deep_view() == diff_cached_call(path@),
{
    let r = words(&["diff", "--cached", "--", path]);
    assert(r.deep_view() =~= diff_cached_call(path@));
    r
}

/// What changed in the index.
pub fn diff_cached(path: &str, reply: &Reply) -> (r: Result<String, GitError>)
    ensures
        outcome(r) == ran(diff_cached_call(path@), reply.deep_view()),
{
    run(diff_cached_args(path), reply)
}

/// Lines with a plus sign before each, one after the other.
pub open spec fn added_lines(list: Seq<Seq<char>>) -> Seq<char>
    decreases list.len(),
{
    if list.len() == 0 {
        seq![]
    } else {
        added_lines(list.drop_last()) + seq!['+'] + list.last() + seq!['\n']
    }
}

/// An untracked file shown as one big addition; `None` where it cannot be read
/// as text.
pub open spec fn addition(path: Seq<char>, content: Option<Seq<char>>) -> Seq<char> {
    match content {
        Some(c) => "--- /dev/null\n+++ b/"@ + path + "\n"@ + added_lines(text::lines(c)),
        None => "(binary or unreadable: "@ + path + ")"@,
    }
}

/// Shows an untracked file with the given content.
pub fn diff_untracked(path: &str, content: &Option<String>) -> (r: String)
    ensures
        r@ == addition(path@, content.deep_view()),
{
    match content {
        Some(c) => {
            let mut out = concat3("--- /dev/null\n+++ b/", path, "\n");
            let list = split_lines(c.as_str());
            let ghost all = list.deep_view();
            let ghost head = out@;
            let mut i: usize = 0;
            assert(head + added_lines(all.take(0)) =~= head);
            while i < list.len()
                invariant
                    i <= list@.len(),
                    all == list.deep_view(),
                    out@ == head + added_lines(all.take(i as int)),
                decreases list@.len() - i,
            {
                assert(all.take(i + 1).drop_last() =~= all.take(i as int));
                out.push('+');
                out.append(list[i].as_str());
                out.push('\n');
                assert(out@ =~= head + added_lines(all.take(i + 1)));
                i += 1;
            }
            assert(all.take(all.len() as int) =~= all);
            out
        },
        None => concat3("(binary or unreadable: ", path, ")"),
    }
}

// ---------------------------------------------------------------------------
// Changing the index and the working tree

/// Stages what changed under a path.
pub open spec fn stage_call(path: Seq<char>) -> Seq<Seq<char>> {
    seq!["add"@, "-A"@, "--"@, path]
}

/// The arguments that stage a path.
pub fn stage_args(path: &str) -> (r: Vec<String>)
    ensures
        r.deep_view() == stage_call(path@),
{
    let r = words(&["add", "-A", "--", path]);
    assert(r.deep_view() =~= stage_call(path@));
    r
}

/// Whether a path was staged.
pub fn stage(path: &str, reply: &Reply) -> (r: Result<(), GitError>)
    ensures
        outcome(r) == done(ran(stage_call(path@), reply.deep_view())),
{
    run_only(stage_args(path), reply)
}

/// Stages everything.
pub open spec fn stage_all_call() -> Seq<Seq<char>> {
    seq!["add"@, "-A"@]
}

/// The arguments that stage everything.
pub fn stage_all_args() -> (r: Vec<String>)
    ensures
        r.deep_view() == stage_all_call(),
{
    let r = words(&["add", "-A"]);
    assert(r.deep_view() =~= stage_all_call());
    r
}

/// Whether everything was staged.
pub fn stage_all(reply: &Reply) -> (r: Result<(), GitError>)
    ensures
        outcome(r) == done(ran(stage_all_call(), reply.deep_view())),
{
    run_only(stage_all_args(), reply)
}

/// Asks whether there is a commit.
pub open spec fn head_call() -> Seq<Seq<char>> {
    seq!["rev-parse"@, "--verify"@, "HEAD"@]
}

/// The arguments that ask whether there is a commit.
pub fn head_args() -> (r: Vec<String>)
    ensures
        r.deep_view() == head_call(),
{
    let r = words(&["rev-parse", "--verify", "HEAD"]);
    assert(r.deep_view() =~= head_call());
    r
}

/// Takes a path out of the index; without a commit to go back to, the path is
/// removed from it.
pub open spec fn unstage_call(path: Seq<char>, has_head: bool) -> Seq<Seq<char>> {
    if has_head {
        seq!["restore"@, "--staged"@, "--"@, path]
    } else {
        seq!["rm"@, "--cached"@, "--"@, path]
    }
}

/// The arguments that unstage a path.
pub fn unstage_args(path: &str, has_head: bool) -> (r: Vec<String>)
    ensures
        r.deep_view() == unstage_call(path@, has_head),
{
    let r = if has_head {
        words(&["restore", "--staged", "--", path])
    } else {
        words(&["rm", "--cached", "--", path])
    };
    assert(r.deep_view() =~= unstage_call(path@, has_head));
    r
}

/// Whether a path was unstaged.
pub fn unstage(path: &str, has_head: bool, reply: &Reply) -> (r: Result<(), GitError>)
    ensures
        outcome(r) == done(ran(unstage_call(path@, has_head), reply.deep_view())),
{
    run_only(unstage_args(path, has_head), reply)
}

/// Whether the reply shows that there is a commit.
pub open spec fn head_of(reply: ReplyView) -> Result<bool, GitErrorView> {
    match tried(head_call(), reply) {
        Ok(s) => Ok(s is Some),
        Err(e) => Err(e),
    }
}

/// Whether the reply shows that there is a commit.
pub fn has_head(reply: &Reply) -> (r: Result<bool, GitError>)
    ensures
        outcome(r) == head_of(reply.deep_view()),
{
    match run_try(head_args(), reply) {
        Ok(s) => Ok(s.is_some()),
        Err(e) => Err(e),
    }
}

/// Restores a path in the working tree.
pub open spec fn restore_worktree_call(path: Seq<char>) -> Seq<Seq<char>> {
    seq!["restore"@, "--"@, path]
}

/// The arguments that restore a path in the working tree.
pub fn restore_worktree_args(path: &str) -> (r: Vec<String>)
    ensures
        r.deep_view() == restore_worktree_call(path@),
{
    let r = words(&["restore", "--", path]);
    assert(r.deep_view() =~= restore_worktree_call(path@));
    r
}

/// Whether a path was restored.
pub fn restore_worktree(path: &str, reply: &Reply) -> (r: Result<(), GitError>)
    ensures
        outcome(r) == done(ran(restore_worktree_call(path@), reply.deep_view())),
{
    run_only(restore_worktree_args(path), reply)
}

/// Whether an untracked file was deleted.
pub fn delete_untracked(path: &str, removed: bool) -> (r: Result<(), GitError>)
    ensures
        removed ==> r is Ok,
        !removed ==> outcome(r) == Err::<(), _>(GitErrorView::Remove { path: path@ }),
{
    if removed {
        Ok(())
    } else {
        Err(GitError::Remove { path: path.to_string() })
    }
}

// ---------------------------------------------------------------------------
// Commits

/// Makes a commit; a blank body is left out.
pub open spec fn commit_call(subject: Seq<char>, body: Seq<char>, amend: bool) -> Seq<Seq<char>> {
    seq!["commit"@] + (if amend {
        seq!["--amend"@]
    } else {
        seq![]
    }) + seq!["-m"@, subject] + (if text::blank(body) {
        seq![]
    } else {
        seq!["-m"@, body]
    })
}

/// The arguments that make a commit.
pub fn commit_args(subject: &str, body: &str, amend: bool) -> (r: Vec<String>)
    ensures
        r.deep_view() == commit_call(subject@, body@, amend),
{
    let mut r = words(&["commit"]);
    assert(r.deep_view() =~= seq!["commit"@]);
    if amend {
        r.push("--amend".to_string());
    }
    r.push("-m".to_string());
    r.push(subject.to_string());
    if !is_blank(body) {
        r.push("-m".to_string());
        r.push(body.to_string());
    }
    assert(r.deep_view() =~= commit_call(subject@, body@, amend));
    r
}

/// Whether a commit was made.
pub fn commit(subject: &str, body: &str, amend: bool, reply: &Reply) -> (r: Result<(), GitError>)
    ensures
        outcome(r) == done(ran(commit_call(subject@, body@, amend), reply.deep_view())),
{
    run_only(commit_args(subject, body, amend), reply)
}

/// Asks for the short name of the last commit.
pub open spec fn short_head_call() -> Seq<Seq<char>> {
    seq!["rev-parse"@, "--short"@, "HEAD"@]
}

/// The arguments that ask for the short name of the last commit.
pub fn short_head_args() -> (r: Vec<String>)
    ensures
        r.deep_view() == short_head_call(),
{
    let r = words(&["rev-parse", "--short", "HEAD"]);
    assert(r.deep_view() =~= short_head_call());
    r
}

/// The short name of the last commit.
pub fn short_head(reply: &Reply) -> (r: Result<String, GitError>)
    ensures
        outcome(r) == tidy(ran(short_head_call(), reply.deep_view())),
{
    run_tidy(short_head_args(), reply)
}

/// Asks for the subject of the last commit.
pub open spec fn last_commit_subject_call() -> Seq<Seq<char>> {
    seq!["log"@, "-1"@, "--pretty=%s"@]
}

/// The arguments that ask for the subject of the last commit.
pub fn last_commit_subject_args() -> (r: Vec<String>)
    ensures
        r.deep_view() == last_commit_subject_call(),
{
    let r = words(&["log", "-1", "--pretty=%s"]);
    assert(r.deep_view() =~= last_commit_subject_call());
    r
}

/// The subject of the last commit.
pub fn last_commit_subject(reply: &Reply) -> (r: Result<String, GitError>)
    ensures
        outcome(r) == tidy(ran(last_commit_subject_call(), reply.deep_view())),
{
    run_tidy(last_commit_subject_args(), reply)
}

/// A commit in the log.
#[derive(Debug, Clone)]
pub struct Commit {
    pub sha: String,
    pub short: String,
    pub author: String,
    pub date: String,
    pub subject: String,
}

/// The view of a `Commit`.
pub struct CommitView {
    pub sha: Seq<char>,
    pub short: Seq<char>,
    pub author: Seq<char>,
    pub date: Seq<char>,
    pub subject: Seq<char>,
}

impl DeepView for Commit {
    type V = CommitView;

    open spec fn deep_view(&self) -> CommitView {
        CommitView {
            sha: self.sha@,
            short: self.short@,
            author: self.author@,
            date: self.date@,
            subject: self.subject@,
        }
    }
}

/// Asks for the last commits, at most `limit` of them.
pub open spec fn log_call(limit: nat) -> Seq<Seq<char>> {
    seq![
        "log"@,
        "-n"@ + text::decimal(limit),
        "--date=short"@,
        "--pretty=format:%H%x1f%h%x1f%an%x1f%ad%x1f%s"@,
    ]
}

/// The arguments that ask for the last commits.
pub fn log_args(limit: usize) -> (r: Vec<String>)
    ensures
        r.deep_view() == log_call(limit as nat),
{
    let arg = concat("-n", number(limit).as_str());
    let r = words(
        &["log", arg.as_str(), "--date=short", "--pretty=format:%H%x1f%h%x1f%an%x1f%ad%x1f%s"],
    );
    assert(r.deep_view() =~= log_call(limit as nat));
    r
}

/// Reads a line of the log: five fields with a unit separator between them.
pub open spec fn commit_line() -> spec_fn(Seq<char>) -> Option<CommitView> {
    |line: Seq<char>|
        {
            let f = text::first_parts(line, '\u{1f}', 5);
            if f.len() < 5 {
                None
            } else {
                Some(
                    CommitView { sha: f[0], short: f[1], author: f[2], date: f[3], subject: f[4] },
                )
            }
        }
}

/// The commits that a log lists. A log that git refuses lists none.
pub fn log(limit: usize, reply: &Reply) -> (r: Result<Vec<Commit>, GitError>)
    ensures
        outcome(r) == read_lines(or_empty(tried(log_call(limit as nat), reply.deep_view())), commit_line()),
{
    match run_or_empty(log_args(limit), reply) {
        Ok(s) => {
            let list = split_lines(s.as_str());
            let ghost all = list.deep_view();
            let mut r: Vec<Commit> = Vec::new();
            let mut i: usize = 0;
            assert(r.deep_view() =~= seq![]);
            while i < list.len()
                invariant
                    i <= list@.len(),
                    all == list.deep_view(),
                    r.deep_view() == kept(all.take(i as int), commit_line()),
                decreases list@.len() - i,
            {
                assert(all.take(i + 1).drop_last() =~= all.take(i as int));
                let ghost before = r.deep_view();
                let line = list[i].as_str();
                assert(all[i as int] == line@);
                let f = split_n(line, '\u{1f}', 5);
                let ghost g = f.deep_view();
                if f.len() >= 5 {
                    assert(g[0] == f@[0]@ && g[1] == f@[1]@ && g[2] == f@[2]@ && g[3] == f@[3]@
                        && g[4] == f@[4]@);
                    let c = Commit {
                        sha: f[0].clone(),
                        short: f[1].clone(),
                        author: f[2].clone(),
                        date: f[3].clone(),
                        subject: f[4].clone(),
                    };
                    r.push(c);
                    assert(r.deep_view() =~= before.push(c.deep_view()));
                }
                i += 1;
            }
            assert(all.take(all.len() as int) =~= all);
            Ok(r)
        },
        Err(e) => Err(e),
    }
}

/// Asks for the details of a commit.
pub open spec fn show_commit_call(sha: Seq<char>) -> Seq<Seq<char>> {
    seq!["show"@, "--color=never"@, "--stat"@, "-p"@, sha]
}

/// The arguments that ask for the details of a commit.
pub fn show_commit_args(sha: &str) -> (r: Vec<String>)
    ensures
        r.deep_view() == show_commit_call(sha@),
{
    let r = words(&["show", "--color=never", "--stat", "-p", sha]);
    assert(r.deep_view() =~= show_commit_call(sha@));
    r
}

/// The details of a commit.
pub fn show_commit(sha: &str, reply: &Reply) -> (r: Result<String, GitError>)
    ensures
        outcome(r) == ran(show_commit_call(sha@), reply.deep_view()),
{
    run(show_commit_args(sha), reply)
}

// ---------------------------------------------------------------------------
// Stashes

/// A stash.
#[derive(Debug, Clone)]
pub struct Stash {
    pub reference: String,
    pub subject: String,
}

/// The view of a `Stash`.
pub struct StashView {
    pub reference: Seq<char>,
    pub subject: Seq<char>,
}

impl DeepView for Stash {
    type V = StashView;

    open spec fn deep_view(&self) -> StashView {
        StashView {
            reference: self.reference@,
            subject: self.subject@,
        }
    }
}

/// Asks for the stashes.
pub open spec fn stash_list_call() -> Seq<Seq<char>> {
    seq!["stash"@, "list"@, "--format=%gd%x1f%s"@]
}

/// The arguments that ask for the stashes.
pub fn stash_list_args() -> (r: Vec<String>)
    ensures
        r.deep_view() == stash_list_call(),
{
    let r = words(&["stash", "list", "--format=%gd%x1f%s"]);
    assert(r.deep_view() =~= stash_list_call());
    r
}

/// Reads a line of the stash list: two fields with a unit separator between them.
pub open spec fn stash_line() -> spec_fn(Seq<char>) -> Option<StashView> {
    |line: Seq<char>|
        {
            let f = text::first_parts(line, '\u{1f}', 2);
            if f.len() < 2 {
                None
            } else {
                Some(StashView { reference: f[0], subject: f[1] })
            }
        }
}

/// The stashes that a list names. A list that git refuses names none.
pub fn stash_list(reply: &Reply) -> (r: Result<Vec<Stash>, GitError>)
    ensures
        outcome(r) == read_lines(or_empty(tried(stash_list_call(), reply.deep_view())), stash_line()),
{
    match run_or_empty(stash_list_args(), reply) {
        Ok(s) => {
            let list = split_lines(s.as_str());
            let ghost all = list.deep_view();
            let mut r: Vec<Stash> = Vec::new();
            let mut i: usize = 0;
            assert(r.deep_view() =~= seq![]);
            while i < list.len()
                invariant
                    i <= list@.len(),
                    all == list.deep_view(),
                    r.deep_view() == kept(all.take(i as int), stash_line()),
                decreases list@.len() - i,
            {
                assert(all.take(i + 1).drop_last() =~= all.take(i as int));
                let ghost before = r.deep_view();
                let line = list[i].as_str();
                assert(all[i as int] == line@);
                let f = split_n(line, '\u{1f}', 2);
                let ghost g = f.deep_view();
                if f.len() >= 2 {
                    assert(g[0] == f@[0]@ && g[1] == f@[1]@);
                    let c = Stash { reference: f[0].clone(), subject: f[1].clone() };
                    r.push(c);
                    assert(r.deep_view() =~= before.push(c.deep_view()));
                }
                i += 1;
            }
            assert(all.take(all.len() as int) =~= all);
            Ok(r)
        },
        Err(e) => Err(e),
    }
}

/// Asks for the content of a stash.
pub open spec fn stash_show_call(reference: Seq<char>) -> Seq<Seq<char>> {
    seq!["stash"@, "show"@, "--color=never"@, "-p"@, reference]
}

/// The arguments that ask for the content of a stash.
pub fn stash_show_args(reference: &str) -> (r: Vec<String>)
    ensures
        r.deep_view() == stash_show_call(reference@),
{
    let r = words(&["stash", "show", "--color=never", "-p", reference]);
    assert(r.deep_view() =~= stash_show_call(reference@));
    r
}

/// The content of a stash.
pub fn stash_show(reference: &str, reply: &Reply) -> (r: Result<String, GitError>)
    ensures
        outcome(r) == ran(stash_show_call(reference@), reply.deep_view()),
{
    run(stash_show_args(reference), reply)
}

/// Applies a stash.
pub open spec fn stash_apply_call(reference: Seq<char>) -> Seq<Seq<char>> {
    seq!["stash"@, "apply"@, reference]
}

/// The arguments that apply a stash.
pub fn stash_apply_args(reference: &str) -> (r: Vec<String>)
    ensures
        r.deep_view() == stash_apply_call(reference@),
{
    let r = words(&["stash", "apply", reference]);
    assert(r.deep_view() =~= stash_apply_call(reference@));
    r
}

/// Whether a stash was applied.
pub fn stash_apply(reference: &str, reply: &Reply) -> (r: Result<(), GitError>)
    ensures
        outcome(r) == done(ran(stash_apply_call(reference@), reply.deep_view())),
{
    run_only(stash_apply_args(reference), reply)
}

/// Applies a stash and drops it.
pub open spec fn stash_pop_call(reference: Seq<char>) -> Seq<Seq<char>> {
    seq!["stash"@, "pop"@, reference]
}

/// The arguments that apply a stash and drop it.
pub fn stash_pop_args(reference: &str) -> (r: Vec<String>)
    ensures
        r.deep_view() == stash_pop_call(reference@),
{
    let r = words(&["stash", "pop", reference]);
    assert(r.deep_view() =~= stash_pop_call(reference@));
    r
}

/// Whether a stash was popped.
pub fn stash_pop(reference: &str, reply: &Reply) -> (r: Result<(), GitError>)
    ensures
        outcome(r) == done(ran(stash_pop_call(reference@), reply.deep_view())),
{
    run_only(stash_pop_args(reference), reply)
}

/// Drops a stash.
pub open spec fn stash_drop_call(reference: Seq<char>) -> Seq<Seq<char>> {
    seq!["stash"@, "drop"@, reference]
}

/// The arguments that drop a stash.
pub fn stash_drop_args(reference: &str) -> (r: Vec<String>)
    ensures
        r.deep_view() == stash_drop_call(reference@),
{
    let r = words(&["stash", "drop", reference]);
    assert(r.deep_view() =~= stash_drop_call(reference@));
    r
}

/// Whether a stash was dropped.
pub fn stash_drop(reference: &str, reply: &Reply) -> (r: Result<(), GitError>)
    ensures
        outcome(r) == done(ran(stash_drop_call(reference@), reply.deep_view())),
{
    run_only(stash_drop_args(reference), reply)
}

// ---------------------------------------------------------------------------
// Branches

/// A branch of this repository.
#[derive(Debug, Clone)]
pub struct LocalBranch {
    pub name: String,
    pub is_head: bool,
    pub upstream: Option<String>,
    pub ahead: usize,
    pub behind: usize,
    pub gone: bool,
    pub short: String,
    pub subject: String,
}

/// The view of a `LocalBranch`.
pub struct LocalBranchView {
    pub name: Seq<char>,
    pub is_head: bool,
    pub upstream: Option<Seq<char>>,
    pub ahead: usize,
    pub behind: usize,
    pub gone: bool,
    pub short: Seq<char>,
    pub subject: Seq<char>,
}

impl DeepView for LocalBranch {
    type V = LocalBranchView;

    open spec fn deep_view(&self) -> LocalBranchView {
        LocalBranchView {
            name: self.name@,
            is_head: self.is_head,
            upstream: self.upstream.deep_view(),
            ahead: self.ahead,
            behind: self.behind,
            gone: self.gone,
            short: self.short@,
            subject: self.subject@,
        }
    }
}

/// A branch of a remote.
#[derive(Debug, Clone)]
pub struct RemoteBranch {
    pub remote: String,
    pub name: String,
    pub short: String,
    pub subject: String,
}

/// The view of a `RemoteBranch`.
pub struct RemoteBranchView {
    pub remote: Seq<char>,
    pub name: Seq<char>,
    pub short: Seq<char>,
    pub subject: Seq<char>,
}

impl DeepView for RemoteBranch {
    type V = RemoteBranchView;

    open spec fn deep_view(&self) -> RemoteBranchView {
        RemoteBranchView {
            remote: self.remote@,
            name: self.name@,
            short: self.short@,
            subject: self.subject@,
        }
    }
}

/// Asks for the branches of this repository.
pub open spec fn local_branches_call() -> Seq<Seq<char>> {
    seq![
        "for-each-ref"@,
        "--sort=-committerdate"@,
        "refs/heads"@,
        "--format=%(HEAD)\x1f%(refname:short)\x1f%(upstream:short)\x1f%(upstream:track)\x1f%(objectname:short)\x1f%(contents:subject)"@,
    ]
}

/// The arguments that ask for the branches of this repository.
pub fn local_branches_args() -> (r: Vec<String>)
    ensures
        r.deep_view() == local_branches_call(),
{
    let r = words(
        &[
            "for-each-ref",
            "--sort=-committerdate",
            "refs/heads",
            "--format=%(HEAD)\x1f%(refname:short)\x1f%(upstream:short)\x1f%(upstream:track)\x1f%(objectname:short)\x1f%(contents:subject)",
        ],
    );
    assert(r.deep_view() =~= local_branches_call());
    r
}

/// The number that a text holds; none counts as zero.
pub open spec fn count(s: Seq<char>) -> nat {
    if text::is_number(s) {
        text::value(text::unsigned(s))
    } else {
        0
    }
}

/// The number behind `label` in the last of the parts that begins with it.
pub open spec fn labelled(list: Seq<Seq<char>>, label: Seq<char>) -> nat
    decreases list.len(),
{
    if list.len() == 0 {
        0
    } else {
        let part = text::trimmed(list.last());
        if text::begins(part, label) {
            count(part.skip(label.len() as int))
        } else {
            labelled(list.drop_last(), label)
        }
    }
}

/// How far a branch is ahead of its upstream and behind it, and whether the
/// upstream is gone.
pub open spec fn track(s: Seq<char>) -> (nat, nat, bool) {
    let t = text::trimmed(s);
    let inner = text::strip_back(text::strip_front(t, '['), ']');
    if t.len() == 0 {
        (0, 0, false)
    } else if text::holds(inner, "gone"@) {
        (0, 0, true)
    } else {
        (
            labelled(text::parts(inner, ','), "ahead "@),
            labelled(text::parts(inner, ','), "behind "@),
            false,
        )
    }
}

/// Reads how far a branch is ahead of its upstream and behind it, and whether
/// the upstream is gone.
pub fn parse_track(s: &str) -> (r: (usize, usize, bool))
    ensures
        (r.0 as nat, r.1 as nat, r.2) == track(s@),
{
    let t = trim(s);
    if t.as_str().is_empty() {
        return (0, 0, false);
    }
    let inner = strip(t.as_str(), '[', ']');
    if contains(inner.as_str(), "gone") {
        return (0, 0, true);
    }
    let mut ahead: usize = 0;
    let mut behind: usize = 0;
    let list = split(inner.as_str(), ',');
    let ghost all = list.deep_view();
    let mut i: usize = 0;
    while i < list.len()
        invariant
            i <= list@.len(),
            all == list.deep_view(),
            ahead == labelled(all.take(i as int), "ahead "@),
            behind == labelled(all.take(i as int), "behind "@),
        decreases list@.len() - i,
    {
        assert(all.take(i + 1).drop_last() =~= all.take(i as int));
        assert(all[i as int] == list@[i as int]@);
        let part = trim(list[i].as_str());
        proof {
            reveal_strlit("ahead ");
            reveal_strlit("behind ");
            if text::begins(part@, "ahead "@) && text::begins(part@, "behind "@) {
                assert(part@.take(6)[0] == 'a');
                assert(part@.take(7)[0] == 'b');
            }
        }
        if let Some(rest) = after_prefix(part.as_str(), "ahead ") {
            ahead = match parse_number(rest.as_str()) {
                Some(n) => n,
                None => 0,
            };
        } else if let Some(rest) = after_prefix(part.as_str(), "behind ") {
            behind = match parse_number(rest.as_str()) {
                Some(n) => n,
                None => 0,
            };
        }
        i += 1;
    }
    assert(all.take(all.len() as int) =~= all);
    (ahead, behind, false)
}

/// Reads a line of the list of local branches: six fields with a unit separator
/// between them.
pub open spec fn local_line() -> spec_fn(Seq<char>) -> Option<LocalBranchView> {
    |line: Seq<char>|
        {
            let f = text::first_parts(line, '\u{1f}', 6);
            if f.len() < 6 {
                None
            } else {
                let t = track(f[3]);
                Some(
                    LocalBranchView {
                        name: f[1],
                        is_head: text::trimmed(f[0]) == "*"@,
                        upstream: if f[2].len() == 0 {
                            None
                        } else {
                            Some(f[2])
                        },
                        ahead: t.0 as usize,
                        behind: t.1 as usize,
                        gone: t.2,
                        short: f[4],
                        subject: f[5],
                    },
                )
            }
        }
}

/// The branches of this repository.
pub fn local_branches(reply: &Reply) -> (r: Result<Vec<LocalBranch>, GitError>)
    ensures
        outcome(r) == read_lines(ran(local_branches_call(), reply.deep_view()), local_line()),
{
    match run(local_branches_args(), reply) {
        Ok(s) => {
            let list = split_lines(s.as_str());
            let ghost all = list.deep_view();
            let mut r: Vec<LocalBranch> = Vec::new();
            let mut i: usize = 0;
            assert(r.deep_view() =~= seq![]);
            while i < list.len()
                invariant
                    i <= list@.len(),
                    all == list.deep_view(),
                    r.deep_view() == kept(all.take(i as int), local_line()),
                decreases list@.len() - i,
            {
                assert(all.take(i + 1).drop_last() =~= all.take(i as int));
                let ghost before = r.deep_view();
                let line = list[i].as_str();
                assert(all[i as int] == line@);
                let f = split_n(line, '\u{1f}', 6);
                let ghost g = f.deep_view();
                if f.len() >= 6 {
                    assert(g[0] == f@[0]@ && g[1] == f@[1]@ && g[2] == f@[2]@ && g[3] == f@[3]@
                        && g[4] == f@[4]@ && g[5] == f@[5]@);
                    let (ahead, behind, gone) = parse_track(f[3].as_str());
                    let b = LocalBranch {
                        is_head: same(trim(f[0].as_str()).as_str(), "*"),
                        name: f[1].clone(),
                        upstream: if f[2].as_str().is_empty() {
                            None
                        } else {
                            Some(f[2].clone())
                        },
                        ahead,
                        behind,
                        gone,
                        short: f[4].clone(),
                        subject: f[5].clone(),
                    };
                    r.push(b);
                    assert(r.deep_view() =~= before.push(b.deep_view()));
                }
                i += 1;
            }
            assert(all.take(all.len() as int) =~= all);
            Ok(r)
        },
        Err(e) => Err(e),
    }
}

/// Asks for the branches of the remotes.
pub open spec fn remote_branches_call() -> Seq<Seq<char>> {
    seq![
        "for-each-ref"@,
        "--sort=refname"@,
        "refs/remotes"@,
        "--format=%(refname:short)\x1f%(objectname:short)\x1f%(contents:subject)"@,
    ]
}

/// The arguments that ask for the branches of the remotes.
pub fn remote_branches_args() -> (r: Vec<String>)
    ensures
        r.deep_view() == remote_branches_call(),
{
    let r = words(
        &[
            "for-each-ref",
            "--sort=refname",
            "refs/remotes",
            "--format=%(refname:short)\x1f%(objectname:short)\x1f%(contents:subject)",
        ],
    );
    assert(r.deep_view() =~= remote_branches_call());
    r
}

/// Reads a line of the list of remote branches: three fields with a unit
/// separator between them, the first one a remote and a branch with a slash
/// between. What a remote's `HEAD` points to is no branch of its own.
pub open spec fn remote_line() -> spec_fn(Seq<char>) -> Option<RemoteBranchView> {
    |line: Seq<char>|
        {
            let f = text::first_parts(line, '\u{1f}', 3);
            let slash = text::first(f[0], '/');
            if f.len() < 3 || text::ends(f[0], "/HEAD"@) || slash >= f[0].len() {
                None
            } else {
                Some(
                    RemoteBranchView {
                        remote: f[0].take(slash),
                        name: f[0].skip(slash + 1),
                        short: f[1],
                        subject: f[2],
                    },
                )
            }
        }
}

/// The branches of the remotes.
pub fn remote_branches(reply: &Reply) -> (r: Result<Vec<RemoteBranch>, GitError>)
    ensures
        outcome(r) == read_lines(ran(remote_branches_call(), reply.deep_view()), remote_line()),
{
    match run(remote_branches_args(), reply) {
        Ok(s) => {
            let list = split_lines(s.as_str());
            let ghost all = list.deep_view();
            let mut r: Vec<RemoteBranch> = Vec::new();
            let mut i: usize = 0;
            assert(r.deep_view() =~= seq![]);
            while i < list.len()
                invariant
                    i <= list@.len(),
                    all == list.deep_view(),
                    r.deep_view() == kept(all.take(i as int), remote_line()),
                decreases list@.len() - i,
            {
                assert(all.take(i + 1).drop_last() =~= all.take(i as int));
                let ghost before = r.deep_view();
                let line = list[i].as_str();
                assert(all[i as int] == line@);
                let f = split_n(line, '\u{1f}', 3);
                let ghost g = f.deep_view();
                if f.len() >= 3 && !ends_with(f[0].as_str(), "/HEAD") {
                    assert(g[0] == f@[0]@ && g[1] == f@[1]@ && g[2] == f@[2]@);
                    if let Some((remote, name)) = split_first(f[0].as_str(), '/') {
                        let b = RemoteBranch {
                            remote,
                            name,
                            short: f[1].clone(),
                            subject: f[2].clone(),
                        };
                        r.push(b);
                        assert(r.deep_view() =~= before.push(b.deep_view()));
                    }
                }
                i += 1;
            }
            assert(all.take(all.len() as int) =~= all);
            Ok(r)
        },
        Err(e) => Err(e),
    }
}

/// Checks out a branch.
pub open spec fn checkout_branch_call(name: Seq<char>) -> Seq<Seq<char>> {
    seq!["checkout"@, name]
}

/// The arguments that check out a branch.
pub fn checkout_branch_args(name: &str) -> (r: Vec<String>)
    ensures
        r.deep_view() == checkout_branch_call(name@),
{
    let r = words(&["checkout", name]);
    assert(r.deep_view() =~= checkout_branch_call(name@));
    r
}

/// Whether a branch was checked out.
pub fn checkout_branch(name: &str, reply: &Reply) -> (r: Result<(), GitError>)
    ensures
        outcome(r) == done(ran(checkout_branch_call(name@), reply.deep_view())),
{
    run_only(checkout_branch_args(name), reply)
}

/// Creates a branch.
pub open spec fn branch_create_call(name: Seq<char>) -> Seq<Seq<char>> {
    seq!["branch"@, name]
}

/// The arguments that create a branch.
pub fn branch_create_args(name: &str) -> (r: Vec<String>)
    ensures
        r.deep_view() == branch_create_call(name@),
{
    let r = words(&["branch", name]);
    assert(r.deep_view() =~= branch_create_call(name@));
    r
}

/// Whether a branch was created.
pub fn branch_create(name: &str, reply: &Reply) -> (r: Result<(), GitError>)
    ensures
        outcome(r) == done(ran(branch_create_call(name@), reply.deep_view())),
{
    run_only(branch_create_args(name), reply)
}

/// Deletes a branch, merged or not where it is forced.
pub open spec fn branch_delete_call(name: Seq<char>, force: bool) -> Seq<Seq<char>> {
    seq![
        "branch"@,
        if force {
            "-D"@
        } else {
            "-d"@
        },
        name,
    ]
}

/// The arguments that delete a branch.
pub fn branch_delete_args(name: &str, force: bool) -> (r: Vec<String>)
    ensures
        r.deep_view() == branch_delete_call(name@, force),
{
    let flag = if force { "-D" } else { "-d" };
    let r = words(&["branch", flag, name]);
    assert(r.deep_view() =~= branch_delete_call(name@, force));
    r
}

/// Whether a branch was deleted.
pub fn branch_delete(name: &str, force: bool, reply: &Reply) -> (r: Result<(), GitError>)
    ensures
        outcome(r) == done(ran(branch_delete_call(name@, force), reply.deep_view())),
{
    run_only(branch_delete_args(name, force), reply)
}

/// Pushes a branch to a remote, and makes it the upstream where that is asked.
pub open spec fn push_call(remote: Seq<char>, branch: Seq<char>, set_upstream: bool) -> Seq<
    Seq<char>,
> {
    if set_upstream {
        seq!["push"@, "-u"@, remote, branch]
    } else {
        seq!["push"@, remote, branch]
    }
}

/// The arguments that push a branch.
pub fn push_args(remote: &str, branch: &str, set_upstream: bool) -> (r: Vec<String>)
    ensures
        r.deep_view() == push_call(remote@, branch@, set_upstream),
{
    let r = if set_upstream {
        words(&["push", "-u", remote, branch])
    } else {
        words(&["push", remote, branch])
    };
    assert(r.deep_view() =~= push_call(remote@, branch@, set_upstream));
    r
}

/// What git said about a push: what it wrote to its error output, or, if that
/// is empty, to its output.
pub open spec fn pushed(reply: ReplyView) -> Result<Seq<char>, GitErrorView> {
    match reply {
        ReplyView::Exited { success, stdout, stderr } => if !success {
            Err(GitErrorView::PushFailed(outside::lossy(stderr)))
        } else if outside::lossy(stderr).len() == 0 {
            Ok(text::trimmed(outside::lossy(stdout)))
        } else {
            Ok(text::trimmed(outside::lossy(stderr)))
        },
        _ => Err(GitErrorView::SpawnPush),
    }
}

/// What git said about a push.
pub fn push(reply: &Reply) -> (r: Result<String, GitError>)
    ensures
        outcome(r) == pushed(reply.deep_view()),
{
    match reply {
        Reply::Exited { success, stdout, stderr } => {
            let out = lossy_text(stdout.as_slice());
            let err = lossy_text(stderr.as_slice());
            if !*success {
                Err(GitError::PushFailed(err))
            } else if err.as_str().is_empty() {
                Ok(trim(out.as_str()))
            } else {
                Ok(trim(err.as_str()))
            }
        },
        _ => Err(GitError::SpawnPush),
    }
}

} // verus!
