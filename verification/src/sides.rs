//! On which side a file is shown, what is counted of it, and in what order.

use crate::git::{FileEntryView, Stage};
use crate::outside;
use crate::rows;
use crate::text;
use crate::tree::{self, RowView, Side};
use vstd::prelude::*;

verus! {

// ---------------------------------------------------------------------------
// Sides

/// Whether a row stands for a file.
pub open spec fn shown(rows: Seq<RowView>, i: usize) -> bool {
    exists|k: int| 0 <= k < rows.len() && (#[trigger] rows[k]).entry_index == Some(i)
}

/// Whether exactly one row stands for a file.
pub open spec fn shown_once(rows: Seq<RowView>, i: usize) -> bool {
    &&& shown(rows, i)
    &&& forall|k: int, m: int|
        0 <= k < rows.len() && 0 <= m < rows.len() && (#[trigger] rows[k]).entry_index == Some(i)
            && (#[trigger] rows[m]).entry_index == Some(i) ==> k == m
}

/// A file with a change in the index has exactly one row among the staged files, as long as
/// no folder is folded: one that was added, modified, deleted, renamed, copied or whose type
/// changed. A file without a change, an untracked file and one in conflict have none.
pub proof fn law_staged_shown(entries: Seq<FileEntryView>, i: usize)
    requires
        entries.len() <= usize::MAX,
        i < entries.len(),
    ensures
        ({
            let rows = tree::side_rows(entries, Set::empty(), Side::Staged);
            match entries[i as int].index {
                Stage::Added => shown_once(rows, i),
                Stage::Modified => shown_once(rows, i),
                Stage::Deleted => shown_once(rows, i),
                Stage::Renamed => shown_once(rows, i),
                Stage::Copied => shown_once(rows, i),
                Stage::TypeChange => shown_once(rows, i),
                Stage::Ignored => shown_once(rows, i),
                Stage::Unmodified => !shown(rows, i),
                Stage::Untracked => !shown(rows, i),
                Stage::Conflicted => !shown(rows, i),
            }
        }),
{
    rows::law_files_shown(entries, Side::Staged, i);
    lemma_shown(tree::side_rows(entries, Set::empty(), Side::Staged), i);
}

/// A file with a change in the working tree has exactly one row among the unstaged files, as
/// long as no folder is folded, and so have every untracked file and every file in conflict.
/// Another file whose working tree holds no change has none.
pub proof fn law_unstaged_shown(entries: Seq<FileEntryView>, i: usize)
    requires
        entries.len() <= usize::MAX,
        i < entries.len(),
    ensures
        ({
            let rows = tree::side_rows(entries, Set::empty(), Side::Unstaged);
            let e = entries[i as int];
            &&& e.index == Stage::Untracked ==> shown_once(rows, i)
            &&& e.index == Stage::Conflicted ==> shown_once(rows, i)
            &&& match e.worktree {
                Stage::Added => shown_once(rows, i),
                Stage::Modified => shown_once(rows, i),
                Stage::Deleted => shown_once(rows, i),
                Stage::Renamed => shown_once(rows, i),
                Stage::Copied => shown_once(rows, i),
                Stage::TypeChange => shown_once(rows, i),
                Stage::Conflicted => shown_once(rows, i),
                Stage::Ignored => shown_once(rows, i),
                Stage::Unmodified => shown(rows, i) ==> e.index == Stage::Untracked || e.index
                    == Stage::Conflicted,
                Stage::Untracked => shown(rows, i) ==> e.index == Stage::Untracked || e.index
                    == Stage::Conflicted,
            }
        }),
{
    rows::law_files_shown(entries, Side::Unstaged, i);
    lemma_shown(tree::side_rows(entries, Set::empty(), Side::Unstaged), i);
}

/// No change is out of sight: a file whose stage in the index or in the working tree is other
/// than unmodified and ignored has a row on one side at least, unless only its working tree
/// calls it untracked.
pub proof fn law_changes_shown(entries: Seq<FileEntryView>, i: usize)
    requires
        entries.len() <= usize::MAX,
        i < entries.len(),
        ({
            let e = entries[i as int];
            ||| e.index != Stage::Unmodified && e.index != Stage::Ignored
            ||| e.worktree != Stage::Unmodified && e.worktree != Stage::Ignored && e.worktree
                != Stage::Untracked
        }),
    ensures
        shown(tree::side_rows(entries, Set::empty(), Side::Staged), i) || shown(
            tree::side_rows(entries, Set::empty(), Side::Unstaged),
            i,
        ),
{
    law_staged_shown(entries, i);
    law_unstaged_shown(entries, i);
}

/// The index holds a change of a file unless its stage there is unmodified or untracked.
pub proof fn law_index_held(e: FileEntryView)
    ensures
        match e.index {
            Stage::Unmodified => !e.staged(),
            Stage::Untracked => !e.staged(),
            _ => e.staged(),
        },
{
}

proof fn lemma_shown(rows: Seq<RowView>, i: usize)
    ensures
        rows::times_shown(rows, i) == 0 <==> !shown(rows, i),
        rows::times_shown(rows, i) == 1 ==> shown_once(rows, i),
    decreases rows.len(),
{
    if rows.len() > 0 {
        let d = rows.drop_last();
        lemma_shown(d, i);
        let n = rows.len() - 1;
        assert forall|k: int| 0 <= k < n implies #[trigger] rows[k] == d[k] by {}
        if shown(d, i) {
            let k = choose|k: int| 0 <= k < d.len() && (#[trigger] d[k]).entry_index == Some(i);
            assert(rows[k] == d[k]);
        }
        if rows.last().entry_index == Some(i) {
            assert(rows[n].entry_index == Some(i));
        }
        if rows::times_shown(rows, i) == 1 {
            if rows.last().entry_index == Some(i) {
                assert(!shown(d, i));
            }
            assert forall|k: int, m: int|
                0 <= k < rows.len() && 0 <= m < rows.len() && (#[trigger] rows[k]).entry_index
                    == Some(i) && (#[trigger] rows[m]).entry_index == Some(i) implies k == m by {
                if k < n {
                    assert(d[k].entry_index == Some(i));
                }
                if m < n {
                    assert(d[m].entry_index == Some(i));
                }
            }
        }
        if !shown(rows, i) {
            if shown(d, i) {
                let k = choose|k: int| 0 <= k < d.len() && (#[trigger] d[k]).entry_index == Some(i);
                assert(rows[k].entry_index == Some(i));
            }
        }
    }
}

// ---------------------------------------------------------------------------
// Counts

/// The row of a file counts one file: as staged on the staged side, and on the unstaged side
/// as in conflict, as untracked or as unstaged. It tells whether what that side holds was
/// added, modified or deleted.
pub proof fn law_file_counted(
    entries: Seq<FileEntryView>,
    collapsed: Set<Seq<char>>,
    side: Side,
    k: int,
)
    requires
        entries.len() <= usize::MAX,
        0 <= k < tree::side_rows(entries, collapsed, side).len(),
        tree::side_rows(entries, collapsed, side)[k].entry_index is Some,
    ensures
        ({
            let r = tree::side_rows(entries, collapsed, side)[k];
            let e = entries[r.entry_index->0 as int];
            let apart = e.index == Stage::Conflicted || e.index == Stage::Untracked;
            let stage = if side == Side::Staged {
                e.index
            } else {
                e.worktree
            };
            &&& r.entry_index->0 < entries.len()
            &&& r.agg.staged + r.agg.unstaged + r.agg.untracked + r.agg.conflict == 1
            &&& r.agg.staged == 1 <==> side == Side::Staged
            &&& r.agg.conflict == 1 <==> side == Side::Unstaged && e.index == Stage::Conflicted
            &&& r.agg.untracked == 1 <==> side == Side::Unstaged && e.index == Stage::Untracked
            &&& r.agg.added + r.agg.modified + r.agg.deleted <= 1
            &&& r.agg.added == 1 <==> stage == Stage::Added && (side == Side::Staged || !apart)
            &&& r.agg.modified == 1 <==> stage == Stage::Modified && (side == Side::Staged
                || !apart)
            &&& r.agg.deleted == 1 <==> stage == Stage::Deleted && (side == Side::Staged
                || !apart)
            &&& r.lfs_tracked == e.lfs_tracked
            &&& r.lfs_pointer_warn == (e.lfs_tracked && e.lfs_pointer_ok == Some(false))
        }),
{
    rows::law_rows_faithful(entries, collapsed, side);
    assert(rows::faithful(
        tree::side_rows(entries, collapsed, side)[k],
        entries,
        collapsed,
        side,
        entries.len(),
    ));
}

/// The number of files that meet a condition.
pub open spec fn number(
    entries: Seq<FileEntryView>,
    counted: spec_fn(FileEntryView) -> bool,
) -> nat {
    entries.filter(counted).len()
}

/// Whether a path lies below a folder.
pub open spec fn lies_below(path: Seq<char>, folder: Seq<char>) -> bool {
    exists|rest: Seq<char>| path == #[trigger] (folder + "/"@ + rest)
}

/// Whether the index holds a change of a file that is in no conflict.
pub open spec fn index_changed(e: FileEntryView) -> bool {
    match e.index {
        Stage::Unmodified => false,
        Stage::Untracked => false,
        Stage::Conflicted => false,
        _ => true,
    }
}

/// Whether the working tree holds a change of a file that is neither untracked nor in
/// conflict.
pub open spec fn tree_changed(e: FileEntryView) -> bool {
    match e.index {
        Stage::Untracked => false,
        Stage::Conflicted => false,
        _ => match e.worktree {
            Stage::Unmodified => false,
            Stage::Untracked => false,
            _ => true,
        },
    }
}

/// The row of a folder counts the files below it: on the staged side those with a change in
/// the index, and of them those added, modified and deleted.
pub proof fn law_staged_folder_counted(
    entries: Seq<FileEntryView>,
    collapsed: Set<Seq<char>>,
    k: int,
)
    requires
        forall|i: int| 0 <= i < entries.len() ==> !text::begins((#[trigger] entries[i]).path, "/"@),
        0 <= k < tree::side_rows(entries, collapsed, Side::Staged).len(),
        tree::side_rows(entries, collapsed, Side::Staged)[k].is_dir,
    ensures
        ({
            let r = tree::side_rows(entries, collapsed, Side::Staged)[k];
            let p = r.path;
            &&& r.agg.staged == number(
                entries,
                |e: FileEntryView| lies_below(e.path, p) && index_changed(e),
            )
            &&& r.agg.unstaged == 0
            &&& r.agg.untracked == 0
            &&& r.agg.conflict == 0
            &&& r.agg.added == number(
                entries,
                |e: FileEntryView| lies_below(e.path, p) && e.index == Stage::Added,
            )
            &&& r.agg.modified == number(
                entries,
                |e: FileEntryView| lies_below(e.path, p) && e.index == Stage::Modified,
            )
            &&& r.agg.deleted == number(
                entries,
                |e: FileEntryView| lies_below(e.path, p) && e.index == Stage::Deleted,
            )
        }),
{
    rows::law_folders_count(entries, collapsed, Side::Staged);
    let r = tree::side_rows(entries, collapsed, Side::Staged)[k];
    assert(rows::sums_up(r, entries, Side::Staged));
    lemma_staged_below(entries, r.path);
}

/// The row of a folder counts the files below it: on the unstaged side those in conflict,
/// those untracked, and the others with a change in the working tree, and of these others
/// those added, modified and deleted.
pub proof fn law_unstaged_folder_counted(
    entries: Seq<FileEntryView>,
    collapsed: Set<Seq<char>>,
    k: int,
)
    requires
        forall|i: int| 0 <= i < entries.len() ==> !text::begins((#[trigger] entries[i]).path, "/"@),
        0 <= k < tree::side_rows(entries, collapsed, Side::Unstaged).len(),
        tree::side_rows(entries, collapsed, Side::Unstaged)[k].is_dir,
    ensures
        ({
            let r = tree::side_rows(entries, collapsed, Side::Unstaged)[k];
            let p = r.path;
            &&& r.agg.staged == 0
            &&& r.agg.unstaged == number(
                entries,
                |e: FileEntryView| lies_below(e.path, p) && tree_changed(e),
            )
            &&& r.agg.untracked == number(
                entries,
                |e: FileEntryView| lies_below(e.path, p) && e.index == Stage::Untracked,
            )
            &&& r.agg.conflict == number(
                entries,
                |e: FileEntryView| lies_below(e.path, p) && e.index == Stage::Conflicted,
            )
            &&& r.agg.added == number(
                entries,
                |e: FileEntryView|
                    lies_below(e.path, p) && tree_changed(e) && e.worktree == Stage::Added,
            )
            &&& r.agg.modified == number(
                entries,
                |e: FileEntryView|
                    lies_below(e.path, p) && tree_changed(e) && e.worktree == Stage::Modified,
            )
            &&& r.agg.deleted == number(
                entries,
                |e: FileEntryView|
                    lies_below(e.path, p) && tree_changed(e) && e.worktree == Stage::Deleted,
            )
        }),
{
    rows::law_folders_count(entries, collapsed, Side::Unstaged);
    let r = tree::side_rows(entries, collapsed, Side::Unstaged)[k];
    assert(rows::sums_up(r, entries, Side::Unstaged));
    lemma_unstaged_below(entries, r.path);
}

proof fn lemma_lies_below(path: Seq<char>, folder: Seq<char>)
    ensures
        text::begins(path, folder + "/"@) == lies_below(path, folder),
{
    let p = folder + "/"@;
    if text::begins(path, p) {
        let rest = path.skip(p.len() as int);
        assert(path =~= folder + "/"@ + rest);
    }
    if lies_below(path, folder) {
        let rest = choose|rest: Seq<char>| path == #[trigger] (folder + "/"@ + rest);
        assert(path.take(p.len() as int) =~= p);
    }
}

proof fn lemma_number(entries: Seq<FileEntryView>, counted: spec_fn(FileEntryView) -> bool)
    requires
        entries.len() > 0,
    ensures
        number(entries, counted) == number(entries.drop_last(), counted) + if counted(
            entries.last(),
        ) {
            1nat
        } else {
            0nat
        },
{
    reveal(Seq::filter);
}

proof fn lemma_number_none(counted: spec_fn(FileEntryView) -> bool)
    ensures
        number(Seq::<FileEntryView>::empty(), counted) == 0,
{
    reveal(Seq::filter);
}

proof fn lemma_staged_below(entries: Seq<FileEntryView>, p: Seq<char>)
    ensures
        ({
            let a = rows::below(entries, Side::Staged, p);
            &&& a.staged == number(
                entries,
                |e: FileEntryView| lies_below(e.path, p) && index_changed(e),
            )
            &&& a.unstaged == 0
            &&& a.untracked == 0
            &&& a.conflict == 0
            &&& a.added == number(
                entries,
                |e: FileEntryView| lies_below(e.path, p) && e.index == Stage::Added,
            )
            &&& a.modified == number(
                entries,
                |e: FileEntryView| lies_below(e.path, p) && e.index == Stage::Modified,
            )
            &&& a.deleted == number(
                entries,
                |e: FileEntryView| lies_below(e.path, p) && e.index == Stage::Deleted,
            )
        }),
    decreases entries.len(),
{
    let all = |e: FileEntryView| lies_below(e.path, p) && index_changed(e);
    let added = |e: FileEntryView| lies_below(e.path, p) && e.index == Stage::Added;
    let modified = |e: FileEntryView| lies_below(e.path, p) && e.index == Stage::Modified;
    let deleted = |e: FileEntryView| lies_below(e.path, p) && e.index == Stage::Deleted;
    if entries.len() == 0 {
        assert(entries =~= Seq::<FileEntryView>::empty());
        lemma_number_none(all);
        lemma_number_none(added);
        lemma_number_none(modified);
        lemma_number_none(deleted);
    } else {
        lemma_staged_below(entries.drop_last(), p);
        lemma_lies_below(entries.last().path, p);
        lemma_number(entries, all);
        lemma_number(entries, added);
        lemma_number(entries, modified);
        lemma_number(entries, deleted);
    }
}

proof fn lemma_unstaged_below(entries: Seq<FileEntryView>, p: Seq<char>)
    ensures
        ({
            let a = rows::below(entries, Side::Unstaged, p);
            &&& a.staged == 0
            &&& a.unstaged == number(
                entries,
                |e: FileEntryView| lies_below(e.path, p) && tree_changed(e),
            )
            &&& a.untracked == number(
                entries,
                |e: FileEntryView| lies_below(e.path, p) && e.index == Stage::Untracked,
            )
            &&& a.conflict == number(
                entries,
                |e: FileEntryView| lies_below(e.path, p) && e.index == Stage::Conflicted,
            )
            &&& a.added == number(
                entries,
                |e: FileEntryView|
                    lies_below(e.path, p) && tree_changed(e) && e.worktree == Stage::Added,
            )
            &&& a.modified == number(
                entries,
                |e: FileEntryView|
                    lies_below(e.path, p) && tree_changed(e) && e.worktree == Stage::Modified,
            )
            &&& a.deleted == number(
                entries,
                |e: FileEntryView|
                    lies_below(e.path, p) && tree_changed(e) && e.worktree == Stage::Deleted,
            )
        }),
    decreases entries.len(),
{
    let all = |e: FileEntryView| lies_below(e.path, p) && tree_changed(e);
    let untracked = |e: FileEntryView| lies_below(e.path, p) && e.index == Stage::Untracked;
    let conflict = |e: FileEntryView| lies_below(e.path, p) && e.index == Stage::Conflicted;
    let added = |e: FileEntryView|
        lies_below(e.path, p) && tree_changed(e) && e.worktree == Stage::Added;
    let modified = |e: FileEntryView|
        lies_below(e.path, p) && tree_changed(e) && e.worktree == Stage::Modified;
    let deleted = |e: FileEntryView|
        lies_below(e.path, p) && tree_changed(e) && e.worktree == Stage::Deleted;
    if entries.len() == 0 {
        assert(entries =~= Seq::<FileEntryView>::empty());
        lemma_number_none(all);
        lemma_number_none(untracked);
        lemma_number_none(conflict);
        lemma_number_none(added);
        lemma_number_none(modified);
        lemma_number_none(deleted);
    } else {
        lemma_unstaged_below(entries.drop_last(), p);
        lemma_lies_below(entries.last().path, p);
        lemma_number(entries, all);
        lemma_number(entries, untracked);
        lemma_number(entries, conflict);
        lemma_number(entries, added);
        lemma_number(entries, modified);
        lemma_number(entries, deleted);
    }
}

// ---------------------------------------------------------------------------
// Order

/// Whether two texts agree before a place.
pub open spec fn agree(a: Seq<char>, b: Seq<char>, k: int) -> bool {
    &&& 0 <= k <= a.len()
    &&& k <= b.len()
    &&& forall|j: int| 0 <= j < k ==> a[j] == b[j]
}

/// Of two texts that agree before a place, the one that ends there, or that has the lesser
/// character there, comes first.
pub proof fn law_first_difference(a: Seq<char>, b: Seq<char>, k: int)
    requires
        agree(a, b, k),
    ensures
        k == a.len() && k < b.len() ==> text::precedes(a, b) && !text::precedes(b, a),
        k < a.len() && k < b.len() && a[k] < b[k] ==> text::precedes(a, b) && !text::precedes(
            b,
            a,
        ),
    decreases k,
{
    if k > 0 {
        assert(a[0] == b[0]);
        let s = a.skip(1);
        let t = b.skip(1);
        assert forall|j: int| 0 <= j < k - 1 implies s[j] == t[j] by {
            assert(a[j + 1] == b[j + 1]);
        }
        law_first_difference(s, t, k - 1);
    }
}

/// Below a folder, or at the top, the folders come before the files, and each of the two
/// follow in the order of their names in lower case.
pub proof fn law_names_ordered(
    entries: Seq<FileEntryView>,
    collapsed: Set<Seq<char>>,
    side: Side,
    i: int,
    j: int,
    k: int,
)
    requires
        rows::siblings(tree::side_rows(entries, collapsed, side), i, j),
    ensures
        ({
            let a = tree::side_rows(entries, collapsed, side)[i];
            let b = tree::side_rows(entries, collapsed, side)[j];
            let x = outside::lowercase(rows::head(a.name));
            let y = outside::lowercase(rows::head(b.name));
            &&& b.is_dir ==> a.is_dir
            &&& a.is_dir == b.is_dir && agree(x, y, k) ==> {
                &&& k == y.len() ==> k == x.len()
                &&& k < x.len() && k < y.len() ==> x[k] <= y[k]
            }
        }),
{
    rows::law_rows_ordered(entries, collapsed, side, i, j);
    let a = tree::side_rows(entries, collapsed, side)[i];
    let b = tree::side_rows(entries, collapsed, side)[j];
    let x = outside::lowercase(rows::head(a.name));
    let y = outside::lowercase(rows::head(b.name));
    if agree(x, y, k) {
        assert(agree(y, x, k));
        law_first_difference(y, x, k);
    }
}

} // verus!
