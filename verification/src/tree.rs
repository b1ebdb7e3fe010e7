//! The changed files as a tree of folders.

use crate::git::{FileEntry, FileEntryView, Stage};
use crate::outside::{self, lowercase_text};
use crate::text::{self, chars_of, concat3, is_before, same, split};
use vstd::hash_set::StringHashSet;
use vstd::prelude::*;

verus! {

/// What a node of the tree is.
#[derive(Debug, Clone, Copy, PartialEq, Eq, Structural)]
pub enum NodeKind {
    Dir,
    File,
}

/// Which half of the status view a tree represents.
#[derive(Debug, Clone, Copy, PartialEq, Eq, Structural)]
pub enum Side {
    Unstaged,
    Staged,
}

// ---------------------------------------------------------------------------
// Counts

/// How many files are in which state.
#[derive(Debug, Clone, Copy)]
pub struct Agg {
    pub staged: u32,
    pub unstaged: u32,
    pub untracked: u32,
    pub conflict: u32,
    pub added: u32,
    pub modified: u32,
    pub deleted: u32,
}

/// The view of an `Agg`.
pub struct AggView {
    pub staged: nat,
    pub unstaged: nat,
    pub untracked: nat,
    pub conflict: nat,
    pub added: nat,
    pub modified: nat,
    pub deleted: nat,
}

impl DeepView for Agg {
    type V = AggView;

    open spec fn deep_view(&self) -> AggView {
        AggView {
            staged: self.staged as nat,
            unstaged: self.unstaged as nat,
            untracked: self.untracked as nat,
            conflict: self.conflict as nat,
            added: self.added as nat,
            modified: self.modified as nat,
            deleted: self.deleted as nat,
        }
    }
}

impl AggView {
    /// No files.
    pub open spec fn none() -> AggView {
        AggView {
            staged: 0,
            unstaged: 0,
            untracked: 0,
            conflict: 0,
            added: 0,
            modified: 0,
            deleted: 0,
        }
    }

    /// The files of two counts together.
    pub open spec fn plus(self, o: AggView) -> AggView {
        AggView {
            staged: self.staged + o.staged,
            unstaged: self.unstaged + o.unstaged,
            untracked: self.untracked + o.untracked,
            conflict: self.conflict + o.conflict,
            added: self.added + o.added,
            modified: self.modified + o.modified,
            deleted: self.deleted + o.deleted,
        }
    }

    /// Whether no count is above `n`.
    pub open spec fn within(self, n: nat) -> bool {
        &&& self.staged <= n
        &&& self.unstaged <= n
        &&& self.untracked <= n
        &&& self.conflict <= n
        &&& self.added <= n
        &&& self.modified <= n
        &&& self.deleted <= n
    }

    /// The number of files: each is staged, unstaged, untracked or in conflict.
    pub open spec fn files(self) -> nat {
        self.staged + self.unstaged + self.untracked + self.conflict
    }
}

impl Default for Agg {
    fn default() -> (a: Agg)
        ensures
            a.deep_view() == AggView::none(),
    {
        Agg {
            staged: 0,
            unstaged: 0,
            untracked: 0,
            conflict: 0,
            added: 0,
            modified: 0,
            deleted: 0,
        }
    }
}

impl Agg {
    /// Adds the files of another count.
    pub fn merge(&mut self, o: &Agg)
        requires
            old(self).deep_view().plus(o.deep_view()).within(u32::MAX as nat),
        ensures
            final(self).deep_view() == old(self).deep_view().plus(o.deep_view()),
    {
        self.staged += o.staged;
        self.unstaged += o.unstaged;
        self.untracked += o.untracked;
        self.conflict += o.conflict;
        self.added += o.added;
        self.modified += o.modified;
        self.deleted += o.deleted;
    }

    /// Whether a file is staged.
    pub fn has_staged(&self) -> (r: bool)
        ensures
            r == (self.deep_view().staged > 0),
    {
        self.staged > 0
    }

    /// Whether a file is unstaged or untracked.
    pub fn has_unstaged_or_untracked(&self) -> (r: bool)
        ensures
            r == (self.deep_view().unstaged > 0 || self.deep_view().untracked > 0),
    {
        self.unstaged > 0 || self.untracked > 0
    }
}

/// Whether a file belongs to a side.
pub open spec fn on_side(e: FileEntryView, side: Side) -> bool {
    match side {
        Side::Unstaged => e.unstaged_side(),
        Side::Staged => e.staged_side(),
    }
}

/// What a file counts for on a side that it belongs to.
pub open spec fn counts(e: FileEntryView, side: Side) -> AggView {
    let none = AggView::none();
    let stage = if side == Side::Staged {
        e.index
    } else {
        e.worktree
    };
    if side == Side::Unstaged && e.index == Stage::Conflicted {
        AggView { conflict: 1, ..none }
    } else if side == Side::Unstaged && e.index == Stage::Untracked {
        AggView { untracked: 1, ..none }
    } else {
        AggView {
            staged: if side == Side::Staged {
                1
            } else {
                0
            },
            unstaged: if side == Side::Unstaged {
                1
            } else {
                0
            },
            added: if stage == Stage::Added {
                1
            } else {
                0
            },
            modified: if stage == Stage::Modified {
                1
            } else {
                0
            },
            deleted: if stage == Stage::Deleted {
                1
            } else {
                0
            },
            ..none
        }
    }
}

/// Status counts for one file, reflecting only the requested side. Callers only
/// pass entries that belong to `side` (see `in_unstaged`/`in_staged`).
fn file_agg(e: &FileEntry, side: Side) -> (a: Agg)
    ensures
        a.deep_view() == counts(e.deep_view(), side),
{
    let mut a = Agg::default();
    match side {
        Side::Unstaged => {
            if e.index == Stage::Conflicted {
                a.conflict = 1;
                return a;
            }
            if e.index == Stage::Untracked {
                a.untracked = 1;
                return a;
            }
            a.unstaged = 1;
            match e.worktree {
                Stage::Added => a.added = 1,
                Stage::Modified => a.modified = 1,
                Stage::Deleted => a.deleted = 1,
                _ => {},
            }
        },
        Side::Staged => {
            a.staged = 1;
            match e.index {
                Stage::Added => a.added = 1,
                Stage::Modified => a.modified = 1,
                Stage::Deleted => a.deleted = 1,
                _ => {},
            }
        },
    }
    a
}

// ---------------------------------------------------------------------------
// Rows

/// One line of a tree.
#[derive(Debug, Clone)]
pub struct Row {
    pub path: String,
    pub name: String,
    pub level: usize,
    pub is_dir: bool,
    pub expanded: bool,
    pub agg: Agg,
    pub lfs_tracked: bool,
    pub lfs_pointer_warn: bool,
    pub entry_index: Option<usize>,
}

/// The view of a `Row`.
pub struct RowView {
    pub path: Seq<char>,
    pub name: Seq<char>,
    pub level: nat,
    pub is_dir: bool,
    pub expanded: bool,
    pub agg: AggView,
    pub lfs_tracked: bool,
    pub lfs_pointer_warn: bool,
    pub entry_index: Option<usize>,
}

impl DeepView for Row {
    type V = RowView;

    open spec fn deep_view(&self) -> RowView {
        RowView {
            path: self.path@,
            name: self.name@,
            level: self.level as nat,
            is_dir: self.is_dir,
            expanded: self.expanded,
            agg: self.agg.deep_view(),
            lfs_tracked: self.lfs_tracked,
            lfs_pointer_warn: self.lfs_pointer_warn,
            entry_index: self.entry_index,
        }
    }
}

/// A file of the tree: what is left of its path below the folder at hand, and
/// what its row shows.
pub struct Leaf {
    pub parts: Seq<Seq<char>>,
    pub agg: AggView,
    pub lfs: bool,
    pub warn: bool,
    pub index: usize,
}

/// The leaf for the file at `index`.
pub open spec fn leaf(e: FileEntryView, side: Side, index: usize) -> Leaf {
    Leaf {
        parts: text::parts(e.path, '/'),
        agg: counts(e, side),
        lfs: e.lfs_tracked,
        warn: e.lfs_tracked && e.lfs_pointer_ok == Some(false),
        index,
    }
}

/// The files that belong to a side, in their order.
pub open spec fn leaves(entries: Seq<FileEntryView>, side: Side) -> Seq<Leaf>
    decreases entries.len(),
{
    if entries.len() == 0 {
        seq![]
    } else {
        let before = leaves(entries.drop_last(), side);
        if on_side(entries.last(), side) {
            before.push(leaf(entries.last(), side, (entries.len() - 1) as usize))
        } else {
            before
        }
    }
}

/// The path of what is called `name` in the folder `prefix`.
pub open spec fn under(prefix: Seq<char>, name: Seq<char>) -> Seq<char> {
    if prefix.len() == 0 {
        name
    } else {
        prefix + "/"@ + name
    }
}

/// The names of the folders that leaves lie in, by first appearance.
pub open spec fn folders(l: Seq<Leaf>) -> Seq<Seq<char>>
    decreases l.len(),
{
    if l.len() == 0 {
        seq![]
    } else {
        let before = folders(l.drop_last());
        if l.last().parts.len() > 1 && !before.contains(l.last().parts[0]) {
            before.push(l.last().parts[0])
        } else {
            before
        }
    }
}

/// The leaves in the folder `name`, seen from inside it.
pub open spec fn inside(l: Seq<Leaf>, name: Seq<char>) -> Seq<Leaf>
    decreases l.len(),
{
    if l.len() == 0 {
        seq![]
    } else {
        let before = inside(l.drop_last(), name);
        if l.last().parts.len() > 1 && l.last().parts[0] == name {
            before.push(Leaf { parts: l.last().parts.skip(1), ..l.last() })
        } else {
            before
        }
    }
}

/// The leaves that lie in no further folder.
pub open spec fn direct(l: Seq<Leaf>) -> Seq<Leaf>
    decreases l.len(),
{
    if l.len() == 0 {
        seq![]
    } else {
        let before = direct(l.drop_last());
        if l.last().parts.len() > 1 {
            before
        } else {
            before.push(l.last())
        }
    }
}

/// The counts of all leaves together.
pub open spec fn total(l: Seq<Leaf>) -> AggView
    decreases l.len(),
{
    if l.len() == 0 {
        AggView::none()
    } else {
        total(l.drop_last()).plus(l.last().agg)
    }
}

/// Whether a leaf is of the large-file storage.
pub open spec fn any_lfs(l: Seq<Leaf>) -> bool {
    exists|i: int| 0 <= i < l.len() && (#[trigger] l[i]).lfs
}

/// Whether a leaf carries a warning.
pub open spec fn any_warn(l: Seq<Leaf>) -> bool {
    exists|i: int| 0 <= i < l.len() && (#[trigger] l[i]).warn
}

/// Whether `a` is sorted before `b`, letter case aside.
pub open spec fn sorts_before(a: Seq<char>, b: Seq<char>) -> bool {
    text::precedes(outside::lowercase(a), outside::lowercase(b))
}

/// `x` put in its place in a sorted list, before what is equal to it.
pub open spec fn put<T>(x: T, list: Seq<T>, less: spec_fn(T, T) -> bool) -> Seq<T>
    decreases list.len(),
{
    if list.len() > 0 && less(list[0], x) {
        seq![list[0]] + put(x, list.skip(1), less)
    } else {
        seq![x] + list
    }
}

/// The list sorted; what is equal keeps its order.
pub open spec fn sorted<T>(list: Seq<T>, less: spec_fn(T, T) -> bool) -> Seq<T>
    decreases list.len(),
{
    if list.len() == 0 {
        seq![]
    } else {
        put(list[0], sorted(list.skip(1), less), less)
    }
}

/// The order of names.
pub open spec fn by_name() -> spec_fn(Seq<char>, Seq<char>) -> bool {
    |a: Seq<char>, b: Seq<char>| sorts_before(a, b)
}

/// The order of leaves by their names.
pub open spec fn by_leaf_name() -> spec_fn(Leaf, Leaf) -> bool {
    |a: Leaf, b: Leaf| sorts_before(a.parts[0], b.parts[0])
}

/// The number of path parts that leaves have left.
pub open spec fn weight(l: Seq<Leaf>) -> nat
    decreases l.len(),
{
    if l.len() == 0 {
        0
    } else {
        weight(l.drop_last()) + l.last().parts.len()
    }
}

/// Inside a folder every leaf has one part less.
pub proof fn lemma_inside_weight(l: Seq<Leaf>, name: Seq<char>)
    ensures
        weight(inside(l, name)) + inside(l, name).len() <= weight(l),
    decreases l.len(),
{
    if l.len() > 0 {
        lemma_inside_weight(l.drop_last(), name);
        let before = inside(l.drop_last(), name);
        if l.last().parts.len() > 1 && l.last().parts[0] == name {
            assert(inside(l, name).drop_last() =~= before);
        }
    }
}

/// The row of a file in the folder `prefix`.
pub open spec fn file_row(f: Leaf, prefix: Seq<char>, level: nat) -> RowView {
    RowView {
        path: under(prefix, f.parts[0]),
        name: f.parts[0],
        level,
        is_dir: false,
        expanded: false,
        agg: f.agg,
        lfs_tracked: f.lfs,
        lfs_pointer_warn: f.warn,
        entry_index: Some(f.index),
    }
}

/// The rows for the content of the folder `prefix`: its folders, then its
/// files, each sorted by name.
pub open spec fn content_rows(
    l: Seq<Leaf>,
    prefix: Seq<char>,
    level: nat,
    collapsed: Set<Seq<char>>,
) -> Seq<RowView>
    decreases weight(l), 1nat, 0nat,
{
    let files = sorted(direct(l), by_leaf_name());
    folder_rows(l, sorted(folders(l), by_name()), prefix, level, collapsed) + Seq::new(
        files.len(),
        |i: int| file_row(files[i], prefix, level),
    )
}

/// The rows for the folders with the given names.
pub open spec fn folder_rows(
    l: Seq<Leaf>,
    names: Seq<Seq<char>>,
    prefix: Seq<char>,
    level: nat,
    collapsed: Set<Seq<char>>,
) -> Seq<RowView>
    decreases weight(l), 0nat, names.len(),
{
    proof {
        lemma_inside_weight(l, names.last());
    }
    if names.len() == 0 {
        seq![]
    } else {
        let name = names.last();
        let own = if inside(l, name).len() == 0 {
            seq![]
        } else {
            one_folder_rows(inside(l, name), name, under(prefix, name), level, collapsed)
        };
        folder_rows(l, names.drop_last(), prefix, level, collapsed) + own
    }
}

/// The rows for a folder that holds the given leaves. A folder that holds just
/// one folder shares its row with it. What a folder holds is hidden where its
/// path is collapsed.
pub open spec fn one_folder_rows(
    l: Seq<Leaf>,
    name: Seq<char>,
    path: Seq<char>,
    level: nat,
    collapsed: Set<Seq<char>>,
) -> Seq<RowView>
    decreases weight(l), 2nat, 0nat,
{
    proof {
        lemma_inside_weight(l, folders(l)[0]);
    }
    if folders(l).len() == 1 && direct(l).len() == 0 && inside(l, folders(l)[0]).len() > 0 {
        let only = folders(l)[0];
        one_folder_rows(
            inside(l, only),
            name + "/"@ + only,
            under(path, only),
            level,
            collapsed,
        )
    } else {
        let row = RowView {
            path,
            name,
            level,
            is_dir: true,
            expanded: !collapsed.contains(path),
            agg: total(l),
            lfs_tracked: any_lfs(l),
            lfs_pointer_warn: any_warn(l),
            entry_index: None,
        };
        if collapsed.contains(path) {
            seq![row]
        } else {
            seq![row] + content_rows(l, path, level + 1, collapsed)
        }
    }
}

/// The rows of a side of the status view.
pub open spec fn side_rows(
    entries: Seq<FileEntryView>,
    collapsed: Set<Seq<char>>,
    side: Side,
) -> Seq<RowView> {
    content_rows(leaves(entries, side), seq![], 0, collapsed)
}

// ---------------------------------------------------------------------------
// The tree that the rows are read off

struct Node {
    name: String,
    path: String,
    kind: NodeKind,
    children: Vec<Node>,
    expanded: bool,
    agg: Agg,
    lfs_tracked: bool,
    lfs_pointer_warn: bool,
    entry_index: Option<usize>,
}

/// The view of a `Node`.
struct Tree {
    name: Seq<char>,
    path: Seq<char>,
    is_dir: bool,
    children: Seq<Tree>,
    expanded: bool,
    agg: AggView,
    lfs: bool,
    warn: bool,
    index: Option<usize>,
}

spec fn shape(n: Node) -> Tree
    decreases n,
{
    Tree {
        name: n.name@,
        path: n.path@,
        is_dir: n.kind == NodeKind::Dir,
        children: Seq::new(
            n.children@.len(),
            |i: int|
                if 0 <= i < n.children@.len() {
                    shape(n.children@[i])
                } else {
                    arbitrary()
                },
        ),
        expanded: n.expanded,
        agg: n.agg.deep_view(),
        lfs: n.lfs_tracked,
        warn: n.lfs_pointer_warn,
        index: n.entry_index,
    }
}

spec fn shapes(c: Seq<Node>) -> Seq<Tree> {
    Seq::new(c.len(), |i: int| shape(c[i]))
}

proof fn lemma_shape(n: Node)
    ensures
        shape(n).children == shapes(n.children@),
{
    assert(shape(n).children =~= shapes(n.children@));
}

spec fn dir_tree(name: Seq<char>, path: Seq<char>, expanded: bool, children: Seq<Tree>) -> Tree {
    Tree {
        name,
        path,
        is_dir: true,
        children,
        expanded,
        agg: AggView::none(),
        lfs: false,
        warn: false,
        index: None,
    }
}

spec fn file_tree(f: Leaf, path: Seq<char>) -> Tree {
    Tree {
        name: f.parts[0],
        path,
        is_dir: false,
        children: seq![],
        expanded: false,
        agg: f.agg,
        lfs: f.lfs,
        warn: f.warn,
        index: Some(f.index),
    }
}

/// The place of the folder `name` among trees, or their number.
spec fn find_dir(c: Seq<Tree>, name: Seq<char>) -> int
    decreases c.len(),
{
    if c.len() == 0 || (c[0].is_dir && c[0].name == name) {
        0
    } else {
        1 + find_dir(c.skip(1), name)
    }
}

proof fn lemma_find_dir(c: Seq<Tree>, name: Seq<char>)
    ensures
        0 <= find_dir(c, name) <= c.len(),
        find_dir(c, name) < c.len() ==> c[find_dir(c, name)].is_dir && c[find_dir(c, name)].name
            == name,
        forall|j: int| 0 <= j < find_dir(c, name) ==> !(c[j].is_dir && c[j].name == name),
    decreases c.len(),
{
    if c.len() > 0 && !(c[0].is_dir && c[0].name == name) {
        lemma_find_dir(c.skip(1), name);
        assert forall|j: int| 0 <= j < find_dir(c, name) implies !(c[j].is_dir && c[j].name
            == name) by {
            if j > 0 {
                assert(c.skip(1)[j - 1] == c[j]);
            }
        }
    }
}

proof fn lemma_find_dir_is(c: Seq<Tree>, name: Seq<char>, i: int)
    requires
        0 <= i <= c.len(),
        i < c.len() ==> c[i].is_dir && c[i].name == name,
        forall|j: int| 0 <= j < i ==> !(c[j].is_dir && c[j].name == name),
    ensures
        find_dir(c, name) == i,
{
    lemma_find_dir(c, name);
    let f = find_dir(c, name);
    if f < i {
        assert(c[f].is_dir && c[f].name == name);
    }
}

/// The content of a folder with one more leaf.
spec fn grow(c: Seq<Tree>, f: Leaf, prefix: Seq<char>, collapsed: Set<Seq<char>>) -> Seq<Tree>
    decreases f.parts.len(),
{
    let name = f.parts[0];
    let full = under(prefix, name);
    if f.parts.len() <= 1 {
        c.push(file_tree(f, full))
    } else {
        let rest = Leaf { parts: f.parts.skip(1), ..f };
        let i = find_dir(c, name);
        if i < c.len() {
            c.update(i, Tree { children: grow(c[i].children, rest, full, collapsed), ..c[i] })
        } else {
            c.push(
                dir_tree(
                    name,
                    full,
                    !collapsed.contains(full),
                    grow(seq![], rest, full, collapsed),
                ),
            )
        }
    }
}

fn insert_parts(
    parent: &mut Node,
    parts: &Vec<String>,
    depth: usize,
    e: &FileEntry,
    idx: usize,
    prefix: &str,
    collapsed: &StringHashSet,
    side: Side,
    Ghost(f): Ghost<Leaf>,
)
    requires
        depth < parts@.len(),
        f == (Leaf {
            parts: parts.deep_view().skip(depth as int),
            ..leaf(e.deep_view(), side, idx)
        }),
    ensures
        shape(*final(parent)) == (Tree {
            children: grow(shape(*old(parent)).children, f, prefix@, collapsed@),
            ..shape(*old(parent))
        }),
    decreases parts@.len() - depth,
{
    let ghost c = shape(*parent).children;
    let count: usize = parts.len();
    let name = parts[depth].as_str();
    assert(f.parts[0] == name@);
    let full = if prefix.is_empty() {
        name.to_string()
    } else {
        concat3(prefix, "/", name)
    };
    assert(full@ == under(prefix@, name@));
    proof {
        lemma_shape(*parent);
    }
    if depth + 1 == count {
        let node = Node {
            name: name.to_string(),
            path: full,
            kind: NodeKind::File,
            children: Vec::new(),
            expanded: false,
            agg: file_agg(e, side),
            lfs_tracked: e.lfs_tracked,
            lfs_pointer_warn: e.lfs_tracked && e.lfs_pointer_ok == Some(false),
            entry_index: Some(idx),
        };
        proof {
            lemma_shape(node);
            assert(shape(node).children =~= seq![]);
            assert(shape(node) == file_tree(f, full@));
        }
        parent.children.push(node);
        proof {
            lemma_shape(*parent);
            assert(shape(*parent).children =~= c.push(file_tree(f, full@)));
        }
        return;
    }
    let mut i: usize = 0;
    while i < parent.children.len() && !(parent.children[i].kind == NodeKind::Dir && same(
        parent.children[i].name.as_str(),
        name,
    ))
        invariant
            i <= parent.children@.len(),
            c == shapes(parent.children@),
            forall|j: int| 0 <= j < i ==> !(c[j].is_dir && c[j].name == name@),
        decreases parent.children@.len() - i,
    {
        assert(c[i as int] == shape(parent.children@[i as int]));
        i += 1;
    }
    proof {
        if i < parent.children@.len() {
            assert(c[i as int] == shape(parent.children@[i as int]));
        }
        lemma_find_dir_is(c, name@, i as int);
    }
    let ghost rest = Leaf { parts: f.parts.skip(1), ..f };
    assert(f.parts.skip(1) =~= parts.deep_view().skip(depth + 1));
    if i == parent.children.len() {
        let node = Node {
            name: name.to_string(),
            path: full.clone(),
            kind: NodeKind::Dir,
            children: Vec::new(),
            expanded: !collapsed.contains(full.as_str()),
            agg: Agg::default(),
            lfs_tracked: false,
            lfs_pointer_warn: false,
            entry_index: None,
        };
        proof {
            lemma_shape(node);
            assert(shape(node).children =~= seq![]);
        }
        parent.children.push(node);
    }
    let ghost mid = *parent;
    insert_parts(
        &mut parent.children[i],
        parts,
        depth + 1,
        e,
        idx,
        full.as_str(),
        collapsed,
        side,
        Ghost(rest),
    );
    proof {
        lemma_shape(mid);
        lemma_shape(*parent);
        assert(shape(*parent).children =~= grow(c, f, prefix@, collapsed@));
    }
}

/// The content of a folder that holds the given leaves, in the order in which
/// they came.
spec fn grown(l: Seq<Leaf>, prefix: Seq<char>, collapsed: Set<Seq<char>>) -> Seq<Tree>
    decreases l.len(),
{
    if l.len() == 0 {
        seq![]
    } else {
        grow(grown(l.drop_last(), prefix, collapsed), l.last(), prefix, collapsed)
    }
}

fn insert(parent: &mut Node, e: &FileEntry, idx: usize, collapsed: &StringHashSet, side: Side)
    ensures
        shape(*final(parent)) == (Tree {
            children: grow(
                shape(*old(parent)).children,
                leaf(e.deep_view(), side, idx),
                seq![],
                collapsed@,
            ),
            ..shape(*old(parent))
        }),
        leaf(e.deep_view(), side, idx).parts.len() <= usize::MAX,
{
    let parts = split(e.path.as_str(), '/');
    let count: usize = parts.len();
    let ghost f = leaf(e.deep_view(), side, idx);
    proof {
        reveal_strlit("");
        assert(""@ =~= Seq::<char>::empty());
        assert(parts.deep_view().skip(0) =~= parts.deep_view());
    }
    insert_parts(parent, &parts, 0, e, idx, "", collapsed, side, Ghost(f));
}

// Sorting

spec fn tree_less(a: Tree, b: Tree) -> bool {
    if a.is_dir == b.is_dir {
        sorts_before(a.name, b.name)
    } else {
        a.is_dir
    }
}

/// Folders before files, then by name.
spec fn by_tree() -> spec_fn(Tree, Tree) -> bool {
    |a: Tree, b: Tree| tree_less(a, b)
}

spec fn sort_tree(t: Tree) -> Tree
    decreases t,
{
    Tree { children: sorted(sort_trees(t.children), by_tree()), ..t }
}

spec fn sort_trees(c: Seq<Tree>) -> Seq<Tree>
    decreases c,
{
    if c.len() == 0 {
        seq![]
    } else {
        sort_trees(c.drop_last()).push(sort_tree(c.last()))
    }
}

proof fn lemma_sort_trees(c: Seq<Tree>)
    ensures
        sort_trees(c).len() == c.len(),
        forall|i: int| 0 <= i < c.len() ==> #[trigger] sort_trees(c)[i] == sort_tree(c[i]),
    decreases c.len(),
{
    if c.len() > 0 {
        lemma_sort_trees(c.drop_last());
    }
}

proof fn lemma_put_len<T>(x: T, list: Seq<T>, less: spec_fn(T, T) -> bool)
    ensures
        put(x, list, less).len() == list.len() + 1,
    decreases list.len(),
{
    if list.len() > 0 && less(list[0], x) {
        lemma_put_len(x, list.skip(1), less);
    }
}

proof fn lemma_sorted_len<T>(list: Seq<T>, less: spec_fn(T, T) -> bool)
    ensures
        sorted(list, less).len() == list.len(),
    decreases list.len(),
{
    if list.len() > 0 {
        lemma_sorted_len(list.skip(1), less);
        lemma_put_len(list[0], sorted(list.skip(1), less), less);
    }
}

/// `put` inserts behind the elements that sort before `x`.
proof fn lemma_put_at<T>(x: T, list: Seq<T>, less: spec_fn(T, T) -> bool, at: int)
    requires
        0 <= at <= list.len(),
        forall|j: int| 0 <= j < at ==> less(#[trigger] list[j], x),
        at < list.len() ==> !less(list[at], x),
    ensures
        put(x, list, less) == list.insert(at, x),
    decreases list.len(),
{
    if at == 0 {
        assert(seq![x] + list =~= list.insert(0, x));
    } else {
        let tail = list.skip(1);
        assert forall|j: int| 0 <= j < at - 1 implies less(#[trigger] tail[j], x) by {
            assert(tail[j] == list[j + 1]);
        }
        lemma_put_at(x, tail, less, at - 1);
        assert(less(list[0], x));
        assert(seq![list[0]] + tail.insert(at - 1, x) =~= list.insert(at, x));
    }
}

/// Whether a node sorts before another; the keys are the names in lower case.
fn node_before(a: &Node, a_key: &Vec<char>, b: &Node, b_key: &Vec<char>) -> (r: bool)
    requires
        a_key@ == outside::lowercase(a.name@),
        b_key@ == outside::lowercase(b.name@),
    ensures
        r == tree_less(shape(*a), shape(*b)),
{
    let a_dir = a.kind == NodeKind::Dir;
    let b_dir = b.kind == NodeKind::Dir;
    if a_dir == b_dir {
        is_before(a_key, b_key)
    } else {
        a_dir
    }
}

fn sort_children(c: Vec<Node>) -> (out: Vec<Node>)
    ensures
        shapes(out@) == sorted(shapes(c@), by_tree()),
{
    let mut c = c;
    let ghost all = shapes(c@);
    let mut out: Vec<Node> = Vec::new();
    let mut keys: Vec<Vec<char>> = Vec::new();
    assert(all.skip(all.len() as int) =~= seq![]);
    assert(shapes(out@) =~= seq![]);
    while c.len() > 0
        invariant
            c@.len() <= all.len(),
            shapes(c@) == all.take(c@.len() as int),
            shapes(out@) == sorted(all.skip(c@.len() as int), by_tree()),
            keys@.len() == out@.len(),
            forall|j: int|
                0 <= j < out@.len() ==> (#[trigger] keys@[j])@ == outside::lowercase(
                    out@[j].name@,
                ),
        decreases c@.len(),
    {
        let ghost n = c@.len();
        let ghost before = c@;
        let x = c.pop().unwrap();
        proof {
            assert(shapes(before)[n - 1] == all.take(n as int)[n - 1]);
            assert(shapes(c@) =~= all.take(n - 1)) by {
                assert forall|j: int| 0 <= j < n - 1 implies shapes(c@)[j] == all.take(
                    n - 1,
                )[j] by {
                    assert(shapes(before)[j] == all.take(n as int)[j]);
                }
            }
            assert(all.skip(n - 1).skip(1) =~= all.skip(n as int));
            assert(all.skip(n - 1)[0] == shape(x));
        }
        let lower = lowercase_text(x.name.as_str());
        let key = chars_of(lower.as_str());
        let ghost done = shapes(out@);
        let mut at: usize = 0;
        while at < out.len() && node_before(&out[at], &keys[at], &x, &key)
            invariant
                at <= out@.len(),
                done == shapes(out@),
                keys@.len() == out@.len(),
                key@ == outside::lowercase(x.name@),
                forall|j: int|
                    0 <= j < out@.len() ==> (#[trigger] keys@[j])@ == outside::lowercase(
                        out@[j].name@,
                    ),
                forall|j: int| 0 <= j < at ==> by_tree()(#[trigger] done[j], shape(x)),
            decreases out@.len() - at,
        {
            assert(done[at as int] == shape(out@[at as int]));
            at += 1;
        }
        proof {
            if at < out@.len() {
                assert(done[at as int] == shape(out@[at as int]));
            }
            lemma_put_at(shape(x), done, by_tree(), at as int);
        }
        out.insert(at, x);
        keys.insert(at, key);
        assert(shapes(out@) =~= done.insert(at as int, shape(x)));
    }
    assert(all.skip(0) =~= all);
    out
}

fn sort_rec(n: &mut Node)
    ensures
        shape(*final(n)) == sort_tree(shape(*old(n))),
    decreases *old(n),
{
    let ghost start = *n;
    let ghost c = shapes(n.children@);
    let mut i: usize = 0;
    while i < n.children.len()
        invariant
            i <= n.children@.len(),
            n.children@.len() == start.children@.len(),
            c == shapes(start.children@),
            start == *old(n),
            *n == (Node { children: n.children, ..start }),
            forall|j: int|
                0 <= j < i ==> shape(#[trigger] n.children@[j]) == sort_tree(c[j]),
            forall|j: int| i <= j < n.children@.len() ==> #[trigger] n.children@[j]
                == start.children@[j],
        decreases n.children@.len() - i,
    {
        assert(n.children@[i as int] == start.children@[i as int]);
        sort_rec(&mut n.children[i]);
        i += 1;
    }
    proof {
        lemma_sort_trees(c);
        assert(shapes(n.children@) =~= sort_trees(c));
    }
    let mut taken: Vec<Node> = Vec::new();
    std::mem::swap(&mut taken, &mut n.children);
    n.children = sort_children(taken);
    proof {
        lemma_shape(start);
        lemma_shape(*n);
    }
}

// Adding up

/// What a folder shows of the files in it.
struct Sum {
    agg: AggView,
    lfs: bool,
    warn: bool,
}

impl Sum {
    spec fn none() -> Sum {
        Sum { agg: AggView::none(), lfs: false, warn: false }
    }

    spec fn plus(self, o: Sum) -> Sum {
        Sum { agg: self.agg.plus(o.agg), lfs: self.lfs || o.lfs, warn: self.warn || o.warn }
    }

    spec fn of(t: Tree) -> Sum {
        Sum { agg: t.agg, lfs: t.lfs, warn: t.warn }
    }
}

spec fn sum_of(c: Seq<Tree>) -> Sum
    decreases c.len(),
{
    if c.len() == 0 {
        Sum::none()
    } else {
        sum_of(c.drop_last()).plus(Sum::of(c.last()))
    }
}

spec fn agg_tree(t: Tree) -> Tree
    decreases t,
{
    if t.is_dir {
        let c = agg_trees(t.children);
        let sum = sum_of(c);
        Tree { children: c, agg: sum.agg, lfs: sum.lfs, warn: sum.warn, ..t }
    } else {
        t
    }
}

spec fn agg_trees(c: Seq<Tree>) -> Seq<Tree>
    decreases c,
{
    if c.len() == 0 {
        seq![]
    } else {
        agg_trees(c.drop_last()).push(agg_tree(c.last()))
    }
}

proof fn lemma_agg_trees(c: Seq<Tree>)
    ensures
        agg_trees(c).len() == c.len(),
        forall|i: int| 0 <= i < c.len() ==> #[trigger] agg_trees(c)[i] == agg_tree(c[i]),
    decreases c.len(),
{
    if c.len() > 0 {
        lemma_agg_trees(c.drop_last());
    }
}

/// A part of a sum is within the bounds of the whole.
proof fn lemma_sum_within(c: Seq<Tree>, n: int, bound: nat)
    requires
        0 <= n <= c.len(),
        sum_of(c).agg.within(bound),
    ensures
        sum_of(c.take(n)).agg.within(bound),
        n < c.len() ==> c[n].agg.within(bound),
    decreases c.len() - n,
{
    if n == c.len() {
        assert(c.take(n) =~= c);
    } else {
        lemma_sum_within(c, n + 1, bound);
        assert(c.take(n + 1).drop_last() =~= c.take(n));
    }
}

fn aggregate(n: &mut Node) -> (a: Agg)
    requires
        agg_tree(shape(*old(n))).agg.within(u32::MAX as nat),
    ensures
        shape(*final(n)) == agg_tree(shape(*old(n))),
        a.deep_view() == agg_tree(shape(*old(n))).agg,
    decreases *old(n),
{
    if n.kind == NodeKind::File {
        return n.agg;
    }
    let ghost start = *n;
    let ghost c = shapes(n.children@);
    let ghost done = agg_trees(c);
    proof {
        lemma_shape(start);
        lemma_agg_trees(c);
    }
    let mut acc = Agg::default();
    let mut lfs = false;
    let mut warn = false;
    let mut i: usize = 0;
    while i < n.children.len()
        invariant
            i <= n.children@.len(),
            n.children@.len() == start.children@.len(),
            c == shapes(start.children@),
            done == agg_trees(c),
            done.len() == c.len(),
            forall|j: int| 0 <= j < c.len() ==> #[trigger] done[j] == agg_tree(c[j]),
            sum_of(done).agg.within(u32::MAX as nat),
            start == *old(n),
            *n == (Node { children: n.children, ..start }),
            forall|j: int| 0 <= j < i ==> shape(#[trigger] n.children@[j]) == done[j],
            forall|j: int| i <= j < n.children@.len() ==> #[trigger] n.children@[j]
                == start.children@[j],
            (Sum { agg: acc.deep_view(), lfs, warn }) == sum_of(done.take(i as int)),
        decreases n.children@.len() - i,
    {
        proof {
            assert(n.children@[i as int] == start.children@[i as int]);
            lemma_sum_within(done, i as int, u32::MAX as nat);
            lemma_sum_within(done, i + 1, u32::MAX as nat);
            assert(done.take(i + 1).drop_last() =~= done.take(i as int));
            assert(done[i as int] == agg_tree(c[i as int]));
        }
        let sub = aggregate(&mut n.children[i]);
        acc.merge(&sub);
        if n.children[i].lfs_tracked {
            lfs = true;
        }
        if n.children[i].lfs_pointer_warn {
            warn = true;
        }
        i += 1;
    }
    n.agg = acc;
    n.lfs_tracked = lfs;
    n.lfs_pointer_warn = warn;
    proof {
        assert(done.take(done.len() as int) =~= done);
        lemma_shape(*n);
        assert(shapes(n.children@) =~= done);
    }
    acc
}

// Joining folders that hold nothing but one folder

spec fn join_tree(t: Tree, collapsed: Set<Seq<char>>) -> Tree
    decreases t.children, 1nat,
{
    if !t.is_dir {
        t
    } else if t.children.len() == 1 && t.children[0].is_dir {
        let only = t.children[0];
        join_tree(
            Tree {
                name: t.name + "/"@ + only.name,
                path: only.path,
                children: only.children,
                ..t
            },
            collapsed,
        )
    } else {
        Tree {
            expanded: !collapsed.contains(t.path),
            children: join_trees(t.children, collapsed),
            ..t
        }
    }
}

spec fn join_trees(c: Seq<Tree>, collapsed: Set<Seq<char>>) -> Seq<Tree>
    decreases c, 0nat,
{
    if c.len() == 0 {
        seq![]
    } else {
        join_trees(c.drop_last(), collapsed).push(join_tree(c.last(), collapsed))
    }
}

proof fn lemma_join_trees(c: Seq<Tree>, collapsed: Set<Seq<char>>)
    ensures
        join_trees(c, collapsed).len() == c.len(),
        forall|i: int|
            0 <= i < c.len() ==> #[trigger] join_trees(c, collapsed)[i] == join_tree(
                c[i],
                collapsed,
            ),
    decreases c.len(),
{
    if c.len() > 0 {
        lemma_join_trees(c.drop_last(), collapsed);
    }
}

fn coalesce(n: &mut Node, collapsed: &StringHashSet)
    ensures
        shape(*final(n)) == join_tree(shape(*old(n)), collapsed@),
    decreases shape(*old(n)).children,
{
    if n.kind != NodeKind::Dir {
        return;
    }
    proof {
        lemma_shape(*n);
    }
    while n.children.len() == 1 && n.children[0].kind == NodeKind::Dir
        invariant
            n.kind == NodeKind::Dir,
            join_tree(shape(*n), collapsed@) == join_tree(shape(*old(n)), collapsed@),
            shape(*n).children == shape(*old(n)).children || decreases_to!(
                shape(*old(n)).children => shape(*n).children
            ),
            shape(*n).children == shapes(n.children@),
        decreases shape(*n).children,
    {
        let ghost before = *n;
        let mut child = n.children.remove(0);
        let mut grandchildren: Vec<Node> = Vec::new();
        std::mem::swap(&mut grandchildren, &mut child.children);
        n.name = concat3(n.name.as_str(), "/", child.name.as_str());
        n.path = child.path;
        n.children = grandchildren;
        proof {
            let only = before.children@[0];
            assert(shape(before).children[0] == shape(only));
            lemma_shape(only);
            lemma_shape(*n);
            assert(decreases_to!(shape(before).children => shape(before).children[0]));
            assert(decreases_to!(shape(only) => shape(only).children));
        }
    }
    n.expanded = !collapsed.contains(n.path.as_str());
    let ghost start = *n;
    let ghost c = shapes(n.children@);
    proof {
        lemma_shape(start);
        lemma_join_trees(c, collapsed@);
        if n.children@.len() == 1 {
            assert(c[0] == shape(n.children@[0]));
        }
    }
    let mut i: usize = 0;
    while i < n.children.len()
        invariant
            i <= n.children@.len(),
            n.children@.len() == start.children@.len(),
            c == shapes(start.children@),
            c == shape(*old(n)).children || decreases_to!(shape(*old(n)).children => c),
            *n == (Node { children: n.children, ..start }),
            forall|j: int|
                0 <= j < i ==> shape(#[trigger] n.children@[j]) == join_tree(c[j], collapsed@),
            forall|j: int| i <= j < n.children@.len() ==> #[trigger] n.children@[j]
                == start.children@[j],
        decreases n.children@.len() - i,
    {
        proof {
            assert(n.children@[i as int] == start.children@[i as int]);
            assert(c[i as int] == shape(n.children@[i as int]));
            assert(decreases_to!(c => c[i as int]));
            assert(decreases_to!(c[i as int] => c[i as int].children));
        }
        coalesce(&mut n.children[i], collapsed);
        i += 1;
    }
    proof {
        lemma_shape(*n);
        assert(shapes(n.children@) =~= join_trees(c, collapsed@));
    }
}

// Reading off the rows

spec fn tree_row(t: Tree, level: nat) -> RowView {
    RowView {
        path: t.path,
        name: t.name,
        level,
        is_dir: t.is_dir,
        expanded: t.expanded,
        agg: t.agg,
        lfs_tracked: t.lfs,
        lfs_pointer_warn: t.warn,
        entry_index: t.index,
    }
}

spec fn tree_rows(t: Tree, level: nat) -> Seq<RowView>
    decreases t,
{
    if t.is_dir && t.expanded {
        seq![tree_row(t, level)] + trees_rows(t.children, level + 1)
    } else {
        seq![tree_row(t, level)]
    }
}

spec fn trees_rows(c: Seq<Tree>, level: nat) -> Seq<RowView>
    decreases c,
{
    if c.len() == 0 {
        seq![]
    } else {
        trees_rows(c.drop_last(), level) + tree_rows(c.last(), level)
    }
}

/// Whether a tree has at most `k` levels of folders.
spec fn shallow(t: Tree, k: nat) -> bool
    decreases t,
{
    t.children.len() > 0 ==> k > 0 && forall|i: int|
        0 <= i < t.children.len() ==> shallow(#[trigger] t.children[i], (k - 1) as nat)
}

fn push_rows(n: &Node, level: usize, out: &mut Vec<Row>, Ghost(k): Ghost<nat>)
    requires
        shallow(shape(*n), k),
        level + k <= usize::MAX,
    ensures
        final(out).deep_view() == old(out).deep_view() + tree_rows(shape(*n), level as nat),
    decreases n,
{
    let row = Row {
        path: n.path.clone(),
        name: n.name.clone(),
        level,
        is_dir: n.kind == NodeKind::Dir,
        expanded: n.expanded,
        agg: n.agg,
        lfs_tracked: n.lfs_tracked,
        lfs_pointer_warn: n.lfs_pointer_warn,
        entry_index: n.entry_index,
    };
    let ghost before = out.deep_view();
    let ghost c = shapes(n.children@);
    out.push(row);
    proof {
        lemma_shape(*n);
        assert(row.deep_view() == tree_row(shape(*n), level as nat));
        assert(out.deep_view() =~= before + seq![tree_row(shape(*n), level as nat)]);
    }
    if n.kind == NodeKind::Dir && n.expanded {
        let ghost mid = out.deep_view();
        let mut i: usize = 0;
        assert(mid + trees_rows(c.take(0), level as nat + 1) =~= mid);
        while i < n.children.len()
            invariant
                i <= n.children@.len(),
                c == shapes(n.children@),
                shape(*n).children == c,
                shallow(shape(*n), k),
                level + k <= usize::MAX,
                out.deep_view() == mid + trees_rows(c.take(i as int), level as nat + 1),
            decreases n.children@.len() - i,
        {
            proof {
                assert(shape(*n).children[i as int] == shape(n.children@[i as int]));
                assert(c.take(i + 1).drop_last() =~= c.take(i as int));
                assert(c[i as int] == shape(n.children@[i as int]));
            }
            push_rows(&n.children[i], level + 1, out, Ghost((k - 1) as nat));
            assert(out.deep_view() =~= mid + trees_rows(c.take(i + 1), level as nat + 1));
            i += 1;
        }
        assert(c.take(c.len() as int) =~= c);
        assert(out.deep_view() =~= before + tree_rows(shape(*n), level as nat));
    }
}

// ---------------------------------------------------------------------------
// The rows of the tree are the rows of its leaves

/// The folders among trees, or the files, in their order.
spec fn pick(c: Seq<Tree>, dirs: bool) -> Seq<Tree>
    decreases c.len(),
{
    if c.len() == 0 {
        seq![]
    } else {
        let before = pick(c.drop_last(), dirs);
        if c.last().is_dir == dirs {
            before.push(c.last())
        } else {
            before
        }
    }
}

proof fn lemma_pick_cons(c: Seq<Tree>, dirs: bool)
    requires
        c.len() > 0,
    ensures
        pick(c, dirs) == (if c[0].is_dir == dirs {
            seq![c[0]]
        } else {
            seq![]
        }) + pick(c.skip(1), dirs),
    decreases c.len(),
{
    if c.len() == 1 {
        assert(c.drop_last() =~= seq![]);
        assert(c.skip(1) =~= seq![]);
        assert(pick(c.drop_last(), dirs) =~= seq![]);
        assert(pick(c.skip(1), dirs) =~= seq![]);
        assert(pick(c, dirs) =~= (if c[0].is_dir == dirs {
            seq![c[0]]
        } else {
            seq![]
        }) + pick(c.skip(1), dirs));
    } else {
        lemma_pick_cons(c.drop_last(), dirs);
        assert(c.drop_last().skip(1) =~= c.skip(1).drop_last());
        assert(c.skip(1).last() == c.last());
        assert(pick(c, dirs) =~= (if c[0].is_dir == dirs {
            seq![c[0]]
        } else {
            seq![]
        }) + pick(c.skip(1), dirs));
    }
}

/// Replacing a folder by a folder replaces it among the folders.
proof fn lemma_pick_update(c: Seq<Tree>, i: int, t: Tree) -> (j: int)
    requires
        0 <= i < c.len(),
        c[i].is_dir,
        t.is_dir,
    ensures
        0 <= j < pick(c, true).len(),
        pick(c, true)[j] == c[i],
        pick(c.update(i, t), true) == pick(c, true).update(j, t),
        pick(c.update(i, t), false) == pick(c, false),
    decreases c.len(),
{
    let u = c.update(i, t);
    if i == c.len() - 1 {
        assert(u.drop_last() =~= c.drop_last());
        let j = pick(c, true).len() - 1;
        assert(pick(u, true) =~= pick(c, true).update(j, t));
        j
    } else {
        let j = lemma_pick_update(c.drop_last(), i, t);
        assert(u.drop_last() =~= c.drop_last().update(i, t));
        assert(pick(u, true) =~= pick(c, true).update(j, t));
        j
    }
}

/// What is among the folders is a folder of the list, and the other way round.
proof fn lemma_pick_has(c: Seq<Tree>, name: Seq<char>)
    ensures
        (exists|i: int| 0 <= i < c.len() && (#[trigger] c[i]).is_dir && c[i].name == name) <==> (
        exists|j: int| 0 <= j < pick(c, true).len() && (#[trigger] pick(c, true)[j]).name == name),
        forall|j: int| 0 <= j < pick(c, true).len() ==> (#[trigger] pick(c, true)[j]).is_dir,
    decreases c.len(),
{
    if c.len() > 0 {
        let d = c.drop_last();
        lemma_pick_has(d, name);
        let p = pick(c, true);
        let q = pick(d, true);
        if exists|i: int| 0 <= i < c.len() && (#[trigger] c[i]).is_dir && c[i].name == name {
            let i = choose|i: int| 0 <= i < c.len() && (#[trigger] c[i]).is_dir && c[i].name == name;
            if i < c.len() - 1 {
                assert(d[i] == c[i]);
                let j = choose|j: int| 0 <= j < q.len() && (#[trigger] q[j]).name == name;
                assert(p[j] == q[j]);
            } else {
                assert(p[p.len() - 1] == c[i]);
            }
        }
        if exists|j: int| 0 <= j < p.len() && (#[trigger] p[j]).name == name {
            let j = choose|j: int| 0 <= j < p.len() && (#[trigger] p[j]).name == name;
            if j < q.len() {
                assert(q[j] == p[j]);
                let i = choose|i: int| 0 <= i < d.len() && (#[trigger] d[i]).is_dir && d[i].name
                    == name;
                assert(c[i] == d[i]);
            } else {
                assert(c[c.len() - 1] == p[j]);
            }
        }
        assert forall|j: int| 0 <= j < p.len() implies (#[trigger] p[j]).is_dir by {
            if j < q.len() {
                assert(q[j] == p[j]);
            }
        }
    }
}

pub proof fn lemma_folders(l: Seq<Leaf>)
    ensures
        folders(l).no_duplicates(),
        forall|name: Seq<char>| #[trigger]
            folders(l).contains(name) <==> inside(l, name).len() > 0,
    decreases l.len(),
{
    if l.len() > 0 {
        let d = l.drop_last();
        lemma_folders(d);
        let f = l.last();
        let before = folders(d);
        assert forall|name: Seq<char>| #[trigger]
            folders(l).contains(name) <==> inside(l, name).len() > 0 by {
            assert(before.contains(name) <==> inside(d, name).len() > 0);
            if f.parts.len() > 1 && !before.contains(f.parts[0]) {
                assert(folders(l)[before.len() as int] == f.parts[0]);
                if before.contains(name) {
                    let i = choose|i: int| 0 <= i < before.len() && before[i] == name;
                    assert(folders(l)[i] == name);
                }
            }
        }
    }
}

/// The tree of the folder `name` in the folder `prefix`.
spec fn dir_at(
    l: Seq<Leaf>,
    name: Seq<char>,
    prefix: Seq<char>,
    collapsed: Set<Seq<char>>,
) -> Tree {
    let full = under(prefix, name);
    dir_tree(
        name,
        full,
        !collapsed.contains(full),
        grown(inside(l, name), full, collapsed),
    )
}

spec fn file_at(f: Leaf, prefix: Seq<char>) -> Tree {
    file_tree(f, under(prefix, f.parts[0]))
}

/// The folders of a grown tree are those of its leaves, and so are the files.
proof fn lemma_grown(l: Seq<Leaf>, prefix: Seq<char>, collapsed: Set<Seq<char>>)
    ensures
        pick(grown(l, prefix, collapsed), true) == folders(l).map_values(
            |n: Seq<char>| dir_at(l, n, prefix, collapsed),
        ),
        pick(grown(l, prefix, collapsed), false) == direct(l).map_values(
            |f: Leaf| file_at(f, prefix),
        ),
    decreases l.len(),
{
    let c = grown(l, prefix, collapsed);
    let dirs = folders(l).map_values(|n: Seq<char>| dir_at(l, n, prefix, collapsed));
    let files = direct(l).map_values(|f: Leaf| file_at(f, prefix));
    if l.len() == 0 {
        assert(pick(c, true) =~= dirs);
        assert(pick(c, false) =~= files);
    } else {
        let d = l.drop_last();
        let f = l.last();
        let b = grown(d, prefix, collapsed);
        let name = f.parts[0];
        let full = under(prefix, name);
        lemma_grown(d, prefix, collapsed);
        lemma_folders(d);
        lemma_folders(l);
        let bdirs = folders(d).map_values(|n: Seq<char>| dir_at(d, n, prefix, collapsed));
        let bfiles = direct(d).map_values(|f: Leaf| file_at(f, prefix));
        assert(pick(b, true) == bdirs);
        assert(pick(b, false) == bfiles);
        if f.parts.len() <= 1 {
            let t = file_tree(f, full);
            assert(c == b.push(t));
            assert(c.drop_last() =~= b);
            assert(pick(c, true) =~= bdirs);
            assert(dirs =~= bdirs) by {
                assert forall|j: int| 0 <= j < dirs.len() implies dirs[j] == bdirs[j] by {
                    assert(inside(l, folders(l)[j]) == inside(d, folders(d)[j]));
                }
            }
            assert(pick(c, false) =~= bfiles.push(t));
            assert(files =~= bfiles.push(t));
        } else {
            let rest = Leaf { parts: f.parts.skip(1), ..f };
            let i = find_dir(b, name);
            lemma_find_dir(b, name);
            lemma_pick_has(b, name);
            assert(direct(l) == direct(d));
            assert(files =~= bfiles);
            if i < b.len() {
                let t = Tree { children: grow(b[i].children, rest, full, collapsed), ..b[i] };
                let j = lemma_pick_update(b, i, t);
                assert(c == b.update(i, t));
                assert(bdirs[j].name == name);
                assert(folders(d)[j] == name);
                assert(folders(l) == folders(d)) by {
                    assert(folders(d).contains(name));
                }
                assert(pick(c, true) =~= dirs) by {
                    assert forall|k: int| 0 <= k < dirs.len() implies pick(c, true)[k]
                        == dirs[k] by {
                        let other = folders(d)[k];
                        if k == j {
                            assert(inside(l, name).drop_last() =~= inside(d, name));
                            assert(inside(l, name).last() == rest);
                            assert(b[i] == dir_at(d, name, prefix, collapsed));
                            assert(t == dir_at(l, name, prefix, collapsed));
                        } else {
                            assert(other != name);
                            assert(inside(l, other) == inside(d, other));
                            assert(pick(c, true)[k] == bdirs[k]);
                        }
                    }
                }
                assert(pick(c, false) =~= files);
            } else {
                let t = dir_tree(
                    name,
                    full,
                    !collapsed.contains(full),
                    grow(seq![], rest, full, collapsed),
                );
                assert(c == b.push(t));
                assert(c.drop_last() =~= b);
                assert(!folders(d).contains(name)) by {
                    if folders(d).contains(name) {
                        let k = choose|k: int| 0 <= k < folders(d).len() && folders(d)[k] == name;
                        assert(pick(b, true)[k].name == name);
                    }
                }
                assert(inside(d, name).len() == 0);
                assert(inside(d, name) =~= seq![]);
                assert(inside(l, name) =~= seq![rest]);
                assert(inside(l, name).drop_last() =~= seq![]);
                assert(grown(seq![], full, collapsed) =~= seq![]);
                assert(t == dir_at(l, name, prefix, collapsed));
                assert(pick(c, true) =~= dirs) by {
                    assert forall|k: int| 0 <= k < dirs.len() implies pick(c, true)[k]
                        == dirs[k] by {
                        if k < folders(d).len() {
                            let other = folders(d)[k];
                            assert(folders(l)[k] == other);
                            assert(other != name);
                            assert(inside(l, other) == inside(d, other));
                            assert(pick(c, true)[k] == bdirs[k]);
                        }
                    }
                }
                assert(pick(c, false) =~= files);
            }
        }
    }
}

/// Sorting commutes with a map that keeps the order.
proof fn lemma_put_map<A, B>(
    x: A,
    list: Seq<A>,
    f: spec_fn(A) -> B,
    la: spec_fn(A, A) -> bool,
    lb: spec_fn(B, B) -> bool,
)
    requires
        forall|a: A, b: A| #[trigger] la(a, b) == lb(f(a), f(b)),
    ensures
        put(f(x), list.map_values(f), lb) == put(x, list, la).map_values(f),
    decreases list.len(),
{
    let m = list.map_values(f);
    if list.len() > 0 && la(list[0], x) {
        lemma_put_map(x, list.skip(1), f, la, lb);
        assert(m.skip(1) =~= list.skip(1).map_values(f));
        assert(m[0] == f(list[0]));
        assert(put(f(x), m, lb) =~= put(x, list, la).map_values(f));
    } else {
        if list.len() > 0 {
            assert(m[0] == f(list[0]));
            assert(la(list[0], x) == lb(f(list[0]), f(x)));
        }
        assert(put(f(x), m, lb) =~= put(x, list, la).map_values(f));
    }
}

proof fn lemma_sorted_map<A, B>(
    list: Seq<A>,
    f: spec_fn(A) -> B,
    la: spec_fn(A, A) -> bool,
    lb: spec_fn(B, B) -> bool,
)
    requires
        forall|a: A, b: A| #[trigger] la(a, b) == lb(f(a), f(b)),
    ensures
        sorted(list.map_values(f), lb) == sorted(list, la).map_values(f),
    decreases list.len(),
{
    if list.len() == 0 {
        assert(list.map_values(f) =~= seq![]);
        assert(sorted(list, la).map_values(f) =~= seq![]);
    } else {
        lemma_sorted_map(list.skip(1), f, la, lb);
        assert(list.map_values(f).skip(1) =~= list.skip(1).map_values(f));
        lemma_put_map(list[0], sorted(list.skip(1), la), f, la, lb);
    }
}

/// A folder is put among the folders, a file among the files behind them.
proof fn lemma_put_halves(x: Tree, d: Seq<Tree>, f: Seq<Tree>)
    requires
        forall|i: int| 0 <= i < d.len() ==> (#[trigger] d[i]).is_dir,
        forall|i: int| 0 <= i < f.len() ==> !(#[trigger] f[i]).is_dir,
    ensures
        x.is_dir ==> put(x, d + f, by_tree()) == put(x, d, by_tree()) + f,
        !x.is_dir ==> put(x, d + f, by_tree()) == d + put(x, f, by_tree()),
    decreases d.len(),
{
    let less = by_tree();
    if d.len() == 0 {
        assert(d + f =~= f);
        if x.is_dir {
            assert(put(x, d, less) =~= seq![x]);
            assert(put(x, f, less) =~= seq![x] + f);
        } else {
            assert(d + put(x, f, less) =~= put(x, f, less));
        }
    } else {
        let t = d.skip(1);
        assert forall|i: int| 0 <= i < t.len() implies (#[trigger] t[i]).is_dir by {
            assert(t[i] == d[i + 1]);
        }
        lemma_put_halves(x, t, f);
        assert((d + f)[0] == d[0]);
        assert((d + f).skip(1) =~= t + f);
        if x.is_dir {
            assert(put(x, d + f, less) =~= put(x, d, less) + f);
        } else {
            assert(less(d[0], x));
            assert(put(x, d + f, less) =~= d + put(x, f, less));
        }
    }
}

proof fn lemma_put_kind(x: Tree, c: Seq<Tree>, dirs: bool)
    requires
        x.is_dir == dirs,
        forall|i: int| 0 <= i < c.len() ==> (#[trigger] c[i]).is_dir == dirs,
    ensures
        forall|i: int|
            0 <= i < put(x, c, by_tree()).len() ==> (#[trigger] put(x, c, by_tree())[i]).is_dir
                == dirs,
    decreases c.len(),
{
    if c.len() > 0 && by_tree()(c[0], x) {
        let t = c.skip(1);
        assert forall|i: int| 0 <= i < t.len() implies (#[trigger] t[i]).is_dir == dirs by {
            assert(t[i] == c[i + 1]);
        }
        lemma_put_kind(x, t, dirs);
    }
}

proof fn lemma_sorted_kind(c: Seq<Tree>, dirs: bool)
    ensures
        forall|i: int|
            0 <= i < sorted(pick(c, dirs), by_tree()).len() ==> (#[trigger] sorted(
                pick(c, dirs),
                by_tree(),
            )[i]).is_dir == dirs,
    decreases c.len(),
{
    if c.len() == 0 {
        assert(pick(c, dirs) =~= seq![]);
    } else {
        lemma_pick_cons(c, dirs);
        lemma_sorted_kind(c.skip(1), dirs);
        let rest = pick(c.skip(1), dirs);
        if c[0].is_dir == dirs {
            assert(pick(c, dirs).skip(1) =~= rest);
            lemma_put_kind(c[0], sorted(rest, by_tree()), dirs);
        } else {
            assert(pick(c, dirs) =~= rest);
        }
    }
}

/// Sorting puts the sorted folders before the sorted files.
proof fn lemma_sorted_halves(c: Seq<Tree>)
    ensures
        sorted(c, by_tree()) == sorted(pick(c, true), by_tree()) + sorted(
            pick(c, false),
            by_tree(),
        ),
    decreases c.len(),
{
    let less = by_tree();
    if c.len() == 0 {
        assert(pick(c, true) =~= seq![]);
        assert(pick(c, false) =~= seq![]);
        assert(sorted(c, less) =~= sorted(pick(c, true), less) + sorted(pick(c, false), less));
    } else {
        let t = c.skip(1);
        lemma_sorted_halves(t);
        lemma_sorted_kind(t, true);
        lemma_sorted_kind(t, false);
        let d = sorted(pick(t, true), less);
        let f = sorted(pick(t, false), less);
        lemma_put_halves(c[0], d, f);
        lemma_pick_cons(c, true);
        lemma_pick_cons(c, false);
        if c[0].is_dir {
            assert(pick(c, true).skip(1) =~= pick(t, true));
            assert(pick(c, false) =~= pick(t, false));
        } else {
            assert(pick(c, false).skip(1) =~= pick(t, false));
            assert(pick(c, true) =~= pick(t, true));
        }
    }
}

/// Picking commutes with sorting each tree.
proof fn lemma_pick_sort_trees(c: Seq<Tree>, dirs: bool)
    ensures
        pick(sort_trees(c), dirs) == sort_trees(pick(c, dirs)),
    decreases c.len(),
{
    if c.len() == 0 {
        assert(pick(sort_trees(c), dirs) =~= seq![]);
        assert(sort_trees(pick(c, dirs)) =~= seq![]);
    } else {
        lemma_pick_sort_trees(c.drop_last(), dirs);
        let last = sort_tree(c.last());
        assert(sort_trees(c) == sort_trees(c.drop_last()).push(last));
        assert(sort_trees(c).drop_last() =~= sort_trees(c.drop_last()));
        assert(last.is_dir == c.last().is_dir);
        if c.last().is_dir == dirs {
            assert(pick(c, dirs).drop_last() =~= pick(c.drop_last(), dirs));
            assert(pick(c, dirs).last() == c.last());
            assert(sort_trees(pick(c, dirs)) == sort_trees(pick(c.drop_last(), dirs)).push(last));
        }
    }
}

// The sums

/// What the files in a tree add up to.
spec fn tally(t: Tree) -> Sum
    decreases t,
{
    if t.is_dir {
        tallies(t.children)
    } else {
        Sum::of(t)
    }
}

spec fn tallies(c: Seq<Tree>) -> Sum
    decreases c,
{
    if c.len() == 0 {
        Sum::none()
    } else {
        tallies(c.drop_last()).plus(tally(c.last()))
    }
}

spec fn leaf_sum(f: Leaf) -> Sum {
    Sum { agg: f.agg, lfs: f.lfs, warn: f.warn }
}

spec fn leaves_sum(l: Seq<Leaf>) -> Sum {
    Sum { agg: total(l), lfs: any_lfs(l), warn: any_warn(l) }
}

proof fn lemma_leaves_sum(l: Seq<Leaf>)
    requires
        l.len() > 0,
    ensures
        leaves_sum(l) == leaves_sum(l.drop_last()).plus(leaf_sum(l.last())),
{
    let d = l.drop_last();
    if any_lfs(l) {
        let i = choose|i: int| 0 <= i < l.len() && (#[trigger] l[i]).lfs;
        if i < d.len() {
            assert(d[i].lfs);
        }
    }
    if any_lfs(d) {
        let i = choose|i: int| 0 <= i < d.len() && (#[trigger] d[i]).lfs;
        assert(l[i].lfs);
    }
    if l.last().lfs {
        assert(l[l.len() - 1].lfs);
    }
    if any_warn(l) {
        let i = choose|i: int| 0 <= i < l.len() && (#[trigger] l[i]).warn;
        if i < d.len() {
            assert(d[i].warn);
        }
    }
    if any_warn(d) {
        let i = choose|i: int| 0 <= i < d.len() && (#[trigger] d[i]).warn;
        assert(l[i].warn);
    }
    if l.last().warn {
        assert(l[l.len() - 1].warn);
    }
}

proof fn lemma_tallies_update(c: Seq<Tree>, i: int, t: Tree, s: Sum)
    requires
        0 <= i < c.len(),
        tally(t) == tally(c[i]).plus(s),
    ensures
        tallies(c.update(i, t)) == tallies(c).plus(s),
    decreases c.len(),
{
    let u = c.update(i, t);
    if i == c.len() - 1 {
        assert(u.drop_last() =~= c.drop_last());
    } else {
        lemma_tallies_update(c.drop_last(), i, t, s);
        assert(u.drop_last() =~= c.drop_last().update(i, t));
    }
}

proof fn lemma_grow_tallies(c: Seq<Tree>, f: Leaf, prefix: Seq<char>, collapsed: Set<Seq<char>>)
    ensures
        tallies(grow(c, f, prefix, collapsed)) == tallies(c).plus(leaf_sum(f)),
    decreases f.parts.len(),
{
    let name = f.parts[0];
    let full = under(prefix, name);
    let g = grow(c, f, prefix, collapsed);
    if f.parts.len() <= 1 {
        assert(g.drop_last() =~= c);
        assert(tally(file_tree(f, full)) == leaf_sum(f));
    } else {
        let rest = Leaf { parts: f.parts.skip(1), ..f };
        let i = find_dir(c, name);
        lemma_find_dir(c, name);
        assert(leaf_sum(rest) == leaf_sum(f));
        if i < c.len() {
            lemma_grow_tallies(c[i].children, rest, full, collapsed);
            let t = Tree { children: grow(c[i].children, rest, full, collapsed), ..c[i] };
            lemma_tallies_update(c, i, t, leaf_sum(f));
        } else {
            lemma_grow_tallies(seq![], rest, full, collapsed);
            assert(g.drop_last() =~= c);
            assert(tallies(seq![]) == Sum::none());
            assert(tally(g.last()) == leaf_sum(f));
        }
    }
}

proof fn lemma_grown_tallies(l: Seq<Leaf>, prefix: Seq<char>, collapsed: Set<Seq<char>>)
    ensures
        tallies(grown(l, prefix, collapsed)) == leaves_sum(l),
    decreases l.len(),
{
    if l.len() > 0 {
        lemma_grown_tallies(l.drop_last(), prefix, collapsed);
        lemma_grow_tallies(
            grown(l.drop_last(), prefix, collapsed),
            l.last(),
            prefix,
            collapsed,
        );
        lemma_leaves_sum(l);
    }
}

proof fn lemma_tallies_cons(c: Seq<Tree>)
    requires
        c.len() > 0,
    ensures
        tallies(c) == tally(c[0]).plus(tallies(c.skip(1))),
    decreases c.len(),
{
    if c.len() == 1 {
        assert(c.drop_last() =~= seq![]);
        assert(c.skip(1) =~= seq![]);
    } else {
        lemma_tallies_cons(c.drop_last());
        assert(c.drop_last().skip(1) =~= c.skip(1).drop_last());
    }
}

proof fn lemma_put_tallies(x: Tree, c: Seq<Tree>)
    ensures
        tallies(put(x, c, by_tree())) == tally(x).plus(tallies(c)),
    decreases c.len(),
{
    let p = put(x, c, by_tree());
    if c.len() > 0 && by_tree()(c[0], x) {
        lemma_put_tallies(x, c.skip(1));
        lemma_tallies_cons(c);
        assert(p.skip(1) =~= put(x, c.skip(1), by_tree()));
        lemma_tallies_cons(p);
    } else {
        assert(p.skip(1) =~= c);
        lemma_tallies_cons(p);
    }
}

proof fn lemma_sorted_tallies(c: Seq<Tree>)
    ensures
        tallies(sorted(c, by_tree())) == tallies(c),
    decreases c.len(),
{
    if c.len() > 0 {
        lemma_sorted_tallies(c.skip(1));
        lemma_put_tallies(c[0], sorted(c.skip(1), by_tree()));
        lemma_tallies_cons(c);
    }
}

proof fn lemma_sort_tally(t: Tree)
    ensures
        tally(sort_tree(t)) == tally(t),
    decreases t,
{
    lemma_sort_tallies(t.children);
    lemma_sorted_tallies(sort_trees(t.children));
}

proof fn lemma_sort_tallies(c: Seq<Tree>)
    ensures
        tallies(sort_trees(c)) == tallies(c),
    decreases c,
{
    if c.len() > 0 {
        lemma_sort_tallies(c.drop_last());
        lemma_sort_tally(c.last());
        assert(sort_trees(c).drop_last() =~= sort_trees(c.drop_last()));
    }
}

proof fn lemma_agg_tally(t: Tree)
    ensures
        Sum::of(agg_tree(t)) == tally(t),
    decreases t,
{
    if t.is_dir {
        lemma_agg_tallies(t.children);
    }
}

proof fn lemma_agg_tallies(c: Seq<Tree>)
    ensures
        sum_of(agg_trees(c)) == tallies(c),
    decreases c,
{
    if c.len() > 0 {
        lemma_agg_tallies(c.drop_last());
        lemma_agg_tally(c.last());
        assert(agg_trees(c).drop_last() =~= agg_trees(c.drop_last()));
    }
}

// The rows

/// The rows of sorted trees once they are added up and joined.
spec fn shown(c: Seq<Tree>, level: nat, collapsed: Set<Seq<char>>) -> Seq<RowView> {
    trees_rows(join_trees(agg_trees(c), collapsed), level)
}

/// The rows of a sorted tree once it is added up and joined.
spec fn shown_one(t: Tree, level: nat, collapsed: Set<Seq<char>>) -> Seq<RowView> {
    tree_rows(join_tree(agg_tree(t), collapsed), level)
}

proof fn lemma_shown(c: Seq<Tree>, level: nat, collapsed: Set<Seq<char>>)
    ensures
        c.len() == 0 ==> shown(c, level, collapsed) == Seq::<RowView>::empty(),
        c.len() > 0 ==> shown(c, level, collapsed) == shown(c.drop_last(), level, collapsed)
            + shown_one(c.last(), level, collapsed),
{
    let a = agg_trees(c);
    let j = join_trees(a, collapsed);
    if c.len() > 0 {
        assert(a.drop_last() =~= agg_trees(c.drop_last()));
        assert(j.drop_last() =~= join_trees(a.drop_last(), collapsed));
        assert(j.last() == join_tree(a.last(), collapsed));
    }
}

proof fn lemma_shown_both(a: Seq<Tree>, b: Seq<Tree>, level: nat, collapsed: Set<Seq<char>>)
    ensures
        shown(a + b, level, collapsed) == shown(a, level, collapsed) + shown(b, level, collapsed),
    decreases b.len(),
{
    lemma_shown(b, level, collapsed);
    if b.len() == 0 {
        assert(a + b =~= a);
        assert(shown(a, level, collapsed) + shown(b, level, collapsed) =~= shown(
            a,
            level,
            collapsed,
        ));
    } else {
        lemma_shown(a + b, level, collapsed);
        lemma_shown_both(a, b.drop_last(), level, collapsed);
        assert((a + b).drop_last() =~= a + b.drop_last());
        assert(shown(a + b, level, collapsed) =~= shown(a, level, collapsed) + shown(
            b,
            level,
            collapsed,
        ));
    }
}

/// The sorted tree of the folder `name`.
spec fn sorted_dir(
    l: Seq<Leaf>,
    prefix: Seq<char>,
    collapsed: Set<Seq<char>>,
) -> spec_fn(Seq<char>) -> Tree {
    |n: Seq<char>| sort_tree(dir_at(l, n, prefix, collapsed))
}

spec fn sorted_file(prefix: Seq<char>) -> spec_fn(Leaf) -> Tree {
    |f: Leaf| file_at(f, prefix)
}

/// A sorted content is its sorted folders and then its sorted files.
proof fn lemma_content(l: Seq<Leaf>, prefix: Seq<char>, collapsed: Set<Seq<char>>)
    ensures
        sorted(sort_trees(grown(l, prefix, collapsed)), by_tree()) == sorted(
            folders(l),
            by_name(),
        ).map_values(sorted_dir(l, prefix, collapsed)) + sorted(
            direct(l),
            by_leaf_name(),
        ).map_values(sorted_file(prefix)),
{
    let c = grown(l, prefix, collapsed);
    let g = sorted_dir(l, prefix, collapsed);
    let h = sorted_file(prefix);
    lemma_sorted_halves(sort_trees(c));
    lemma_pick_sort_trees(c, true);
    lemma_pick_sort_trees(c, false);
    lemma_grown(l, prefix, collapsed);
    lemma_sort_trees(pick(c, true));
    lemma_sort_trees(pick(c, false));
    assert(sort_trees(pick(c, true)) =~= folders(l).map_values(g));
    assert(sort_trees(pick(c, false)) =~= direct(l).map_values(h)) by {
        assert forall|i: int| 0 <= i < direct(l).len() implies sort_trees(pick(c, false))[i] == h(
            direct(l)[i],
        ) by {
            let t = file_at(direct(l)[i], prefix);
            assert(pick(c, false)[i] == t);
            assert(sort_trees(t.children) =~= seq![]);
            assert(sort_tree(t).children =~= t.children);
        }
    }
    assert forall|a: Seq<char>, b: Seq<char>| #[trigger] by_name()(a, b) == by_tree()(g(a), g(b)) by {
        assert(g(a).is_dir && g(a).name == a);
        assert(g(b).is_dir && g(b).name == b);
    }
    lemma_sorted_map(folders(l), g, by_name(), by_tree());
    assert forall|a: Leaf, b: Leaf| #[trigger] by_leaf_name()(a, b) == by_tree()(h(a), h(b)) by {
        assert(!h(a).is_dir && h(a).name == a.parts[0]);
        assert(!h(b).is_dir && h(b).name == b.parts[0]);
    }
    lemma_sorted_map(direct(l), h, by_leaf_name(), by_tree());
}

proof fn lemma_shown_files(
    files: Seq<Leaf>,
    prefix: Seq<char>,
    level: nat,
    collapsed: Set<Seq<char>>,
)
    ensures
        shown(files.map_values(sorted_file(prefix)), level, collapsed) == Seq::new(
            files.len(),
            |i: int| file_row(files[i], prefix, level),
        ),
    decreases files.len(),
{
    let c = files.map_values(sorted_file(prefix));
    lemma_shown(c, level, collapsed);
    if files.len() > 0 {
        lemma_shown_files(files.drop_last(), prefix, level, collapsed);
        assert(c.drop_last() =~= files.drop_last().map_values(sorted_file(prefix)));
        assert(shown_one(c.last(), level, collapsed) =~= seq![
            file_row(files.last(), prefix, level),
        ]);
    }
    assert(shown(c, level, collapsed) =~= Seq::new(
        files.len(),
        |i: int| file_row(files[i], prefix, level),
    ));
}

/// What holds of every element of a list holds of every element once it is sorted.
pub proof fn lemma_sorted_all<T>(list: Seq<T>, less: spec_fn(T, T) -> bool, p: spec_fn(T) -> bool)
    requires
        forall|i: int| 0 <= i < list.len() ==> p(#[trigger] list[i]),
    ensures
        forall|i: int| 0 <= i < list.len() ==> p(#[trigger] sorted(list, less)[i]),
        sorted(list, less).len() == list.len(),
    decreases list.len(),
{
    lemma_sorted_len(list, less);
    if list.len() > 0 {
        let t = list.skip(1);
        assert forall|i: int| 0 <= i < t.len() implies p(#[trigger] t[i]) by {
            assert(t[i] == list[i + 1]);
        }
        lemma_sorted_all(t, less, p);
        assert(p(list[0]));
        lemma_put_all(list[0], sorted(t, less), less, p);
    }
}

pub proof fn lemma_put_all<T>(x: T, list: Seq<T>, less: spec_fn(T, T) -> bool, p: spec_fn(T) -> bool)
    requires
        p(x),
        forall|i: int| 0 <= i < list.len() ==> p(#[trigger] list[i]),
    ensures
        forall|i: int| 0 <= i < put(x, list, less).len() ==> p(#[trigger] put(x, list, less)[i]),
    decreases list.len(),
{
    if list.len() > 0 && less(list[0], x) {
        let t = list.skip(1);
        assert forall|i: int| 0 <= i < t.len() implies p(#[trigger] t[i]) by {
            assert(t[i] == list[i + 1]);
        }
        lemma_put_all(x, t, less, p);
        let rest = put(x, t, less);
        assert forall|i: int| 0 <= i < put(x, list, less).len() implies p(
            #[trigger] put(x, list, less)[i],
        ) by {
            if i > 0 {
                assert(p(rest[i - 1]));
            } else {
                assert(p(list[0]));
            }
        }
    } else {
        assert forall|i: int| 0 <= i < put(x, list, less).len() implies p(
            #[trigger] put(x, list, less)[i],
        ) by {
            if i > 0 {
                assert(p(list[i - 1]));
            }
        }
    }
}

spec fn holds_leaves(l: Seq<Leaf>) -> spec_fn(Seq<char>) -> bool {
    |n: Seq<char>| inside(l, n).len() > 0
}

proof fn lemma_shown_content(
    l: Seq<Leaf>,
    prefix: Seq<char>,
    level: nat,
    collapsed: Set<Seq<char>>,
)
    ensures
        shown(sorted(sort_trees(grown(l, prefix, collapsed)), by_tree()), level, collapsed)
            == content_rows(l, prefix, level, collapsed),
    decreases weight(l), 1nat, 0nat,
{
    let names = sorted(folders(l), by_name());
    let files = sorted(direct(l), by_leaf_name());
    let p = holds_leaves(l);
    lemma_content(l, prefix, collapsed);
    lemma_shown_both(
        names.map_values(sorted_dir(l, prefix, collapsed)),
        files.map_values(sorted_file(prefix)),
        level,
        collapsed,
    );
    lemma_shown_files(files, prefix, level, collapsed);
    lemma_folders(l);
    assert forall|i: int| 0 <= i < folders(l).len() implies p(#[trigger] folders(l)[i]) by {
        assert(folders(l).contains(folders(l)[i]));
    }
    lemma_sorted_all(folders(l), by_name(), p);
    lemma_shown_folders(l, names, prefix, level, collapsed);
}

proof fn lemma_shown_folders(
    l: Seq<Leaf>,
    names: Seq<Seq<char>>,
    prefix: Seq<char>,
    level: nat,
    collapsed: Set<Seq<char>>,
)
    requires
        forall|i: int| 0 <= i < names.len() ==> holds_leaves(l)(#[trigger] names[i]),
    ensures
        shown(names.map_values(sorted_dir(l, prefix, collapsed)), level, collapsed) == folder_rows(
            l,
            names,
            prefix,
            level,
            collapsed,
        ),
    decreases weight(l), 0nat, names.len(),
{
    let g = sorted_dir(l, prefix, collapsed);
    let c = names.map_values(g);
    lemma_shown(c, level, collapsed);
    if names.len() > 0 {
        let name = names.last();
        lemma_shown_folders(l, names.drop_last(), prefix, level, collapsed);
        assert(c.drop_last() =~= names.drop_last().map_values(g));
        assert(holds_leaves(l)(name));
        lemma_inside_weight(l, name);
        lemma_shown_folder(
            inside(l, name),
            name,
            under(prefix, name),
            !collapsed.contains(under(prefix, name)),
            level,
            collapsed,
        );
        assert(c.last() == g(name));
    }
}

/// The sorted and added up tree of a folder that holds the given leaves.
spec fn made(
    l: Seq<Leaf>,
    name: Seq<char>,
    path: Seq<char>,
    expanded: bool,
    collapsed: Set<Seq<char>>,
) -> Tree {
    agg_tree(sort_tree(dir_tree(name, path, expanded, grown(l, path, collapsed))))
}

proof fn lemma_made(
    l: Seq<Leaf>,
    name: Seq<char>,
    path: Seq<char>,
    expanded: bool,
    collapsed: Set<Seq<char>>,
)
    ensures
        made(l, name, path, expanded, collapsed) == (Tree {
            name,
            path,
            is_dir: true,
            children: agg_trees(sorted(sort_trees(grown(l, path, collapsed)), by_tree())),
            expanded,
            agg: total(l),
            lfs: any_lfs(l),
            warn: any_warn(l),
            index: None,
        }),
{
    let t = dir_tree(name, path, expanded, grown(l, path, collapsed));
    lemma_agg_tally(sort_tree(t));
    lemma_sort_tally(t);
    lemma_grown_tallies(l, path, collapsed);
}

proof fn lemma_shown_folder(
    l: Seq<Leaf>,
    name: Seq<char>,
    path: Seq<char>,
    expanded: bool,
    level: nat,
    collapsed: Set<Seq<char>>,
)
    ensures
        tree_rows(join_tree(made(l, name, path, expanded, collapsed), collapsed), level)
            == one_folder_rows(l, name, path, level, collapsed),
    decreases weight(l), 2nat, 0nat,
{
    let t = made(l, name, path, expanded, collapsed);
    let s = sorted(sort_trees(grown(l, path, collapsed)), by_tree());
    let g = sorted_dir(l, path, collapsed);
    lemma_made(l, name, path, expanded, collapsed);
    lemma_content(l, path, collapsed);
    lemma_sorted_len(folders(l), by_name());
    lemma_sorted_len(direct(l), by_leaf_name());
    lemma_agg_trees(s);
    lemma_folders(l);
    if folders(l).len() == 1 && direct(l).len() == 0 {
        let only = folders(l)[0];
        assert(folders(l).contains(only));
        lemma_inside_weight(l, only);
        let full = under(path, only);
        assert(sorted(folders(l), by_name()) =~= seq![only]) by {
            assert(folders(l).skip(1) =~= seq![]);
            assert(sorted(folders(l).skip(1), by_name()) =~= seq![]);
        }
        assert(s.len() == 1);
        assert(s[0] == g(only));
        let child = made(inside(l, only), only, full, !collapsed.contains(full), collapsed);
        assert(t.children[0] == child);
        let joined = name + "/"@ + only;
        lemma_made(inside(l, only), only, full, !collapsed.contains(full), collapsed);
        lemma_made(inside(l, only), joined, full, expanded, collapsed);
        lemma_shown_folder(inside(l, only), joined, full, expanded, level, collapsed);
        assert(Sum::of(t) == Sum::of(child)) by {
            assert(t.children.drop_last() =~= seq![]);
            assert(sum_of(seq![]) == Sum::none());
            assert(sum_of(t.children) == Sum::of(child));
        }
        assert((Tree { name: joined, path: full, children: child.children, ..t }) == made(
            inside(l, only),
            joined,
            full,
            expanded,
            collapsed,
        ));
    } else {
        assert(!(t.children.len() == 1 && t.children[0].is_dir)) by {
            if s.len() == 1 && folders(l).len() == 0 {
                assert(s[0] == sorted_file(path)(sorted(direct(l), by_leaf_name())[0]));
            }
        }
        lemma_shown_content(l, path, level + 1, collapsed);
    }
}

// How deep the tree is

spec fn all_shallow(c: Seq<Tree>, k: nat) -> bool {
    forall|i: int| 0 <= i < c.len() ==> shallow(#[trigger] c[i], k)
}

proof fn lemma_shallow_more(t: Tree, k: nat)
    requires
        shallow(t, k),
    ensures
        shallow(t, k + 1),
    decreases t,
{
    if t.children.len() > 0 {
        assert forall|i: int| 0 <= i < t.children.len() implies shallow(
            #[trigger] t.children[i],
            k,
        ) by {
            assert(shallow(t.children[i], (k - 1) as nat));
            lemma_shallow_more(t.children[i], (k - 1) as nat);
        }
    }
}

proof fn lemma_grow_shallow(
    c: Seq<Tree>,
    f: Leaf,
    prefix: Seq<char>,
    collapsed: Set<Seq<char>>,
    k: nat,
)
    requires
        all_shallow(c, k),
        f.parts.len() <= k + 1,
    ensures
        all_shallow(grow(c, f, prefix, collapsed), k),
    decreases f.parts.len(),
{
    let name = f.parts[0];
    let full = under(prefix, name);
    let g = grow(c, f, prefix, collapsed);
    if f.parts.len() <= 1 {
        assert forall|i: int| 0 <= i < g.len() implies shallow(#[trigger] g[i], k) by {
            if i < c.len() {
                assert(shallow(c[i], k));
            }
        }
    } else {
        let rest = Leaf { parts: f.parts.skip(1), ..f };
        let i = find_dir(c, name);
        let below = (k - 1) as nat;
        lemma_find_dir(c, name);
        if i < c.len() {
            assert(shallow(c[i], k));
            assert(all_shallow(c[i].children, below));
            lemma_grow_shallow(c[i].children, rest, full, collapsed, below);
        } else {
            assert(all_shallow(seq![], below));
            lemma_grow_shallow(seq![], rest, full, collapsed, below);
        }
        assert forall|j: int| 0 <= j < g.len() implies shallow(#[trigger] g[j], k) by {
            if j < c.len() && j != i {
                assert(shallow(c[j], k));
            }
        }
    }
}

proof fn lemma_grown_shallow(
    l: Seq<Leaf>,
    prefix: Seq<char>,
    collapsed: Set<Seq<char>>,
    k: nat,
)
    requires
        forall|i: int| 0 <= i < l.len() ==> (#[trigger] l[i]).parts.len() <= k + 1,
    ensures
        all_shallow(grown(l, prefix, collapsed), k),
    decreases l.len(),
{
    if l.len() > 0 {
        let d = l.drop_last();
        assert forall|i: int| 0 <= i < d.len() implies (#[trigger] d[i]).parts.len() <= k + 1 by {
            assert(d[i] == l[i]);
        }
        lemma_grown_shallow(d, prefix, collapsed, k);
        assert(l[l.len() - 1].parts.len() <= k + 1);
        lemma_grow_shallow(grown(d, prefix, collapsed), l.last(), prefix, collapsed, k);
    }
}

proof fn lemma_sort_shallow(t: Tree, k: nat)
    requires
        shallow(t, k),
    ensures
        shallow(sort_tree(t), k),
    decreases t, 1nat,
{
    lemma_sort_trees(t.children);
    lemma_sorted_len(sort_trees(t.children), by_tree());
    if t.children.len() > 0 {
        lemma_sort_all_shallow(t.children, (k - 1) as nat);
    }
}

proof fn lemma_sort_all_shallow(c: Seq<Tree>, k: nat)
    requires
        all_shallow(c, k),
    ensures
        all_shallow(sorted(sort_trees(c), by_tree()), k),
    decreases c, 0nat,
{
    let p = |t: Tree| shallow(t, k);
    let s = sort_trees(c);
    lemma_sort_trees(c);
    assert forall|i: int| 0 <= i < s.len() implies p(#[trigger] s[i]) by {
        assert(decreases_to!(c => c[i]));
        assert(shallow(c[i], k));
        lemma_sort_shallow(c[i], k);
    }
    lemma_sorted_all(s, by_tree(), p);
    assert forall|i: int| 0 <= i < s.len() implies shallow(
        #[trigger] sorted(s, by_tree())[i],
        k,
    ) by {
        assert(p(sorted(s, by_tree())[i]));
    }
}

proof fn lemma_agg_shallow(t: Tree, k: nat)
    requires
        shallow(t, k),
    ensures
        shallow(agg_tree(t), k),
    decreases t,
{
    if t.is_dir && t.children.len() > 0 {
        let c = t.children;
        lemma_agg_trees(c);
        assert forall|i: int| 0 <= i < c.len() implies shallow(
            #[trigger] agg_trees(c)[i],
            (k - 1) as nat,
        ) by {
            assert(shallow(c[i], (k - 1) as nat));
            lemma_agg_shallow(c[i], (k - 1) as nat);
        }
    }
}

proof fn lemma_join_shallow(t: Tree, collapsed: Set<Seq<char>>, k: nat)
    requires
        shallow(t, k),
    ensures
        shallow(join_tree(t, collapsed), k),
    decreases t.children,
{
    let c = t.children;
    if t.is_dir && c.len() > 0 {
        assert(shallow(c[0], (k - 1) as nat));
        if c.len() == 1 && c[0].is_dir {
            let only = c[0];
            let joined = Tree {
                name: t.name + "/"@ + only.name,
                path: only.path,
                children: only.children,
                ..t
            };
            lemma_shallow_more(only, (k - 1) as nat);
            assert(shallow(joined, k)) by {
                assert(all_shallow(only.children, (k - 1) as nat));
            }
            assert(decreases_to!(c => c[0]));
            assert(decreases_to!(c[0] => c[0].children));
            lemma_join_shallow(joined, collapsed, k);
        } else {
            lemma_join_trees(c, collapsed);
            assert forall|i: int| 0 <= i < c.len() implies shallow(
                #[trigger] join_trees(c, collapsed)[i],
                (k - 1) as nat,
            ) by {
                assert(shallow(c[i], (k - 1) as nat));
                assert(decreases_to!(c => c[i]));
                assert(decreases_to!(c[i] => c[i].children));
                lemma_join_shallow(c[i], collapsed, (k - 1) as nat);
            }
        }
    } else if t.is_dir {
        lemma_join_trees(c, collapsed);
    }
}

/// A file counts at most once in every state.
pub proof fn lemma_total_within(entries: Seq<FileEntryView>, side: Side)
    ensures
        leaves(entries, side).len() <= entries.len(),
        total(leaves(entries, side)).within(entries.len()),
    decreases entries.len(),
{
    if entries.len() > 0 {
        let before = leaves(entries.drop_last(), side);
        lemma_total_within(entries.drop_last(), side);
        if on_side(entries.last(), side) {
            assert(leaves(entries, side).drop_last() =~= before);
        }
    }
}

// ---------------------------------------------------------------------------

/// A set of paths.
pub struct PathSet {
    set: StringHashSet,
}

impl View for PathSet {
    type V = Set<Seq<char>>;

    closed spec fn view(&self) -> Set<Seq<char>> {
        self.set@
    }
}

impl PathSet {
    /// The set without paths.
    pub fn new() -> (r: PathSet)
        ensures
            r@ == Set::<Seq<char>>::empty(),
    {
        PathSet { set: StringHashSet::new() }
    }

    /// Whether a path is in the set.
    pub fn contains(&self, path: &str) -> (r: bool)
        ensures
            r == self@.contains(path@),
    {
        self.set.contains(path)
    }

    /// Adds a path.
    pub fn insert(&mut self, path: String)
        ensures
            final(self)@ == old(self)@.insert(path@),
    {
        self.set.insert(path);
    }

    /// Takes a path out.
    pub fn remove(&mut self, path: &str)
        ensures
            final(self)@ == old(self)@.remove(path@),
    {
        self.set.remove(path);
    }
}

/// Build a flattened list of visible tree rows for one side of the status view.
pub fn build_rows(entries: &[FileEntry], collapsed: &PathSet, side: Side) -> (rows: Vec<Row>)
    requires
        entries@.len() <= u32::MAX,
    ensures
        rows.deep_view() == side_rows(entries.deep_view(), collapsed@, side),
{
    let mut root = Node {
        name: String::new(),
        path: String::new(),
        kind: NodeKind::Dir,
        children: Vec::new(),
        expanded: true,
        agg: Agg::default(),
        lfs_tracked: false,
        lfs_pointer_warn: false,
        entry_index: None,
    };
    let ghost all = entries.deep_view();
    let ghost col = collapsed@;
    let ghost none: Seq<char> = seq![];
    let ghost k = usize::MAX as nat;
    proof {
        lemma_shape(root);
        assert(shape(root).children =~= seq![]);
        assert(root.name@ =~= none);
        assert(root.path@ =~= none);
        assert(shape(root) == dir_tree(none, none, true, seq![]));
        assert(all.take(0) =~= seq![]);
    }
    let mut i: usize = 0;
    while i < entries.len()
        invariant
            i <= entries@.len(),
            all == entries.deep_view(),
            col == collapsed@,
            k == usize::MAX,
            none == Seq::<char>::empty(),
            shape(root) == dir_tree(
                none,
                none,
                true,
                grown(leaves(all.take(i as int), side), none, col),
            ),
            forall|j: int|
                0 <= j < leaves(all.take(i as int), side).len() ==> (#[trigger] leaves(
                    all.take(i as int),
                    side,
                )[j]).parts.len() <= k,
        decreases entries@.len() - i,
    {
        let e = &entries[i];
        let keep = match side {
            Side::Unstaged => e.in_unstaged(),
            Side::Staged => e.in_staged(),
        };
        proof {
            assert(all.take(i + 1).drop_last() =~= all.take(i as int));
            assert(all.take(i + 1).last() == e.deep_view());
            assert(keep == on_side(e.deep_view(), side));
        }
        let ghost before = leaves(all.take(i as int), side);
        let ghost after = leaves(all.take(i + 1), side);
        if keep {
            insert(&mut root, e, i, &collapsed.set, side);
            proof {
                assert(after == before.push(leaf(e.deep_view(), side, i)));
                assert(after.drop_last() =~= before);
                assert forall|j: int| 0 <= j < after.len() implies (#[trigger] after[j]).parts.len()
                    <= k by {
                    if j < before.len() {
                        assert(after[j] == before[j]);
                    }
                }
            }
        }
        i += 1;
    }
    let ghost l = leaves(all, side);
    let ghost grown_root = shape(root);
    proof {
        assert(all.take(all.len() as int) =~= all);
        lemma_total_within(all, side);
        lemma_made(l, none, none, true, col);
        lemma_grown_shallow(l, none, col, k);
        lemma_sort_all_shallow(grown(l, none, col), k);
    }
    sort_rec(&mut root);
    aggregate(&mut root);
    let ghost c = shape(root).children;
    let ghost start = root;
    proof {
        lemma_shape(root);
        let s = sorted(sort_trees(grown(l, none, col)), by_tree());
        lemma_agg_trees(s);
        lemma_join_trees(c, col);
        assert forall|j: int| 0 <= j < c.len() implies shallow(
            #[trigger] join_trees(c, col)[j],
            k,
        ) by {
            assert(c[j] == agg_tree(s[j]));
            assert(shallow(s[j], k));
            lemma_agg_shallow(s[j], k);
            lemma_join_shallow(c[j], col, k);
        }
        lemma_shown_content(l, none, 0, col);
    }
    let mut i: usize = 0;
    while i < root.children.len()
        invariant
            i <= root.children@.len(),
            root.children@.len() == start.children@.len(),
            c == shapes(start.children@),
            col == collapsed@,
            forall|j: int|
                0 <= j < i ==> shape(#[trigger] root.children@[j]) == join_tree(c[j], col),
            forall|j: int| i <= j < root.children@.len() ==> #[trigger] root.children@[j]
                == start.children@[j],
        decreases root.children@.len() - i,
    {
        proof {
            assert(root.children@[i as int] == start.children@[i as int]);
            assert(c[i as int] == shape(root.children@[i as int]));
        }
        coalesce(&mut root.children[i], &collapsed.set);
        i += 1;
    }
    let ghost joined = join_trees(c, col);
    assert(shapes(root.children@) =~= joined);
    let mut rows: Vec<Row> = Vec::new();
    assert(rows.deep_view() =~= trees_rows(joined.take(0), 0));
    let mut i: usize = 0;
    while i < root.children.len()
        invariant
            i <= root.children@.len(),
            joined == shapes(root.children@),
            k == usize::MAX,
            forall|j: int| 0 <= j < joined.len() ==> shallow(#[trigger] joined[j], k),
            rows.deep_view() == trees_rows(joined.take(i as int), 0),
        decreases root.children@.len() - i,
    {
        proof {
            assert(joined[i as int] == shape(root.children@[i as int]));
            assert(joined.take(i + 1).drop_last() =~= joined.take(i as int));
        }
        push_rows(&root.children[i], 0, &mut rows, Ghost(k));
        i += 1;
    }
    assert(joined.take(joined.len() as int) =~= joined);
    rows
}

} // verus!
