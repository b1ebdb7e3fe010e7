//! What holds of the rows of a side.

use crate::git::{self, FileEntryView};
use crate::outside;
use crate::text;
use crate::tree::{self, AggView, Leaf, RowView, Side};
use vstd::prelude::*;

verus! {

/// The path of a leaf of the folder `prefix`.
spec fn whole(prefix: Seq<char>, parts: Seq<Seq<char>>) -> Seq<char> {
    tree::under(prefix, text::joined(parts, "/"@))
}

/// Whether a leaf of the folder `prefix` stands for the entry at its index.
spec fn traced(f: Leaf, prefix: Seq<char>, entries: Seq<FileEntryView>, side: Side) -> bool {
    let e = entries[f.index as int];
    &&& f.index < entries.len()
    &&& tree::on_side(e, side)
    &&& f == (Leaf { parts: f.parts, ..tree::leaf(e, side, f.index) })
    &&& f.parts.len() > 0
    &&& !text::begins(e.path, "/"@) ==> {
        &&& whole(prefix, f.parts) == e.path
        &&& prefix.len() > 0 || f.parts.len() == 1 || f.parts[0].len() > 0
    }
}

spec fn all_traced(
    l: Seq<Leaf>,
    prefix: Seq<char>,
    entries: Seq<FileEntryView>,
    side: Side,
) -> bool {
    forall|i: int| 0 <= i < l.len() ==> traced(#[trigger] l[i], prefix, entries, side)
}

/// Whether a row shows what it stands for: a file the entry at its index, and a
/// folder at most `n` files and whether it is collapsed.
pub open spec fn faithful(
    r: RowView,
    entries: Seq<FileEntryView>,
    collapsed: Set<Seq<char>>,
    side: Side,
    n: nat,
) -> bool {
    &&& r.agg.files() <= n
    &&& match r.entry_index {
        None => r.is_dir && r.expanded == !collapsed.contains(r.path),
        Some(i) => {
            let e = entries[i as int];
            &&& i < entries.len()
            &&& tree::on_side(e, side)
            &&& !r.is_dir
            &&& !r.expanded
            &&& r.agg == tree::counts(e, side)
            &&& r.lfs_tracked == e.lfs_tracked
            &&& r.lfs_pointer_warn == (e.lfs_tracked && e.lfs_pointer_ok == Some(false))
            &&& !text::begins(e.path, "/"@) ==> r.path == e.path
        },
    }
}

spec fn all_faithful(
    rows: Seq<RowView>,
    entries: Seq<FileEntryView>,
    collapsed: Set<Seq<char>>,
    side: Side,
    n: nat,
) -> bool {
    forall|i: int|
        0 <= i < rows.len() ==> faithful(#[trigger] rows[i], entries, collapsed, side, n)
}

proof fn lemma_leaf_traced(e: FileEntryView, side: Side, entries: Seq<FileEntryView>, i: usize)
    requires
        i < entries.len(),
        entries[i as int] == e,
        tree::on_side(e, side),
    ensures
        traced(tree::leaf(e, side, i), seq![], entries, side),
{
    reveal_strlit("/");
    assert("/"@ =~= seq!['/']);
    text::law_join_parts(e.path, '/');
    text::lemma_first(e.path, '/');
    if !text::begins(e.path, "/"@) {
        let all = text::parts(e.path, '/');
        if all.len() > 1 {
            assert(all[0] == e.path.take(text::first(e.path, '/')));
            if all[0].len() == 0 {
                assert(e.path.take(1) =~= "/"@);
            }
        }
    }
}

proof fn lemma_leaves_traced(entries: Seq<FileEntryView>, n: int, side: Side)
    requires
        0 <= n <= entries.len() <= usize::MAX,
    ensures
        all_traced(tree::leaves(entries.take(n), side), seq![], entries, side),
    decreases n,
{
    if n > 0 {
        let all = entries.take(n);
        lemma_leaves_traced(entries, n - 1, side);
        assert(all.drop_last() =~= entries.take(n - 1));
        if tree::on_side(all.last(), side) {
            lemma_leaf_traced(all.last(), side, entries, (n - 1) as usize);
        }
    }
}

proof fn lemma_inside_traced(
    l: Seq<Leaf>,
    name: Seq<char>,
    prefix: Seq<char>,
    entries: Seq<FileEntryView>,
    side: Side,
)
    requires
        all_traced(l, prefix, entries, side),
    ensures
        all_traced(tree::inside(l, name), tree::under(prefix, name), entries, side),
        tree::inside(l, name).len() <= l.len(),
    decreases l.len(),
{
    if l.len() > 0 {
        let d = l.drop_last();
        assert forall|i: int| 0 <= i < d.len() implies traced(
            #[trigger] d[i],
            prefix,
            entries,
            side,
        ) by {
            assert(traced(l[i], prefix, entries, side));
        }
        lemma_inside_traced(d, name, prefix, entries, side);
        let f = l.last();
        if f.parts.len() > 1 && f.parts[0] == name {
            let inner = Leaf { parts: f.parts.skip(1), ..f };
            assert(traced(l[l.len() - 1], prefix, entries, side));
            text::lemma_joined_cons(f.parts, "/"@);
            reveal_strlit("/");
            assert(traced(inner, tree::under(prefix, name), entries, side)) by {
                let e = entries[f.index as int];
                if !text::begins(e.path, "/"@) {
                    assert(whole(tree::under(prefix, name), inner.parts) =~= whole(prefix, f.parts));
                }
            }
        }
    }
}

proof fn lemma_total_files(
    l: Seq<Leaf>,
    prefix: Seq<char>,
    entries: Seq<FileEntryView>,
    side: Side,
)
    requires
        all_traced(l, prefix, entries, side),
    ensures
        tree::total(l).files() == l.len(),
    decreases l.len(),
{
    if l.len() > 0 {
        let d = l.drop_last();
        assert forall|i: int| 0 <= i < d.len() implies traced(
            #[trigger] d[i],
            prefix,
            entries,
            side,
        ) by {
            assert(traced(l[i], prefix, entries, side));
        }
        lemma_total_files(d, prefix, entries, side);
        assert(traced(l[l.len() - 1], prefix, entries, side));
    }
}

proof fn lemma_direct_traced(
    l: Seq<Leaf>,
    prefix: Seq<char>,
    entries: Seq<FileEntryView>,
    side: Side,
)
    requires
        all_traced(l, prefix, entries, side),
    ensures
        all_traced(tree::direct(l), prefix, entries, side),
        tree::direct(l).len() <= l.len(),
        forall|i: int| 0 <= i < tree::direct(l).len() ==> (#[trigger] tree::direct(l)[i]).parts.len() == 1,
    decreases l.len(),
{
    if l.len() > 0 {
        let d = l.drop_last();
        assert forall|i: int| 0 <= i < d.len() implies traced(
            #[trigger] d[i],
            prefix,
            entries,
            side,
        ) by {
            assert(traced(l[i], prefix, entries, side));
        }
        lemma_direct_traced(d, prefix, entries, side);
        assert(traced(l[l.len() - 1], prefix, entries, side));
    }
}

proof fn lemma_content_faithful(
    l: Seq<Leaf>,
    prefix: Seq<char>,
    level: nat,
    collapsed: Set<Seq<char>>,
    entries: Seq<FileEntryView>,
    side: Side,
    n: nat,
)
    requires
        all_traced(l, prefix, entries, side),
        l.len() <= n,
    ensures
        all_faithful(tree::content_rows(l, prefix, level, collapsed), entries, collapsed, side, n),
    decreases tree::weight(l), 1nat, 0nat,
{
    let names = tree::sorted(tree::folders(l), tree::by_name());
    let files = tree::sorted(tree::direct(l), tree::by_leaf_name());
    lemma_folders_faithful(l, names, prefix, level, collapsed, entries, side, n);
    lemma_direct_traced(l, prefix, entries, side);
    let p = |f: Leaf| traced(f, prefix, entries, side) && f.parts.len() == 1;
    assert forall|i: int| 0 <= i < tree::direct(l).len() implies p(#[trigger] tree::direct(l)[i]) by {
        assert(traced(tree::direct(l)[i], prefix, entries, side));
    }
    tree::lemma_sorted_all(tree::direct(l), tree::by_leaf_name(), p);
    assert forall|i: int| 0 <= i < files.len() implies faithful(
        #[trigger] tree::file_row(files[i], prefix, level),
        entries,
        collapsed,
        side,
        n,
    ) by {
        assert(p(files[i]));
        assert(text::joined(files[i].parts, "/"@) == files[i].parts[0]);
    }
}

proof fn lemma_folders_faithful(
    l: Seq<Leaf>,
    names: Seq<Seq<char>>,
    prefix: Seq<char>,
    level: nat,
    collapsed: Set<Seq<char>>,
    entries: Seq<FileEntryView>,
    side: Side,
    n: nat,
)
    requires
        all_traced(l, prefix, entries, side),
        l.len() <= n,
    ensures
        all_faithful(tree::folder_rows(l, names, prefix, level, collapsed), entries, collapsed, side, n),
    decreases tree::weight(l), 0nat, names.len(),
{
    if names.len() > 0 {
        let name = names.last();
        lemma_folders_faithful(
            l,
            names.drop_last(),
            prefix,
            level,
            collapsed,
            entries,
            side,
            n,
        );
        tree::lemma_inside_weight(l, name);
        lemma_inside_traced(l, name, prefix, entries, side);
        if tree::inside(l, name).len() > 0 {
            lemma_folder_faithful(
                tree::inside(l, name),
                name,
                tree::under(prefix, name),
                level,
                collapsed,
                entries,
                side,
                n,
            );
        }
    }
}

proof fn lemma_folder_faithful(
    l: Seq<Leaf>,
    name: Seq<char>,
    path: Seq<char>,
    level: nat,
    collapsed: Set<Seq<char>>,
    entries: Seq<FileEntryView>,
    side: Side,
    n: nat,
)
    requires
        all_traced(l, path, entries, side),
        l.len() <= n,
    ensures
        all_faithful(tree::one_folder_rows(l, name, path, level, collapsed), entries, collapsed, side, n),
    decreases tree::weight(l), 2nat, 0nat,
{
    if tree::folders(l).len() == 1 && tree::direct(l).len() == 0 && tree::inside(l, tree::folders(l)[0]).len() > 0 {
        let only = tree::folders(l)[0];
        tree::lemma_inside_weight(l, only);
        lemma_inside_traced(l, only, path, entries, side);
        lemma_folder_faithful(
            tree::inside(l, only),
            name + "/"@ + only,
            tree::under(path, only),
            level,
            collapsed,
            entries,
            side,
            n,
        );
    } else {
        lemma_total_files(l, path, entries, side);
        lemma_content_faithful(l, path, level + 1, collapsed, entries, side, n);
    }
}

/// A row of a file shows the entry at its index, which belongs to the side; its
/// path is the entry's, if that does not begin with a slash. A row of a folder
/// counts no more files than there are entries, and is expanded unless its path
/// is collapsed.
pub proof fn law_rows_faithful(entries: Seq<FileEntryView>, collapsed: Set<Seq<char>>, side: Side)
    requires
        entries.len() <= usize::MAX,
    ensures
        forall|i: int|
            0 <= i < tree::side_rows(entries, collapsed, side).len() ==> faithful(
                #[trigger] tree::side_rows(entries, collapsed, side)[i],
                entries,
                collapsed,
                side,
                entries.len(),
            ),
{
    assert(entries.take(entries.len() as int) =~= entries);
    lemma_leaves_traced(entries, entries.len() as int, side);
    tree::lemma_total_within(entries, side);
    lemma_content_faithful(
        tree::leaves(entries, side),
        seq![],
        0,
        collapsed,
        entries,
        side,
        entries.len(),
    );
}

/// Without files a side has no rows.
pub proof fn law_nothing_shown(collapsed: Set<Seq<char>>, side: Side)
    ensures
        tree::side_rows(seq![], collapsed, side) == Seq::<RowView>::empty(),
{
    let none: Seq<Leaf> = seq![];
    assert(tree::leaves(seq![], side) =~= none);
    assert(tree::folders(none) =~= seq![]);
    assert(tree::direct(none) =~= seq![]);
    assert(tree::sorted(tree::folders(none), tree::by_name()) =~= seq![]);
    assert(tree::sorted(tree::direct(none), tree::by_leaf_name()) =~= seq![]);
    assert(tree::folder_rows(none, seq![], seq![], 0, collapsed) =~= seq![]);
    assert(tree::content_rows(none, seq![], 0, collapsed) =~= seq![]);
}

// What a folder counts

/// What the files of a side below a folder count together.
pub open spec fn below(entries: Seq<FileEntryView>, side: Side, folder: Seq<char>) -> AggView
    decreases entries.len(),
{
    if entries.len() == 0 {
        AggView::none()
    } else {
        let before = below(entries.drop_last(), side, folder);
        let e = entries.last();
        if tree::on_side(e, side) && text::begins(e.path, folder + "/"@) {
            before.plus(tree::counts(e, side))
        } else {
            before
        }
    }
}

/// The leaves below a folder, seen from inside it.
spec fn leaves_below(entries: Seq<FileEntryView>, side: Side, folder: Seq<char>) -> Seq<Leaf>
    decreases entries.len(),
{
    if entries.len() == 0 {
        seq![]
    } else {
        let before = leaves_below(entries.drop_last(), side, folder);
        let e = entries.last();
        if tree::on_side(e, side) && text::begins(e.path, folder + "/"@) {
            before.push(
                Leaf {
                    parts: text::parts(e.path.skip(folder.len() as int + 1), '/'),
                    ..tree::leaf(e, side, (entries.len() - 1) as usize)
                },
            )
        } else {
            before
        }
    }
}

proof fn lemma_below_total(entries: Seq<FileEntryView>, side: Side, folder: Seq<char>)
    ensures
        tree::total(leaves_below(entries, side, folder)) == below(entries, side, folder),
    decreases entries.len(),
{
    if entries.len() > 0 {
        lemma_below_total(entries.drop_last(), side, folder);
        let l = leaves_below(entries, side, folder);
        let before = leaves_below(entries.drop_last(), side, folder);
        let e = entries.last();
        if tree::on_side(e, side) && text::begins(e.path, folder + "/"@) {
            assert(l.drop_last() =~= before);
        }
    }
}

/// A text begins with a name and a slash if the name is the first of its several
/// parts.
proof fn lemma_first_part(s: Seq<char>, name: Seq<char>)
    requires
        !name.contains('/'),
    ensures
        text::begins(s, name + "/"@) <==> (text::parts(s, '/').len() > 1 && text::parts(s, '/')[0]
            == name),
        text::begins(s, name + "/"@) ==> text::parts(s, '/').skip(1) == text::parts(
            s.skip(name.len() as int + 1),
            '/',
        ),
{
    reveal_strlit("/");
    text::lemma_first(s, '/');
    let i = text::first(s, '/');
    let n = name.len() as int;
    let all = text::parts(s, '/');
    if i < s.len() {
        text::law_join_parts(s.skip(i + 1), '/');
        assert(all.skip(1) =~= text::parts(s.skip(i + 1), '/'));
    }
    if text::begins(s, name + "/"@) {
        let p = name + "/"@;
        assert(p[n] == '/');
        assert(s.take(p.len() as int)[n] == s[n]);
        assert(i <= n);
        if i < n {
            assert(s.take(p.len() as int)[i] == s[i]);
            assert(p[i] == name[i]);
            assert(name.contains('/'));
        }
        assert(s.take(i) =~= name) by {
            assert forall|k: int| 0 <= k < n implies s.take(i)[k] == name[k] by {
                assert(s.take(p.len() as int)[k] == p[k]);
            }
        }
    }
    if all.len() > 1 && all[0] == name {
        assert(i < s.len());
        assert(s.take(i) == name);
        assert(s.take(n + 1) =~= name + "/"@);
    }
}

/// The parts of a text hold no separator.
proof fn lemma_parts_clean(s: Seq<char>)
    ensures
        forall|i: int|
            0 <= i < text::parts(s, '/').len() ==> !(#[trigger] text::parts(s, '/')[i]).contains(
                '/',
            ),
    decreases s.len(),
{
    text::lemma_first(s, '/');
    let i = text::first(s, '/');
    if i < s.len() {
        lemma_parts_clean(s.skip(i + 1));
        let rest = text::parts(s.skip(i + 1), '/');
        assert forall|k: int| 0 <= k < text::parts(s, '/').len() implies !(#[trigger] text::parts(
            s,
            '/',
        )[k]).contains('/') by {
            if k > 0 {
                assert(text::parts(s, '/')[k] == rest[k - 1]);
            } else {
                assert(text::parts(s, '/')[0] == s.take(i));
            }
        }
    } else {
        assert(text::parts(s, '/') =~= seq![s]);
    }
}

/// The folder `name` at the top holds the leaves below it.
proof fn lemma_inside_top(entries: Seq<FileEntryView>, side: Side, name: Seq<char>)
    requires
        !name.contains('/'),
    ensures
        tree::inside(tree::leaves(entries, side), name) == leaves_below(entries, side, name),
    decreases entries.len(),
{
    if entries.len() > 0 {
        let d = entries.drop_last();
        let e = entries.last();
        lemma_inside_top(d, side, name);
        lemma_first_part(e.path, name);
        if tree::on_side(e, side) {
            let l = tree::leaves(entries, side);
            assert(l.drop_last() =~= tree::leaves(d, side));
        }
    }
}

/// The folder `name` in a folder holds the leaves below it.
proof fn lemma_inside_below(
    entries: Seq<FileEntryView>,
    side: Side,
    folder: Seq<char>,
    name: Seq<char>,
)
    requires
        !name.contains('/'),
        folder.len() > 0,
    ensures
        tree::inside(leaves_below(entries, side, folder), name) == leaves_below(
            entries,
            side,
            tree::under(folder, name),
        ),
    decreases entries.len(),
{
    if entries.len() > 0 {
        let d = entries.drop_last();
        let e = entries.last();
        let full = tree::under(folder, name);
        lemma_inside_below(d, side, folder, name);
        reveal_strlit("/");
        let p = folder + "/"@;
        let q = full + "/"@;
        assert(q =~= p + (name + "/"@));
        if tree::on_side(e, side) {
            let rest = e.path.skip(folder.len() as int + 1);
            if text::begins(e.path, p) {
                lemma_first_part(rest, name);
                let l = leaves_below(entries, side, folder);
                assert(l.drop_last() =~= leaves_below(d, side, folder));
                assert(e.path =~= p + rest);
                if text::begins(rest, name + "/"@) {
                    assert(e.path.take(q.len() as int) =~= p + rest.take(name.len() as int + 1));
                    assert(text::begins(e.path, q));
                    assert(rest.skip(name.len() as int + 1) =~= e.path.skip(
                        full.len() as int + 1,
                    ));
                }
                if text::begins(e.path, q) {
                    assert(rest.take(name.len() as int + 1) =~= e.path.take(q.len() as int).skip(
                        p.len() as int,
                    ));
                    assert(q.skip(p.len() as int) =~= name + "/"@);
                    assert(text::begins(rest, name + "/"@));
                }
            } else if text::begins(e.path, q) {
                assert(e.path.take(p.len() as int) =~= e.path.take(q.len() as int).take(
                    p.len() as int,
                ));
                assert(q.take(p.len() as int) =~= p);
            }
        }
    }
}

spec fn no_slash(l: Seq<Leaf>) -> bool {
    forall|i: int, k: int|
        0 <= i < l.len() && 0 <= k < l[i].parts.len() ==> !(#[trigger] l[i].parts[k]).contains('/')
}

proof fn lemma_below_clean(entries: Seq<FileEntryView>, side: Side, folder: Seq<char>)
    ensures
        no_slash(leaves_below(entries, side, folder)),
    decreases entries.len(),
{
    if entries.len() > 0 {
        lemma_below_clean(entries.drop_last(), side, folder);
        lemma_parts_clean(entries.last().path.skip(folder.len() as int + 1));
    }
}

proof fn lemma_top_clean(entries: Seq<FileEntryView>, side: Side)
    ensures
        no_slash(tree::leaves(entries, side)),
    decreases entries.len(),
{
    if entries.len() > 0 {
        lemma_top_clean(entries.drop_last(), side);
        lemma_parts_clean(entries.last().path);
    }
}

proof fn lemma_folders_clean(l: Seq<Leaf>)
    requires
        no_slash(l),
    ensures
        forall|i: int| 0 <= i < tree::folders(l).len() ==> !(#[trigger] tree::folders(l)[i]).contains('/'),
    decreases l.len(),
{
    if l.len() > 0 {
        let d = l.drop_last();
        assert forall|i: int, k: int| 0 <= i < d.len() && 0 <= k < d[i].parts.len() implies !(
        #[trigger] d[i].parts[k]).contains('/') by {
            assert(d[i] == l[i]);
            assert(!l[i].parts[k].contains('/'));
        }
        lemma_folders_clean(d);
        assert forall|i: int| 0 <= i < tree::folders(l).len() implies !(#[trigger] tree::folders(
            l,
        )[i]).contains('/') by {
            if i < tree::folders(d).len() {
                assert(tree::folders(l)[i] == tree::folders(d)[i]);
            } else {
                assert(!l[l.len() - 1].parts[0].contains('/'));
            }
        }
    }
}

/// The first folder of a name.
pub open spec fn head(name: Seq<char>) -> Seq<char> {
    text::parts(name, '/')[0]
}

/// The first part of a name is that before its first slash.
proof fn lemma_head(first: Seq<char>, tail: Seq<char>)
    requires
        !first.contains('/'),
    ensures
        head(first) == first,
        head(first + "/"@ + tail) == first,
{
    reveal_strlit("/");
    let s = first + "/"@ + tail;
    assert(s.take(first.len() as int + 1) =~= first + "/"@);
    lemma_first_part(s, first);
    text::lemma_first(first, '/');
}

/// Whether a file of a side lies below a folder.
pub open spec fn is_below(e: FileEntryView, side: Side, folder: Seq<char>) -> bool {
    tree::on_side(e, side) && text::begins(e.path, folder + "/"@)
}

/// Whether a file of the large-file storage lies below a folder.
pub open spec fn lfs_below(entries: Seq<FileEntryView>, side: Side, folder: Seq<char>) -> bool {
    exists|i: int|
        0 <= i < entries.len() && is_below(#[trigger] entries[i], side, folder)
            && entries[i].lfs_tracked
}

/// Whether a file below a folder belongs to the large-file storage while the index
/// holds its content.
pub open spec fn raw_below(entries: Seq<FileEntryView>, side: Side, folder: Seq<char>) -> bool {
    exists|i: int|
        0 <= i < entries.len() && is_below(#[trigger] entries[i], side, folder)
            && entries[i].lfs_tracked && entries[i].lfs_pointer_ok == Some(false)
}

/// The name of the file or folder in a folder that a file below it is or lies in.
pub open spec fn entry_of(e: FileEntryView, folder: Seq<char>) -> Seq<char> {
    head(e.path.skip(folder.len() as int + 1))
}

/// Whether a file lies in a folder, and not in a folder in it.
pub open spec fn right_in(e: FileEntryView, folder: Seq<char>) -> bool {
    !e.path.skip(folder.len() as int + 1).contains('/')
}

/// Whether a folder holds more than just one folder: a file, or two folders.
pub open spec fn holds_more(entries: Seq<FileEntryView>, side: Side, folder: Seq<char>) -> bool {
    ||| exists|i: int|
        0 <= i < entries.len() && is_below(#[trigger] entries[i], side, folder) && right_in(
            entries[i],
            folder,
        )
    ||| exists|i: int, j: int|
        0 <= i < entries.len() && 0 <= j < entries.len() && is_below(
            #[trigger] entries[i],
            side,
            folder,
        ) && is_below(#[trigger] entries[j], side, folder) && entry_of(entries[i], folder)
            != entry_of(entries[j], folder)
}

/// Whether all that lies below a folder lies below another.
pub open spec fn all_within(
    entries: Seq<FileEntryView>,
    side: Side,
    outer: Seq<char>,
    inner: Seq<char>,
) -> bool {
    forall|i: int|
        0 <= i < entries.len() && is_below(#[trigger] entries[i], side, outer) ==> is_below(
            entries[i],
            side,
            inner,
        )
}

/// The path of the first of the folders that share a row.
pub open spec fn first_folder(r: RowView) -> Seq<char> {
    r.path.take(r.path.len() - r.name.len() + head(r.name).len())
}

/// Whether a row of a folder shows what lies below it: it counts the files, and
/// tells whether any is of the large-file storage and whether any such is held by
/// its content. Its path is that of a folder that holds more than one folder, and
/// the folders that share the row hold nothing else.
pub open spec fn sums_up(r: RowView, entries: Seq<FileEntryView>, side: Side) -> bool {
    &&& r.agg == below(entries, side, r.path)
    &&& r.lfs_tracked == lfs_below(entries, side, r.path)
    &&& r.lfs_pointer_warn == raw_below(entries, side, r.path)
    &&& holds_more(entries, side, r.path)
    &&& all_within(entries, side, first_folder(r), r.path)
}

/// A leaf below a folder stands for an entry below it.
proof fn lemma_leaf_entry(entries: Seq<FileEntryView>, side: Side, folder: Seq<char>, k: int) -> (
    i: int)
    requires
        0 <= k < leaves_below(entries, side, folder).len(),
    ensures
        0 <= i < entries.len(),
        is_below(entries[i], side, folder),
        ({
            let f = leaves_below(entries, side, folder)[k];
            &&& f.parts == text::parts(entries[i].path.skip(folder.len() as int + 1), '/')
            &&& f.lfs == entries[i].lfs_tracked
            &&& f.warn == (entries[i].lfs_tracked && entries[i].lfs_pointer_ok == Some(false))
        }),
    decreases entries.len(),
{
    let d = entries.drop_last();
    let before = leaves_below(d, side, folder);
    if k < before.len() {
        let i = lemma_leaf_entry(d, side, folder, k);
        assert(entries[i] == d[i]);
        assert(leaves_below(entries, side, folder)[k] == before[k]);
        i
    } else {
        entries.len() - 1
    }
}

/// An entry below a folder is a leaf below it.
proof fn lemma_entry_leaf(entries: Seq<FileEntryView>, side: Side, folder: Seq<char>, i: int) -> (
    k: int)
    requires
        0 <= i < entries.len(),
        is_below(entries[i], side, folder),
    ensures
        0 <= k < leaves_below(entries, side, folder).len(),
        ({
            let f = leaves_below(entries, side, folder)[k];
            &&& f.parts == text::parts(entries[i].path.skip(folder.len() as int + 1), '/')
            &&& f.lfs == entries[i].lfs_tracked
            &&& f.warn == (entries[i].lfs_tracked && entries[i].lfs_pointer_ok == Some(false))
        }),
    decreases entries.len(),
{
    let d = entries.drop_last();
    if i < d.len() {
        assert(d[i] == entries[i]);
        let k = lemma_entry_leaf(d, side, folder, i);
        assert(leaves_below(entries, side, folder)[k] == leaves_below(d, side, folder)[k]);
        k
    } else {
        leaves_below(d, side, folder).len() as int
    }
}

proof fn lemma_below_flags(entries: Seq<FileEntryView>, side: Side, folder: Seq<char>)
    ensures
        tree::any_lfs(leaves_below(entries, side, folder)) == lfs_below(entries, side, folder),
        tree::any_warn(leaves_below(entries, side, folder)) == raw_below(entries, side, folder),
{
    let l = leaves_below(entries, side, folder);
    if tree::any_lfs(l) {
        let k = choose|k: int| 0 <= k < l.len() && (#[trigger] l[k]).lfs;
        let i = lemma_leaf_entry(entries, side, folder, k);
        assert(is_below(entries[i], side, folder) && entries[i].lfs_tracked);
    }
    if lfs_below(entries, side, folder) {
        let i = choose|i: int|
            0 <= i < entries.len() && is_below(#[trigger] entries[i], side, folder)
                && entries[i].lfs_tracked;
        let k = lemma_entry_leaf(entries, side, folder, i);
        assert(l[k].lfs);
    }
    if tree::any_warn(l) {
        let k = choose|k: int| 0 <= k < l.len() && (#[trigger] l[k]).warn;
        let i = lemma_leaf_entry(entries, side, folder, k);
        assert(is_below(entries[i], side, folder) && entries[i].lfs_tracked);
    }
    if raw_below(entries, side, folder) {
        let i = choose|i: int|
            0 <= i < entries.len() && is_below(#[trigger] entries[i], side, folder)
                && entries[i].lfs_tracked && entries[i].lfs_pointer_ok == Some(false);
        let k = lemma_entry_leaf(entries, side, folder, i);
        assert(l[k].warn);
    }
}

/// A leaf is in a folder or in none.
proof fn lemma_leaf_kept(l: Seq<Leaf>, k: int)
    requires
        0 <= k < l.len(),
    ensures
        l[k].parts.len() > 1 ==> tree::folders(l).contains(l[k].parts[0]),
        l[k].parts.len() <= 1 ==> tree::direct(l).len() > 0,
    decreases l.len(),
{
    let d = l.drop_last();
    let before = tree::folders(d);
    if k < d.len() {
        lemma_leaf_kept(d, k);
        assert(d[k] == l[k]);
        if l[k].parts.len() > 1 {
            let n = choose|n: int| 0 <= n < before.len() && before[n] == l[k].parts[0];
            assert(tree::folders(l)[n] == before[n]);
        }
    } else if l[k].parts.len() > 1 && !before.contains(l[k].parts[0]) {
        assert(tree::folders(l)[before.len() as int] == l[k].parts[0]);
    }
}

/// The leaves that lie in no further folder are among the leaves.
proof fn lemma_direct_among(l: Seq<Leaf>, n: int) -> (k: int)
    requires
        0 <= n < tree::direct(l).len(),
    ensures
        0 <= k < l.len(),
        l[k] == tree::direct(l)[n],
        l[k].parts.len() <= 1,
    decreases l.len(),
{
    let d = l.drop_last();
    let before = tree::direct(d);
    if n < before.len() {
        let k = lemma_direct_among(d, n);
        assert(d[k] == l[k]);
        assert(tree::direct(l)[n] == before[n]);
        k
    } else {
        l.len() - 1
    }
}

/// A folder is one that some leaf lies in.
proof fn lemma_folder_among(l: Seq<Leaf>, n: int) -> (k: int)
    requires
        0 <= n < tree::folders(l).len(),
    ensures
        0 <= k < l.len(),
        l[k].parts.len() > 1,
        l[k].parts[0] == tree::folders(l)[n],
    decreases l.len(),
{
    let d = l.drop_last();
    let before = tree::folders(d);
    if n < before.len() {
        let k = lemma_folder_among(d, n);
        assert(d[k] == l[k]);
        assert(tree::folders(l)[n] == before[n]);
        k
    } else {
        l.len() - 1
    }
}

/// A folder that does not share its row with one in it holds more than one folder.
proof fn lemma_holds_more(entries: Seq<FileEntryView>, side: Side, folder: Seq<char>)
    requires
        leaves_below(entries, side, folder).len() > 0,
        !(tree::folders(leaves_below(entries, side, folder)).len() == 1 && tree::direct(
            leaves_below(entries, side, folder),
        ).len() == 0),
    ensures
        holds_more(entries, side, folder),
{
    let l = leaves_below(entries, side, folder);
    lemma_leaf_kept(l, 0);
    if tree::direct(l).len() > 0 {
        let k = lemma_direct_among(l, 0);
        let i = lemma_leaf_entry(entries, side, folder, k);
        let rest = entries[i].path.skip(folder.len() as int + 1);
        text::lemma_first(rest, '/');
        if rest.contains('/') {
            text::law_join_parts(rest.skip(text::first(rest, '/') + 1), '/');
        }
        assert(is_below(entries[i], side, folder) && right_in(entries[i], folder));
    } else {
        tree::lemma_folders(l);
        let a = lemma_folder_among(l, 0);
        let b = lemma_folder_among(l, 1);
        let i = lemma_leaf_entry(entries, side, folder, a);
        let j = lemma_leaf_entry(entries, side, folder, b);
        assert(tree::folders(l)[0] != tree::folders(l)[1]);
        assert(entry_of(entries[i], folder) != entry_of(entries[j], folder));
        assert(is_below(entries[i], side, folder) && is_below(entries[j], side, folder));
    }
}

/// All that lies below a folder that holds just one folder lies below that.
proof fn lemma_only_within(entries: Seq<FileEntryView>, side: Side, folder: Seq<char>)
    requires
        folder.len() > 0,
        tree::folders(leaves_below(entries, side, folder)).len() == 1,
        tree::direct(leaves_below(entries, side, folder)).len() == 0,
    ensures
        all_within(
            entries,
            side,
            folder,
            tree::under(folder, tree::folders(leaves_below(entries, side, folder))[0]),
        ),
{
    let l = leaves_below(entries, side, folder);
    let only = tree::folders(l)[0];
    let inner = tree::under(folder, only);
    reveal_strlit("/");
    lemma_below_clean(entries, side, folder);
    lemma_folders_clean(l);
    assert forall|i: int|
        0 <= i < entries.len() && is_below(#[trigger] entries[i], side, folder) implies is_below(
        entries[i],
        side,
        inner,
    ) by {
        let s = entries[i].path;
        let n = folder.len() as int + 1;
        let rest = s.skip(n);
        let k = lemma_entry_leaf(entries, side, folder, i);
        lemma_leaf_kept(l, k);
        assert(tree::folders(l).contains(l[k].parts[0]));
        assert(l[k].parts[0] == only);
        lemma_first_part(rest, only);
        assert(s =~= s.take(n) + rest);
        assert(s.take(n) == folder + "/"@);
        let q = inner + "/"@;
        assert(q =~= (folder + "/"@) + (only + "/"@));
        assert(s.take(q.len() as int) =~= s.take(n) + rest.take(only.len() as int + 1));
    }
}

/// Whether the rows of folders sum up what lies below them.
spec fn all_counted(rows: Seq<RowView>, entries: Seq<FileEntryView>, side: Side) -> bool {
    forall|i: int|
        0 <= i < rows.len() && (#[trigger] rows[i]).is_dir ==> sums_up(rows[i], entries, side)
}

proof fn lemma_content_counted(
    entries: Seq<FileEntryView>,
    side: Side,
    folder: Seq<char>,
    level: nat,
    collapsed: Set<Seq<char>>,
)
    requires
        folder.len() > 0,
    ensures
        all_counted(
            tree::content_rows(leaves_below(entries, side, folder), folder, level, collapsed),
            entries,
            side,
        ),
    decreases tree::weight(leaves_below(entries, side, folder)), 1nat, 0nat,
{
    let l = leaves_below(entries, side, folder);
    let names = tree::sorted(tree::folders(l), tree::by_name());
    lemma_below_clean(entries, side, folder);
    lemma_folders_clean(l);
    let p = |n: Seq<char>| !n.contains('/');
    assert forall|i: int| 0 <= i < tree::folders(l).len() implies p(#[trigger] tree::folders(l)[i]) by {}
    tree::lemma_sorted_all(tree::folders(l), tree::by_name(), p);
    assert forall|i: int| 0 <= i < names.len() implies !(#[trigger] names[i]).contains('/') by {
        assert(p(names[i]));
    }
    lemma_folders_counted(entries, side, folder, names, level, collapsed);
}

proof fn lemma_folders_counted(
    entries: Seq<FileEntryView>,
    side: Side,
    folder: Seq<char>,
    names: Seq<Seq<char>>,
    level: nat,
    collapsed: Set<Seq<char>>,
)
    requires
        folder.len() > 0,
        forall|i: int| 0 <= i < names.len() ==> !(#[trigger] names[i]).contains('/'),
    ensures
        all_counted(
            tree::folder_rows(leaves_below(entries, side, folder), names, folder, level, collapsed),
            entries,
            side,
        ),
    decreases tree::weight(leaves_below(entries, side, folder)), 0nat, names.len(),
{
    if names.len() > 0 {
        let l = leaves_below(entries, side, folder);
        let name = names.last();
        lemma_folders_counted(entries, side, folder, names.drop_last(), level, collapsed);
        tree::lemma_inside_weight(l, name);
        lemma_inside_below(entries, side, folder, name);
        if tree::inside(l, name).len() > 0 {
            assert(tree::under(folder, name) =~= folder + "/"@ + name);
            assert(name == names[names.len() - 1]);
            lemma_head(name, seq![]);
            lemma_folder_counted(
                entries,
                side,
                name,
                tree::under(folder, name),
                level,
                collapsed,
                folder + "/"@,
                name,
            );
        }
    }
}

/// `before` and `name` make the path of the folder, and `first` is the first folder
/// of the name.
proof fn lemma_folder_counted(
    entries: Seq<FileEntryView>,
    side: Side,
    name: Seq<char>,
    path: Seq<char>,
    level: nat,
    collapsed: Set<Seq<char>>,
    before: Seq<char>,
    first: Seq<char>,
)
    requires
        path.len() > 0,
        leaves_below(entries, side, path).len() > 0,
        path == before + name,
        !first.contains('/'),
        name == first || exists|tail: Seq<char>| name == #[trigger] (first + "/"@ + tail),
        all_within(entries, side, before + first, path),
    ensures
        all_counted(
            tree::one_folder_rows(leaves_below(entries, side, path), name, path, level, collapsed),
            entries,
            side,
        ),
    decreases tree::weight(leaves_below(entries, side, path)), 2nat, 0nat,
{
    let l = leaves_below(entries, side, path);
    let rows = tree::one_folder_rows(l, name, path, level, collapsed);
    tree::lemma_folders(l);
    if tree::folders(l).len() == 1 {
        assert(tree::folders(l).contains(tree::folders(l)[0]));
    }
    if tree::folders(l).len() == 1 && tree::direct(l).len() == 0 && tree::inside(l, tree::folders(l)[0]).len() > 0 {
        let only = tree::folders(l)[0];
        let longer = name + "/"@ + only;
        lemma_below_clean(entries, side, path);
        lemma_folders_clean(l);
        tree::lemma_inside_weight(l, only);
        lemma_inside_below(entries, side, path, only);
        lemma_only_within(entries, side, path);
        assert(tree::under(path, only) =~= before + longer);
        if name == first {
            assert(longer == first + "/"@ + only);
        } else {
            let tail = choose|tail: Seq<char>| name == #[trigger] (first + "/"@ + tail);
            assert(longer =~= first + "/"@ + (tail + "/"@ + only));
        }
        lemma_folder_counted(
            entries,
            side,
            longer,
            tree::under(path, only),
            level,
            collapsed,
            before,
            first,
        );
    } else {
        lemma_below_total(entries, side, path);
        lemma_below_flags(entries, side, path);
        lemma_holds_more(entries, side, path);
        lemma_content_counted(entries, side, path, level + 1, collapsed);
        if name == first {
            lemma_head(first, seq![]);
        } else {
            let tail = choose|tail: Seq<char>| name == #[trigger] (first + "/"@ + tail);
            lemma_head(first, tail);
            assert(name.take(first.len() as int) =~= first);
        }
        assert(first_folder(rows[0]) =~= before + first);
        assert(sums_up(rows[0], entries, side));
        let content = tree::content_rows(l, path, level + 1, collapsed);
        assert forall|i: int| 0 <= i < rows.len() && (#[trigger] rows[i]).is_dir implies sums_up(
            rows[i],
            entries,
            side,
        ) by {
            if i > 0 {
                assert(rows[i] == content[i - 1]);
            }
        }
    }
}

proof fn lemma_top_counted(
    entries: Seq<FileEntryView>,
    side: Side,
    names: Seq<Seq<char>>,
    collapsed: Set<Seq<char>>,
)
    requires
        forall|i: int|
            0 <= i < names.len() ==> !(#[trigger] names[i]).contains('/') && names[i].len() > 0,
    ensures
        all_counted(
            tree::folder_rows(tree::leaves(entries, side), names, seq![], 0, collapsed),
            entries,
            side,
        ),
    decreases names.len(),
{
    if names.len() > 0 {
        let name = names.last();
        lemma_top_counted(entries, side, names.drop_last(), collapsed);
        lemma_inside_top(entries, side, name);
        assert(!names[names.len() - 1].contains('/'));
        if tree::inside(tree::leaves(entries, side), name).len() > 0 {
            assert(seq![] + name =~= name);
            lemma_head(name, seq![]);
            lemma_folder_counted(entries, side, name, name, 0, collapsed, seq![], name);
        }
    }
}

/// A folder that holds leaves at the top has a name, if no path begins with a
/// slash.
proof fn lemma_top_named(entries: Seq<FileEntryView>, side: Side)
    requires
        forall|i: int| 0 <= i < entries.len() ==> !text::begins((#[trigger] entries[i]).path, "/"@),
    ensures
        forall|i: int|
            0 <= i < tree::folders(tree::leaves(entries, side)).len() ==> (#[trigger] tree::folders(
                tree::leaves(entries, side),
            )[i]).len() > 0,
    decreases entries.len(),
{
    if entries.len() > 0 {
        let d = entries.drop_last();
        assert forall|i: int| 0 <= i < d.len() implies !text::begins(
            (#[trigger] d[i]).path,
            "/"@,
        ) by {
            assert(d[i] == entries[i]);
        }
        lemma_top_named(d, side);
        let e = entries.last();
        if tree::on_side(e, side) {
            let l = tree::leaves(entries, side);
            assert(l.drop_last() =~= tree::leaves(d, side));
            assert(!text::begins(entries[entries.len() - 1].path, "/"@));
            if l.last().parts.len() > 1 && l.last().parts[0].len() == 0 {
                reveal_strlit("/");
                text::lemma_first(e.path, '/');
                assert(e.path.take(1) =~= "/"@);
            }
            assert forall|i: int| 0 <= i < tree::folders(l).len() implies (#[trigger] tree::folders(
                l,
            )[i]).len() > 0 by {
                if i < tree::folders(tree::leaves(d, side)).len() {
                    assert(tree::folders(l)[i] == tree::folders(tree::leaves(d, side))[i]);
                }
            }
        }
    }
}

/// A row of a folder sums up the files of the side that lie below its path, if no
/// path begins with a slash.
pub proof fn law_folders_count(
    entries: Seq<FileEntryView>,
    collapsed: Set<Seq<char>>,
    side: Side,
)
    requires
        forall|i: int| 0 <= i < entries.len() ==> !text::begins((#[trigger] entries[i]).path, "/"@),
    ensures
        forall|i: int|
            0 <= i < tree::side_rows(entries, collapsed, side).len() && (#[trigger] tree::side_rows(
                entries,
                collapsed,
                side,
            )[i]).is_dir ==> sums_up(
                tree::side_rows(entries, collapsed, side)[i],
                entries,
                side,
            ),
{
    let l = tree::leaves(entries, side);
    let names = tree::sorted(tree::folders(l), tree::by_name());
    lemma_top_clean(entries, side);
    lemma_folders_clean(l);
    lemma_top_named(entries, side);
    let p = |n: Seq<char>| !n.contains('/') && n.len() > 0;
    assert forall|i: int| 0 <= i < tree::folders(l).len() implies p(#[trigger] tree::folders(l)[i]) by {}
    tree::lemma_sorted_all(tree::folders(l), tree::by_name(), p);
    assert forall|i: int| 0 <= i < names.len() implies !(#[trigger] names[i]).contains('/')
        && names[i].len() > 0 by {
        assert(p(names[i]));
    }
    lemma_top_counted(entries, side, names, collapsed);
}

// Which files are shown

/// How often rows show the file at an index.
pub open spec fn times_shown(rows: Seq<RowView>, i: usize) -> nat
    decreases rows.len(),
{
    if rows.len() == 0 {
        0
    } else {
        times_shown(rows.drop_last(), i) + if rows.last().entry_index == Some(i) {
            1nat
        } else {
            0nat
        }
    }
}

spec fn times_in(l: Seq<Leaf>, i: usize) -> nat
    decreases l.len(),
{
    if l.len() == 0 {
        0
    } else {
        times_in(l.drop_last(), i) + if l.last().index == i {
            1nat
        } else {
            0nat
        }
    }
}

spec fn times_inside(l: Seq<Leaf>, names: Seq<Seq<char>>, i: usize) -> nat
    decreases names.len(),
{
    if names.len() == 0 {
        0
    } else {
        times_inside(l, names.drop_last(), i) + times_in(tree::inside(l, names.last()), i)
    }
}

proof fn lemma_times_both(a: Seq<RowView>, b: Seq<RowView>, i: usize)
    ensures
        times_shown(a + b, i) == times_shown(a, i) + times_shown(b, i),
    decreases b.len(),
{
    if b.len() == 0 {
        assert(a + b =~= a);
    } else {
        lemma_times_both(a, b.drop_last(), i);
        assert((a + b).drop_last() =~= a + b.drop_last());
    }
}

proof fn lemma_times_cons(l: Seq<Leaf>, i: usize)
    requires
        l.len() > 0,
    ensures
        times_in(l, i) == times_in(l.skip(1), i) + if l[0].index == i {
            1nat
        } else {
            0nat
        },
    decreases l.len(),
{
    if l.len() == 1 {
        assert(l.drop_last() =~= seq![]);
        assert(l.skip(1) =~= seq![]);
    } else {
        lemma_times_cons(l.drop_last(), i);
        assert(l.drop_last().skip(1) =~= l.skip(1).drop_last());
    }
}

proof fn lemma_times_put(x: Leaf, l: Seq<Leaf>, less: spec_fn(Leaf, Leaf) -> bool, i: usize)
    ensures
        times_in(tree::put(x, l, less), i) == times_in(l, i) + if x.index == i {
            1nat
        } else {
            0nat
        },
    decreases l.len(),
{
    let p = tree::put(x, l, less);
    if l.len() > 0 && less(l[0], x) {
        lemma_times_put(x, l.skip(1), less, i);
        assert(p.skip(1) =~= tree::put(x, l.skip(1), less));
        lemma_times_cons(p, i);
        lemma_times_cons(l, i);
    } else {
        assert(p.skip(1) =~= l);
        lemma_times_cons(p, i);
    }
}

proof fn lemma_times_sorted(l: Seq<Leaf>, less: spec_fn(Leaf, Leaf) -> bool, i: usize)
    ensures
        times_in(tree::sorted(l, less), i) == times_in(l, i),
    decreases l.len(),
{
    if l.len() > 0 {
        lemma_times_sorted(l.skip(1), less, i);
        lemma_times_put(l[0], tree::sorted(l.skip(1), less), less, i);
        lemma_times_cons(l, i);
    }
}

proof fn lemma_inside_cons(l: Seq<Leaf>, names: Seq<Seq<char>>, i: usize)
    requires
        names.len() > 0,
    ensures
        times_inside(l, names, i) == times_inside(l, names.skip(1), i) + times_in(
            tree::inside(l, names[0]),
            i,
        ),
    decreases names.len(),
{
    if names.len() == 1 {
        assert(names.drop_last() =~= seq![]);
        assert(names.skip(1) =~= seq![]);
    } else {
        lemma_inside_cons(l, names.drop_last(), i);
        assert(names.drop_last().skip(1) =~= names.skip(1).drop_last());
    }
}

proof fn lemma_inside_put(
    l: Seq<Leaf>,
    x: Seq<char>,
    names: Seq<Seq<char>>,
    less: spec_fn(Seq<char>, Seq<char>) -> bool,
    i: usize,
)
    ensures
        times_inside(l, tree::put(x, names, less), i) == times_inside(l, names, i) + times_in(
            tree::inside(l, x),
            i,
        ),
    decreases names.len(),
{
    let p = tree::put(x, names, less);
    if names.len() > 0 && less(names[0], x) {
        lemma_inside_put(l, x, names.skip(1), less, i);
        assert(p.skip(1) =~= tree::put(x, names.skip(1), less));
        lemma_inside_cons(l, p, i);
        lemma_inside_cons(l, names, i);
    } else {
        assert(p.skip(1) =~= names);
        lemma_inside_cons(l, p, i);
    }
}

proof fn lemma_inside_sorted(
    l: Seq<Leaf>,
    names: Seq<Seq<char>>,
    less: spec_fn(Seq<char>, Seq<char>) -> bool,
    i: usize,
)
    ensures
        times_inside(l, tree::sorted(names, less), i) == times_inside(l, names, i),
    decreases names.len(),
{
    if names.len() > 0 {
        lemma_inside_sorted(l, names.skip(1), less, i);
        lemma_inside_put(l, names[0], tree::sorted(names.skip(1), less), less, i);
        lemma_inside_cons(l, names, i);
    }
}

/// One more leaf counts once in its folder.
proof fn lemma_inside_grows(l: Seq<Leaf>, names: Seq<Seq<char>>, i: usize)
    requires
        l.len() > 0,
        names.no_duplicates(),
    ensures
        times_inside(l, names, i) == times_inside(l.drop_last(), names, i) + if l.last().index == i
            && l.last().parts.len() > 1 && names.contains(l.last().parts[0]) {
            1nat
        } else {
            0nat
        },
    decreases names.len(),
{
    if names.len() > 0 {
        let rest = names.drop_last();
        let name = names.last();
        let d = l.drop_last();
        let f = l.last();
        assert(rest.no_duplicates());
        lemma_inside_grows(l, rest, i);
        if f.parts.len() > 1 {
            if f.parts[0] == name {
                assert(tree::inside(l, name).drop_last() =~= tree::inside(d, name));
                assert(names[names.len() - 1] == name);
                if rest.contains(name) {
                    let k = choose|k: int| 0 <= k < rest.len() && rest[k] == name;
                    assert(names[k] == names[names.len() - 1]);
                }
            } else {
                if names.contains(f.parts[0]) {
                    let k = choose|k: int| 0 <= k < names.len() && names[k] == f.parts[0];
                    assert(rest[k] == f.parts[0]);
                }
                if rest.contains(f.parts[0]) {
                    let k = choose|k: int| 0 <= k < rest.len() && rest[k] == f.parts[0];
                    assert(names[k] == f.parts[0]);
                }
            }
        }
    }
}

/// Every leaf lies in one of the folders or in none.
proof fn lemma_leaves_parted(l: Seq<Leaf>, i: usize)
    ensures
        times_inside(l, tree::folders(l), i) + times_in(tree::direct(l), i) == times_in(l, i),
    decreases l.len(),
{
    if l.len() > 0 {
        let d = l.drop_last();
        let f = l.last();
        lemma_leaves_parted(d, i);
        tree::lemma_folders(d);
        tree::lemma_folders(l);
        let before = tree::folders(d);
        lemma_inside_grows(l, before, i);
        if f.parts.len() <= 1 {
            assert(tree::direct(l).drop_last() =~= tree::direct(d));
        } else if !before.contains(f.parts[0]) {
            let name = f.parts[0];
            let now = tree::folders(l);
            assert(now.drop_last() =~= before);
            assert(tree::inside(d, name).len() == 0);
            assert(times_in(tree::inside(d, name), i) == 0);
            assert(tree::inside(l, name).drop_last() =~= tree::inside(d, name));
            assert(tree::inside(l, name).last().index == f.index);
            assert(times_inside(l, now, i) == times_inside(l, before, i) + times_in(
                tree::inside(l, name),
                i,
            ));
        }
    }
}

proof fn lemma_files_shown(files: Seq<Leaf>, prefix: Seq<char>, level: nat, i: usize)
    ensures
        times_shown(
            Seq::new(files.len(), |k: int| tree::file_row(files[k], prefix, level)),
            i,
        ) == times_in(files, i),
    decreases files.len(),
{
    if files.len() > 0 {
        let d = files.drop_last();
        let rows = Seq::new(files.len(), |k: int| tree::file_row(files[k], prefix, level));
        lemma_files_shown(d, prefix, level, i);
        assert(rows.drop_last() =~= Seq::new(
            d.len(),
            |k: int| tree::file_row(d[k], prefix, level),
        ));
    }
}

proof fn lemma_content_shown(
    l: Seq<Leaf>,
    prefix: Seq<char>,
    level: nat,
    collapsed: Set<Seq<char>>,
    i: usize,
)
    ensures
        times_shown(tree::content_rows(l, prefix, level, collapsed), i) <= times_in(l, i),
        collapsed =~= Set::empty() ==> times_shown(
            tree::content_rows(l, prefix, level, collapsed),
            i,
        ) == times_in(l, i),
    decreases tree::weight(l), 1nat, 0nat,
{
    let names = tree::sorted(tree::folders(l), tree::by_name());
    let files = tree::sorted(tree::direct(l), tree::by_leaf_name());
    let upper = tree::folder_rows(l, names, prefix, level, collapsed);
    let lower = Seq::new(files.len(), |k: int| tree::file_row(files[k], prefix, level));
    lemma_folders_shown(l, names, prefix, level, collapsed, i);
    lemma_inside_sorted(l, tree::folders(l), tree::by_name(), i);
    lemma_leaves_parted(l, i);
    lemma_times_sorted(tree::direct(l), tree::by_leaf_name(), i);
    lemma_files_shown(files, prefix, level, i);
    lemma_times_both(upper, lower, i);
}

proof fn lemma_folders_shown(
    l: Seq<Leaf>,
    names: Seq<Seq<char>>,
    prefix: Seq<char>,
    level: nat,
    collapsed: Set<Seq<char>>,
    i: usize,
)
    ensures
        times_shown(tree::folder_rows(l, names, prefix, level, collapsed), i) <= times_inside(
            l,
            names,
            i,
        ),
        collapsed =~= Set::empty() ==> times_shown(
            tree::folder_rows(l, names, prefix, level, collapsed),
            i,
        ) == times_inside(l, names, i),
    decreases tree::weight(l), 0nat, names.len(),
{
    if names.len() > 0 {
        let name = names.last();
        let inner = tree::inside(l, name);
        lemma_folders_shown(l, names.drop_last(), prefix, level, collapsed, i);
        tree::lemma_inside_weight(l, name);
        let own = if inner.len() == 0 {
            seq![]
        } else {
            tree::one_folder_rows(inner, name, tree::under(prefix, name), level, collapsed)
        };
        if inner.len() > 0 {
            lemma_folder_shown(inner, name, tree::under(prefix, name), level, collapsed, i);
        }
        lemma_times_both(
            tree::folder_rows(l, names.drop_last(), prefix, level, collapsed),
            own,
            i,
        );
    }
}

proof fn lemma_folder_shown(
    l: Seq<Leaf>,
    name: Seq<char>,
    path: Seq<char>,
    level: nat,
    collapsed: Set<Seq<char>>,
    i: usize,
)
    ensures
        times_shown(tree::one_folder_rows(l, name, path, level, collapsed), i) <= times_in(l, i),
        collapsed =~= Set::empty() ==> times_shown(
            tree::one_folder_rows(l, name, path, level, collapsed),
            i,
        ) == times_in(l, i),
    decreases tree::weight(l), 2nat, 0nat,
{
    let rows = tree::one_folder_rows(l, name, path, level, collapsed);
    lemma_leaves_parted(l, i);
    if tree::folders(l).len() == 1 && tree::direct(l).len() == 0 && tree::inside(
        l,
        tree::folders(l)[0],
    ).len() > 0 {
        let only = tree::folders(l)[0];
        tree::lemma_inside_weight(l, only);
        lemma_folder_shown(
            tree::inside(l, only),
            name + "/"@ + only,
            tree::under(path, only),
            level,
            collapsed,
            i,
        );
        assert(tree::folders(l).drop_last() =~= seq![]);
        assert(times_inside(l, seq![], i) == 0);
        assert(tree::direct(l) =~= seq![]);
    } else {
        let row = rows[0];
        assert(row.entry_index is None);
        assert(times_shown(seq![row], i) == 0) by {
            assert(times_shown(seq![row].drop_last(), i) == 0);
            assert(seq![row].last() == row);
        }
        if !collapsed.contains(path) {
            lemma_content_shown(l, path, level + 1, collapsed, i);
            lemma_times_both(
                seq![row],
                tree::content_rows(l, path, level + 1, collapsed),
                i,
            );
        }
    }
}

proof fn lemma_times_leaves(entries: Seq<FileEntryView>, side: Side, i: usize)
    requires
        entries.len() <= usize::MAX,
    ensures
        times_in(tree::leaves(entries, side), i) == if i < entries.len() && tree::on_side(
            entries[i as int],
            side,
        ) {
            1nat
        } else {
            0nat
        },
    decreases entries.len(),
{
    if entries.len() > 0 {
        let d = entries.drop_last();
        lemma_times_leaves(d, side, i);
        if tree::on_side(entries.last(), side) {
            assert(tree::leaves(entries, side).drop_last() =~= tree::leaves(d, side));
        }
    }
}

/// With no folder collapsed every file of the side is shown exactly once, and no
/// other file is.
pub proof fn law_files_shown(entries: Seq<FileEntryView>, side: Side, i: usize)
    requires
        entries.len() <= usize::MAX,
    ensures
        times_shown(tree::side_rows(entries, Set::empty(), side), i) == if i < entries.len()
            && tree::on_side(entries[i as int], side) {
            1nat
        } else {
            0nat
        },
{
    lemma_content_shown(tree::leaves(entries, side), seq![], 0, Set::empty(), i);
    lemma_times_leaves(entries, side, i);
}

/// Whatever is collapsed, no file is shown twice on a side.
pub proof fn law_files_shown_once(
    entries: Seq<FileEntryView>,
    collapsed: Set<Seq<char>>,
    side: Side,
    i: usize,
)
    requires
        entries.len() <= usize::MAX,
    ensures
        times_shown(tree::side_rows(entries, collapsed, side), i) <= 1,
{
    lemma_content_shown(tree::leaves(entries, side), seq![], 0, collapsed, i);
    lemma_times_leaves(entries, side, i);
}

// In which order

proof fn lemma_precedes_not(a: Seq<char>)
    ensures
        !text::precedes(a, a),
    decreases a.len(),
{
    if a.len() > 0 {
        lemma_precedes_not(a.skip(1));
    }
}

/// The order of texts is strict and tells any two texts apart.
pub proof fn law_precedes(a: Seq<char>, b: Seq<char>, c: Seq<char>)
    ensures
        !text::precedes(a, a),
        text::precedes(a, b) && text::precedes(b, c) ==> text::precedes(a, c),
        a == b || text::precedes(a, b) || text::precedes(b, a),
    decreases a.len() + b.len() + c.len(),
{
    lemma_precedes_not(a);
    if a.len() > 0 && b.len() > 0 && c.len() > 0 {
        law_precedes(a.skip(1), b.skip(1), c.skip(1));
    } else if a.len() > 0 && b.len() > 0 {
        law_precedes(a.skip(1), b.skip(1), seq![]);
    }
    if a.len() == 0 && b.len() == 0 {
        assert(a =~= b);
    }
    if a.len() > 0 && b.len() > 0 && a[0] == b[0] && a.skip(1) == b.skip(1) {
        assert(a =~= seq![a[0]] + a.skip(1));
        assert(b =~= seq![b[0]] + b.skip(1));
    }
}

/// Whether no element of a list sorts before an earlier one.
pub open spec fn in_sequence<T>(list: Seq<T>, less: spec_fn(T, T) -> bool) -> bool {
    forall|i: int, j: int| 0 <= i < j < list.len() ==> !less(#[trigger] list[j], #[trigger] list[i])
}

/// Whether an order is strict, and incomparability is transitive.
pub open spec fn weak_order<T>(less: spec_fn(T, T) -> bool) -> bool {
    &&& forall|a: T| !#[trigger] less(a, a)
    &&& forall|a: T, b: T, c: T| #[trigger] less(a, b) && #[trigger] less(b, c) ==> less(a, c)
    &&& forall|a: T, b: T, c: T|
        !#[trigger] less(a, b) && !#[trigger] less(b, c) ==> !less(a, c)
}

proof fn lemma_put_in_sequence<T>(x: T, list: Seq<T>, less: spec_fn(T, T) -> bool)
    requires
        weak_order(less),
        in_sequence(list, less),
    ensures
        in_sequence(tree::put(x, list, less), less),
    decreases list.len(),
{
    let p = tree::put(x, list, less);
    if list.len() > 0 && less(list[0], x) {
        let t = list.skip(1);
        assert forall|i: int, j: int| 0 <= i < j < t.len() implies !less(
            #[trigger] t[j],
            #[trigger] t[i],
        ) by {
            assert(!less(list[j + 1], list[i + 1]));
        }
        lemma_put_in_sequence(x, t, less);
        let rest = tree::put(x, t, less);
        let q = |y: T| !less(y, list[0]);
        assert forall|k: int| 0 <= k < t.len() implies q(#[trigger] t[k]) by {
            assert(!less(list[k + 1], list[0]));
        }
        assert(q(x)) by {
            if less(x, list[0]) {
                assert(less(x, x));
            }
        }
        tree::lemma_put_all(x, t, less, q);
        assert forall|i: int, j: int| 0 <= i < j < p.len() implies !less(
            #[trigger] p[j],
            #[trigger] p[i],
        ) by {
            assert(p[j] == rest[j - 1]);
            if i > 0 {
                assert(p[i] == rest[i - 1]);
            } else {
                assert(q(rest[j - 1]));
            }
        }
    } else {
        assert forall|i: int, j: int| 0 <= i < j < p.len() implies !less(
            #[trigger] p[j],
            #[trigger] p[i],
        ) by {
            assert(p[j] == list[j - 1]);
            if i > 0 {
                assert(p[i] == list[i - 1]);
            } else if j > 1 {
                assert(!less(list[j - 1], list[0]));
            }
        }
    }
}

/// A sorted list is in sequence.
pub proof fn law_sorted<T>(list: Seq<T>, less: spec_fn(T, T) -> bool)
    requires
        weak_order(less),
    ensures
        in_sequence(tree::sorted(list, less), less),
    decreases list.len(),
{
    if list.len() > 0 {
        law_sorted(list.skip(1), less);
        lemma_put_in_sequence(list[0], tree::sorted(list.skip(1), less), less);
    }
}

/// The orders of names and of leaves are such that sorting puts them in sequence.
pub proof fn law_orders()
    ensures
        weak_order(tree::by_name()),
        weak_order(tree::by_leaf_name()),
{
    assert forall|a: Seq<char>, b: Seq<char>, c: Seq<char>|
        {
            &&& !tree::sorts_before(a, a)
            &&& #[trigger] tree::sorts_before(a, b) && #[trigger] tree::sorts_before(b, c)
                ==> tree::sorts_before(a, c)
            &&& !tree::sorts_before(a, b) && !tree::sorts_before(b, c) ==> !tree::sorts_before(
                a,
                c,
            )
        } by {
        let x = outside::lowercase(a);
        let y = outside::lowercase(b);
        let z = outside::lowercase(c);
        law_precedes(x, y, z);
        law_precedes(z, y, x);
        law_precedes(y, z, x);
        law_precedes(x, z, y);
        law_precedes(y, x, z);
    }
}

proof fn lemma_put_same<T>(x: T, list: Seq<T>, less: spec_fn(T, T) -> bool)
    ensures
        tree::put(x, list, less).to_multiset() =~= list.to_multiset().insert(x),
    decreases list.len(),
{
    broadcast use vstd::seq_lib::group_to_multiset_ensures;

    let one = seq![x];
    if list.len() > 0 && less(list[0], x) {
        let t = list.skip(1);
        let first = seq![list[0]];
        lemma_put_same(x, t, less);
        vstd::seq_lib::lemma_multiset_commutative(first, tree::put(x, t, less));
        vstd::seq_lib::lemma_multiset_commutative(first, t);
        assert(list =~= first + t);
    } else {
        vstd::seq_lib::lemma_multiset_commutative(one, list);
        assert(one =~= Seq::<T>::empty().push(x));
    }
}

/// A sorted list holds what the list held, each as often.
pub proof fn law_sorted_same<T>(list: Seq<T>, less: spec_fn(T, T) -> bool)
    ensures
        tree::sorted(list, less).to_multiset() =~= list.to_multiset(),
    decreases list.len(),
{
    broadcast use vstd::seq_lib::group_to_multiset_ensures;

    if list.len() > 0 {
        let t = list.skip(1);
        let first = seq![list[0]];
        law_sorted_same(t, less);
        lemma_put_same(list[0], tree::sorted(t, less), less);
        vstd::seq_lib::lemma_multiset_commutative(first, t);
        assert(list =~= first + t);
        assert(first =~= Seq::<T>::empty().push(list[0]));
    }
}

// What collapsing hides

/// Whether a row is that of a collapsed folder that another row lies below.
pub open spec fn hides(d: RowView, r: RowView, collapsed: Set<Seq<char>>) -> bool {
    d.is_dir && collapsed.contains(d.path) && text::begins(r.path, d.path + "/"@)
}

/// What becomes of a row among others when folders are collapsed.
pub open spec fn collapsing(rows: Seq<RowView>, collapsed: Set<Seq<char>>) -> spec_fn(
    RowView,
) -> Option<RowView> {
    |r: RowView|
        if exists|j: int| 0 <= j < rows.len() && hides(#[trigger] rows[j], r, collapsed) {
            None
        } else if r.is_dir && collapsed.contains(r.path) {
            Some(RowView { expanded: false, ..r })
        } else {
            Some(r)
        }
}

/// Whether `after` is what collapsing folders leaves of `before`.
spec fn collapses_to(before: Seq<RowView>, collapsed: Set<Seq<char>>, after: Seq<RowView>) -> bool {
    after == git::kept(before, collapsing(before, collapsed))
}

proof fn lemma_kept_add<S, T>(a: Seq<S>, b: Seq<S>, read: spec_fn(S) -> Option<T>)
    ensures
        git::kept(a + b, read) == git::kept(a, read) + git::kept(b, read),
    decreases b.len(),
{
    if b.len() == 0 {
        assert(a + b =~= a);
        assert(git::kept(a, read) + git::kept(b, read) =~= git::kept(a, read));
    } else {
        lemma_kept_add(a, b.drop_last(), read);
        assert((a + b).drop_last() =~= a + b.drop_last());
        assert((a + b).last() == b.last());
        assert(git::kept(a + b, read) =~= git::kept(a, read) + git::kept(b, read));
    }
}

proof fn lemma_kept_alike<S, T>(
    list: Seq<S>,
    f: spec_fn(S) -> Option<T>,
    g: spec_fn(S) -> Option<T>,
)
    requires
        forall|i: int| 0 <= i < list.len() ==> f(#[trigger] list[i]) == g(list[i]),
    ensures
        git::kept(list, f) == git::kept(list, g),
    decreases list.len(),
{
    if list.len() > 0 {
        let d = list.drop_last();
        assert forall|i: int| 0 <= i < d.len() implies f(#[trigger] d[i]) == g(d[i]) by {
            assert(d[i] == list[i]);
        }
        lemma_kept_alike(d, f, g);
        assert(f(list[list.len() - 1]) == g(list[list.len() - 1]));
    }
}

proof fn lemma_kept_none<S, T>(list: Seq<S>, f: spec_fn(S) -> Option<T>)
    requires
        forall|i: int| 0 <= i < list.len() ==> f(#[trigger] list[i]) is None,
    ensures
        git::kept(list, f) == Seq::<T>::empty(),
    decreases list.len(),
{
    if list.len() > 0 {
        let d = list.drop_last();
        assert forall|i: int| 0 <= i < d.len() implies f(#[trigger] d[i]) is None by {
            assert(d[i] == list[i]);
        }
        lemma_kept_none(d, f);
        assert(f(list[list.len() - 1]) is None);
    }
}

proof fn lemma_kept_all<S>(list: Seq<S>, f: spec_fn(S) -> Option<S>)
    requires
        forall|i: int| 0 <= i < list.len() ==> f(#[trigger] list[i]) == Some(list[i]),
    ensures
        git::kept(list, f) == list,
    decreases list.len(),
{
    if list.len() > 0 {
        let d = list.drop_last();
        assert forall|i: int| 0 <= i < d.len() implies f(#[trigger] d[i]) == Some(d[i]) by {
            assert(d[i] == list[i]);
        }
        lemma_kept_all(d, f);
        assert(f(list[list.len() - 1]) == Some(list[list.len() - 1]));
        assert(d.push(list.last()) =~= list);
    }
}

/// Whether the folders of neither list hold rows of the other.
spec fn apart(a: Seq<RowView>, b: Seq<RowView>) -> bool {
    forall|i: int, j: int|
        #![trigger a[i], b[j]]
        0 <= i < a.len() && 0 <= j < b.len() ==> {
            &&& b[j].is_dir ==> !text::begins(a[i].path, b[j].path + "/"@)
            &&& a[i].is_dir ==> !text::begins(b[j].path, a[i].path + "/"@)
        }
}

/// Lists that are apart are collapsed apart.
proof fn lemma_collapsed_apart(
    a: Seq<RowView>,
    b: Seq<RowView>,
    collapsed: Set<Seq<char>>,
    x: Seq<RowView>,
    y: Seq<RowView>,
)
    requires
        apart(a, b),
        collapses_to(a, collapsed, x),
        collapses_to(b, collapsed, y),
    ensures
        collapses_to(a + b, collapsed, x + y),
{
    let all = collapsing(a + b, collapsed);
    lemma_kept_add(a, b, all);
    assert forall|i: int| 0 <= i < a.len() implies all(#[trigger] a[i]) == collapsing(
        a,
        collapsed,
    )(a[i]) by {
        if exists|j: int| 0 <= j < (a + b).len() && hides(#[trigger] (a + b)[j], a[i], collapsed) {
            let j = choose|j: int|
                0 <= j < (a + b).len() && hides(#[trigger] (a + b)[j], a[i], collapsed);
            if j >= a.len() {
                assert((a + b)[j] == b[j - a.len()]);
            } else {
                assert((a + b)[j] == a[j]);
            }
        }
        if exists|j: int| 0 <= j < a.len() && hides(#[trigger] a[j], a[i], collapsed) {
            let j = choose|j: int| 0 <= j < a.len() && hides(#[trigger] a[j], a[i], collapsed);
            assert((a + b)[j] == a[j]);
        }
    }
    assert forall|i: int| 0 <= i < b.len() implies all(#[trigger] b[i]) == collapsing(
        b,
        collapsed,
    )(b[i]) by {
        if exists|j: int| 0 <= j < (a + b).len() && hides(#[trigger] (a + b)[j], b[i], collapsed) {
            let j = choose|j: int|
                0 <= j < (a + b).len() && hides(#[trigger] (a + b)[j], b[i], collapsed);
            if j < a.len() {
                assert((a + b)[j] == a[j]);
            } else {
                assert((a + b)[j] == b[j - a.len()]);
            }
        }
        if exists|j: int| 0 <= j < b.len() && hides(#[trigger] b[j], b[i], collapsed) {
            let j = choose|j: int| 0 <= j < b.len() && hides(#[trigger] b[j], b[i], collapsed);
            assert((a + b)[a.len() + j] == b[j]);
        }
    }
    lemma_kept_alike(a, all, collapsing(a, collapsed));
    lemma_kept_alike(b, all, collapsing(b, collapsed));
}

/// Whether a path is another or lies below it.
spec fn lies_in(s: Seq<char>, p: Seq<char>) -> bool {
    s == p || text::begins(s, p + "/"@)
}

proof fn lemma_begins_both(s: Seq<char>, p: Seq<char>, q: Seq<char>)
    requires
        text::begins(s, p),
        text::begins(p, q),
    ensures
        text::begins(s, q),
{
    assert(s.take(q.len() as int) =~= s.take(p.len() as int).take(q.len() as int));
}

/// What lies below something in a folder lies below the folder.
proof fn lemma_lies_deeper(s: Seq<char>, q: Seq<char>, p: Seq<char>)
    requires
        lies_in(q, p),
        lies_in(s, q),
    ensures
        lies_in(s, p),
        s != q || q != p ==> text::begins(s, p + "/"@),
{
    reveal_strlit("/");
    if s != q && q != p {
        assert((q + "/"@).take((p + "/"@).len() as int) =~= q.take((p + "/"@).len() as int));
        lemma_begins_both(s, q + "/"@, p + "/"@);
    }
}

proof fn lemma_under_below(prefix: Seq<char>, name: Seq<char>)
    requires
        prefix.len() > 0,
    ensures
        text::begins(tree::under(prefix, name), prefix + "/"@),
{
    assert(tree::under(prefix, name).take((prefix + "/"@).len() as int) =~= prefix + "/"@);
}

/// What begins with the path of something in a folder has its name behind that of
/// the folder.
proof fn lemma_under_skip(s: Seq<char>, prefix: Seq<char>, name: Seq<char>, tail: Seq<char>)
    requires
        text::begins(s, tree::under(prefix, name) + tail),
    ensures
        ({
            let n = tree::under(prefix, seq![]).len() as int;
            &&& n <= s.len()
            &&& text::begins(s.skip(n), name + tail)
        }),
{
    let before = tree::under(prefix, seq![]);
    let n = before.len() as int;
    let all = tree::under(prefix, name) + tail;
    assert(all =~= before + (name + tail));
    assert(s.skip(n).take((name + tail).len() as int) =~= s.take(all.len() as int).skip(n));
    assert(all.skip(n) =~= name + tail);
}

/// A path lies in one folder of a folder at most.
proof fn lemma_siblings(s: Seq<char>, prefix: Seq<char>, a: Seq<char>, b: Seq<char>)
    requires
        !a.contains('/'),
        !b.contains('/'),
        lies_in(s, tree::under(prefix, a)),
        lies_in(s, tree::under(prefix, b)),
    ensures
        a == b,
{
    reveal_strlit("/");
    let t = s + "/"@;
    let n = tree::under(prefix, seq![]).len() as int;
    let x = tree::under(prefix, a) + "/"@;
    let y = tree::under(prefix, b) + "/"@;
    assert(text::begins(t, x)) by {
        if s == tree::under(prefix, a) {
            assert(t.take(x.len() as int) =~= x);
        } else {
            assert(t.take(x.len() as int) =~= s.take(x.len() as int));
        }
    }
    assert(text::begins(t, y)) by {
        if s == tree::under(prefix, b) {
            assert(t.take(y.len() as int) =~= y);
        } else {
            assert(t.take(y.len() as int) =~= s.take(y.len() as int));
        }
    }
    lemma_under_skip(t, prefix, a, "/"@);
    lemma_under_skip(t, prefix, b, "/"@);
    lemma_first_part(t.skip(n), a);
    lemma_first_part(t.skip(n), b);
}

/// A file of a folder lies in none of its folders.
proof fn lemma_file_outside(prefix: Seq<char>, file: Seq<char>, name: Seq<char>, d: Seq<char>)
    requires
        !file.contains('/'),
        lies_in(d, tree::under(prefix, name)),
    ensures
        !text::begins(tree::under(prefix, file), d + "/"@),
{
    reveal_strlit("/");
    let s = tree::under(prefix, file);
    if text::begins(s, d + "/"@) {
        assert(s != d);
        lemma_lies_deeper(s, d, tree::under(prefix, name));
        lemma_under_skip(s, prefix, name, "/"@);
        let n = tree::under(prefix, seq![]).len() as int;
        assert(s.skip(n) =~= file);
        assert(file.take((name + "/"@).len() as int)[name.len() as int] == '/');
        assert(file[name.len() as int] == '/');
    }
}

spec fn all_below(rows: Seq<RowView>, p: Seq<char>) -> bool {
    forall|i: int| 0 <= i < rows.len() ==> text::begins((#[trigger] rows[i]).path, p + "/"@)
}

spec fn all_in(rows: Seq<RowView>, p: Seq<char>) -> bool {
    forall|i: int| 0 <= i < rows.len() ==> lies_in((#[trigger] rows[i]).path, p)
}

/// Whether each row lies in one of the folders with the given names.
spec fn all_named(rows: Seq<RowView>, prefix: Seq<char>, names: Seq<Seq<char>>) -> bool {
    forall|i: int|
        0 <= i < rows.len() ==> exists|k: int|
            0 <= k < names.len() && lies_in(
                (#[trigger] rows[i]).path,
                tree::under(prefix, #[trigger] names[k]),
            )
}

proof fn lemma_content_below(l: Seq<Leaf>, path: Seq<char>, level: nat, collapsed: Set<Seq<char>>)
    requires
        path.len() > 0,
    ensures
        all_below(tree::content_rows(l, path, level, collapsed), path),
    decreases tree::weight(l), 1nat, 0nat,
{
    let names = tree::sorted(tree::folders(l), tree::by_name());
    let files = tree::sorted(tree::direct(l), tree::by_leaf_name());
    let front = tree::folder_rows(l, names, path, level, collapsed);
    let rows = tree::content_rows(l, path, level, collapsed);
    lemma_folders_named(l, names, path, level, collapsed);
    assert forall|i: int| 0 <= i < rows.len() implies text::begins(
        (#[trigger] rows[i]).path,
        path + "/"@,
    ) by {
        if i < front.len() {
            assert(rows[i] == front[i]);
            let k = choose|k: int|
                0 <= k < names.len() && lies_in(front[i].path, tree::under(path, #[trigger] names[k]));
            lemma_under_below(path, names[k]);
            lemma_lies_deeper(front[i].path, tree::under(path, names[k]), path);
        } else {
            lemma_under_below(path, files[i - front.len()].parts[0]);
        }
    }
}

proof fn lemma_folders_named(
    l: Seq<Leaf>,
    names: Seq<Seq<char>>,
    prefix: Seq<char>,
    level: nat,
    collapsed: Set<Seq<char>>,
)
    requires
        forall|i: int| 0 <= i < names.len() ==> prefix.len() > 0 || (#[trigger] names[i]).len() > 0,
    ensures
        all_named(tree::folder_rows(l, names, prefix, level, collapsed), prefix, names),
    decreases tree::weight(l), 0nat, names.len(),
{
    if names.len() > 0 {
        let name = names.last();
        let fewer = names.drop_last();
        let front = tree::folder_rows(l, fewer, prefix, level, collapsed);
        let rows = tree::folder_rows(l, names, prefix, level, collapsed);
        assert forall|i: int| 0 <= i < fewer.len() implies prefix.len() > 0 || (
        #[trigger] fewer[i]).len() > 0 by {
            assert(fewer[i] == names[i]);
        }
        lemma_folders_named(l, fewer, prefix, level, collapsed);
        tree::lemma_inside_weight(l, name);
        assert(name == names[names.len() - 1]);
        if tree::inside(l, name).len() > 0 {
            lemma_folder_in(
                tree::inside(l, name),
                name,
                tree::under(prefix, name),
                level,
                collapsed,
            );
        }
        assert forall|i: int| 0 <= i < rows.len() implies exists|k: int|
            0 <= k < names.len() && lies_in(
                (#[trigger] rows[i]).path,
                tree::under(prefix, #[trigger] names[k]),
            ) by {
            if i < front.len() {
                assert(rows[i] == front[i]);
                let k = choose|k: int|
                    0 <= k < fewer.len() && lies_in(
                        front[i].path,
                        tree::under(prefix, #[trigger] fewer[k]),
                    );
                assert(names[k] == fewer[k]);
            } else {
                let own = tree::one_folder_rows(
                    tree::inside(l, name),
                    name,
                    tree::under(prefix, name),
                    level,
                    collapsed,
                );
                assert(rows[i] == own[i - front.len()]);
                assert(lies_in(rows[i].path, tree::under(prefix, names[names.len() - 1])));
            }
        }
    }
}

proof fn lemma_folder_in(
    l: Seq<Leaf>,
    name: Seq<char>,
    path: Seq<char>,
    level: nat,
    collapsed: Set<Seq<char>>,
)
    requires
        path.len() > 0,
    ensures
        all_in(tree::one_folder_rows(l, name, path, level, collapsed), path),
    decreases tree::weight(l), 2nat, 0nat,
{
    let rows = tree::one_folder_rows(l, name, path, level, collapsed);
    if tree::folders(l).len() == 1 && tree::direct(l).len() == 0 && tree::inside(
        l,
        tree::folders(l)[0],
    ).len() > 0 {
        let only = tree::folders(l)[0];
        let inner = tree::under(path, only);
        tree::lemma_inside_weight(l, only);
        lemma_folder_in(tree::inside(l, only), name + "/"@ + only, inner, level, collapsed);
        lemma_under_below(path, only);
        assert forall|i: int| 0 <= i < rows.len() implies lies_in((#[trigger] rows[i]).path, path) by {
            lemma_lies_deeper(rows[i].path, inner, path);
        }
    } else {
        let content = tree::content_rows(l, path, level + 1, collapsed);
        lemma_content_below(l, path, level + 1, collapsed);
        assert forall|i: int| 0 <= i < rows.len() implies lies_in((#[trigger] rows[i]).path, path) by {
            if i > 0 {
                assert(rows[i] == content[i - 1]);
            }
        }
    }
}

spec fn with_parts(l: Seq<Leaf>) -> bool {
    forall|i: int| 0 <= i < l.len() ==> (#[trigger] l[i]).parts.len() > 0
}

proof fn lemma_top_parts(entries: Seq<FileEntryView>, side: Side)
    ensures
        with_parts(tree::leaves(entries, side)),
    decreases entries.len(),
{
    if entries.len() > 0 {
        lemma_top_parts(entries.drop_last(), side);
        text::law_join_parts(entries.last().path, '/');
    }
}

proof fn lemma_inside_clean(l: Seq<Leaf>, name: Seq<char>)
    requires
        no_slash(l),
    ensures
        no_slash(tree::inside(l, name)),
        with_parts(tree::inside(l, name)),
    decreases l.len(),
{
    if l.len() > 0 {
        let d = l.drop_last();
        assert forall|i: int, k: int| 0 <= i < d.len() && 0 <= k < d[i].parts.len() implies !(
        #[trigger] d[i].parts[k]).contains('/') by {
            assert(d[i] == l[i]);
            assert(!l[i].parts[k].contains('/'));
        }
        lemma_inside_clean(d, name);
        let before = tree::inside(d, name);
        let after = tree::inside(l, name);
        assert forall|i: int, k: int| 0 <= i < after.len() && 0 <= k < after[i].parts.len() implies !(
        #[trigger] after[i].parts[k]).contains('/') by {
            if i < before.len() {
                assert(after[i] == before[i]);
                assert(!before[i].parts[k].contains('/'));
            } else {
                assert(!l[l.len() - 1].parts[k + 1].contains('/'));
            }
        }
    }
}

proof fn lemma_direct_clean(l: Seq<Leaf>)
    requires
        no_slash(l),
        with_parts(l),
    ensures
        forall|i: int|
            0 <= i < tree::direct(l).len() ==> !(#[trigger] tree::direct(l)[i]).parts[0].contains('/'),
    decreases l.len(),
{
    if l.len() > 0 {
        let d = l.drop_last();
        assert forall|i: int, k: int| 0 <= i < d.len() && 0 <= k < d[i].parts.len() implies !(
        #[trigger] d[i].parts[k]).contains('/') by {
            assert(d[i] == l[i]);
            assert(!l[i].parts[k].contains('/'));
        }
        assert forall|i: int| 0 <= i < d.len() implies (#[trigger] d[i]).parts.len() > 0 by {
            assert(d[i] == l[i]);
        }
        lemma_direct_clean(d);
        let before = tree::direct(d);
        let after = tree::direct(l);
        assert forall|i: int| 0 <= i < after.len() implies !(
        #[trigger] after[i]).parts[0].contains('/') by {
            if i < before.len() {
                assert(after[i] == before[i]);
            } else {
                assert(l[l.len() - 1].parts.len() > 0);
                assert(!l[l.len() - 1].parts[0].contains('/'));
            }
        }
    }
}

proof fn lemma_sorted_folders(l: Seq<Leaf>)
    requires
        no_slash(l),
    ensures
        tree::sorted(tree::folders(l), tree::by_name()).no_duplicates(),
        forall|i: int|
            0 <= i < tree::folders(l).len() ==> !(#[trigger] tree::sorted(
                tree::folders(l),
                tree::by_name(),
            )[i]).contains('/'),
{
    let list = tree::folders(l);
    let names = tree::sorted(list, tree::by_name());
    tree::lemma_folders(l);
    law_sorted_same(list, tree::by_name());
    list.lemma_multiset_has_no_duplicates();
    names.lemma_multiset_has_no_duplicates_conv();
    lemma_folders_clean(l);
    tree::lemma_sorted_all(list, tree::by_name(), |n: Seq<char>| !n.contains('/'));
}

proof fn lemma_content_collapsed(
    l: Seq<Leaf>,
    prefix: Seq<char>,
    level: nat,
    collapsed: Set<Seq<char>>,
)
    requires
        no_slash(l),
        with_parts(l),
        forall|i: int|
            0 <= i < tree::folders(l).len() ==> prefix.len() > 0 || (#[trigger] tree::folders(
                l,
            )[i]).len() > 0,
    ensures
        collapses_to(
            tree::content_rows(l, prefix, level, Set::empty()),
            collapsed,
            tree::content_rows(l, prefix, level, collapsed),
        ),
    decreases tree::weight(l), 1nat, 0nat,
{
    let names = tree::sorted(tree::folders(l), tree::by_name());
    let files = tree::sorted(tree::direct(l), tree::by_leaf_name());
    let file_rows = Seq::new(files.len(), |i: int| tree::file_row(files[i], prefix, level));
    let front = tree::folder_rows(l, names, prefix, level, Set::empty());
    lemma_sorted_folders(l);
    tree::lemma_sorted_all(
        tree::folders(l),
        tree::by_name(),
        |n: Seq<char>| prefix.len() > 0 || n.len() > 0,
    );
    lemma_folders_collapsed(l, names, prefix, level, collapsed);
    lemma_folders_named(l, names, prefix, level, Set::empty());
    lemma_direct_clean(l);
    tree::lemma_sorted_all(
        tree::direct(l),
        tree::by_leaf_name(),
        |f: Leaf| !f.parts[0].contains('/'),
    );
    assert(apart(front, file_rows)) by {
        assert forall|i: int, j: int|
            #![trigger front[i], file_rows[j]]
            0 <= i < front.len() && 0 <= j < file_rows.len() implies !text::begins(
            file_rows[j].path,
            front[i].path + "/"@,
        ) by {
            let k = choose|k: int|
                0 <= k < names.len() && lies_in(
                    front[i].path,
                    tree::under(prefix, #[trigger] names[k]),
                );
            lemma_file_outside(prefix, files[j].parts[0], names[k], front[i].path);
        }
    }
    lemma_kept_all(file_rows, collapsing(file_rows, collapsed));
    lemma_collapsed_apart(
        front,
        file_rows,
        collapsed,
        tree::folder_rows(l, names, prefix, level, collapsed),
        file_rows,
    );
}

proof fn lemma_folders_collapsed(
    l: Seq<Leaf>,
    names: Seq<Seq<char>>,
    prefix: Seq<char>,
    level: nat,
    collapsed: Set<Seq<char>>,
)
    requires
        no_slash(l),
        names.no_duplicates(),
        forall|i: int| 0 <= i < names.len() ==> !(#[trigger] names[i]).contains('/'),
        forall|i: int| 0 <= i < names.len() ==> prefix.len() > 0 || (#[trigger] names[i]).len() > 0,
    ensures
        collapses_to(
            tree::folder_rows(l, names, prefix, level, Set::empty()),
            collapsed,
            tree::folder_rows(l, names, prefix, level, collapsed),
        ),
    decreases tree::weight(l), 0nat, names.len(),
{
    if names.len() > 0 {
        let name = names.last();
        let fewer = names.drop_last();
        let inner = tree::inside(l, name);
        let path = tree::under(prefix, name);
        let front = tree::folder_rows(l, fewer, prefix, level, Set::empty());
        assert(name == names[names.len() - 1]);
        assert forall|i: int| 0 <= i < fewer.len() implies !(#[trigger] fewer[i]).contains('/') && (
        prefix.len() > 0 || fewer[i].len() > 0) by {
            assert(fewer[i] == names[i]);
        }
        lemma_folders_collapsed(l, fewer, prefix, level, collapsed);
        lemma_folders_named(l, fewer, prefix, level, Set::empty());
        tree::lemma_inside_weight(l, name);
        if inner.len() > 0 {
            let own = tree::one_folder_rows(inner, name, path, level, Set::empty());
            lemma_inside_clean(l, name);
            lemma_folder_collapsed(inner, name, path, level, collapsed);
            lemma_folder_in(inner, name, path, level, Set::empty());
            assert(apart(front, own)) by {
                assert forall|i: int, j: int|
                    #![trigger front[i], own[j]]
                    0 <= i < front.len() && 0 <= j < own.len() implies !text::begins(
                    front[i].path,
                    own[j].path + "/"@,
                ) && !text::begins(own[j].path, front[i].path + "/"@) by {
                    let k = choose|k: int|
                        0 <= k < fewer.len() && lies_in(
                            front[i].path,
                            tree::under(prefix, #[trigger] fewer[k]),
                        );
                    let other = tree::under(prefix, fewer[k]);
                    assert(fewer[k] == names[k]);
                    assert(lies_in(own[j].path, path));
                    if text::begins(front[i].path, own[j].path + "/"@) {
                        lemma_lies_deeper(front[i].path, own[j].path, path);
                        lemma_siblings(front[i].path, prefix, fewer[k], name);
                    }
                    if text::begins(own[j].path, front[i].path + "/"@) {
                        lemma_lies_deeper(own[j].path, front[i].path, other);
                        lemma_siblings(own[j].path, prefix, fewer[k], name);
                    }
                }
            }
            lemma_collapsed_apart(
                front,
                own,
                collapsed,
                tree::folder_rows(l, fewer, prefix, level, collapsed),
                tree::one_folder_rows(inner, name, path, level, collapsed),
            );
        } else {
            assert(tree::folder_rows(l, names, prefix, level, Set::empty()) =~= front);
            assert(tree::folder_rows(l, names, prefix, level, collapsed) =~= tree::folder_rows(
                l,
                fewer,
                prefix,
                level,
                collapsed,
            ));
        }
    }
}

proof fn lemma_folder_collapsed(
    l: Seq<Leaf>,
    name: Seq<char>,
    path: Seq<char>,
    level: nat,
    collapsed: Set<Seq<char>>,
)
    requires
        no_slash(l),
        with_parts(l),
        path.len() > 0,
    ensures
        collapses_to(
            tree::one_folder_rows(l, name, path, level, Set::empty()),
            collapsed,
            tree::one_folder_rows(l, name, path, level, collapsed),
        ),
    decreases tree::weight(l), 2nat, 0nat,
{
    let before = tree::one_folder_rows(l, name, path, level, Set::empty());
    if tree::folders(l).len() == 1 && tree::direct(l).len() == 0 && tree::inside(
        l,
        tree::folders(l)[0],
    ).len() > 0 {
        let only = tree::folders(l)[0];
        tree::lemma_inside_weight(l, only);
        lemma_inside_clean(l, only);
        lemma_folder_collapsed(
            tree::inside(l, only),
            name + "/"@ + only,
            tree::under(path, only),
            level,
            collapsed,
        );
    } else {
        let content = tree::content_rows(l, path, level + 1, Set::empty());
        let row = before[0];
        let f = collapsing(before, collapsed);
        reveal_strlit("/");
        assert(before =~= seq![row] + content);
        lemma_content_below(l, path, level + 1, Set::empty());
        lemma_folder_in(l, name, path, level, Set::empty());
        assert forall|j: int| 0 <= j < before.len() implies !hides(
            #[trigger] before[j],
            row,
            collapsed,
        ) by {
            assert(lies_in(before[j].path, path));
        }
        lemma_kept_add(seq![row], content, f);
        assert(git::kept(seq![row], f) =~= seq![f(row)->0]) by {
            assert(f(row) is Some);
            assert(seq![row].last() == row);
            assert(git::kept(seq![row].drop_last(), f) =~= Seq::<RowView>::empty());
        }
        if collapsed.contains(path) {
            assert forall|i: int| 0 <= i < content.len() implies f(#[trigger] content[i]) is None by {
                assert(hides(before[0], content[i], collapsed));
            }
            lemma_kept_none(content, f);
        } else {
            let g = collapsing(content, collapsed);
            lemma_content_collapsed(l, path, level + 1, collapsed);
            assert forall|i: int| 0 <= i < content.len() implies f(#[trigger] content[i]) == g(
                content[i],
            ) by {
                if exists|j: int|
                    0 <= j < before.len() && hides(#[trigger] before[j], content[i], collapsed) {
                    let j = choose|j: int|
                        0 <= j < before.len() && hides(
                            #[trigger] before[j],
                            content[i],
                            collapsed,
                        );
                    assert(before[j] == content[j - 1]);
                }
                if exists|j: int|
                    0 <= j < content.len() && hides(#[trigger] content[j], content[i], collapsed) {
                    let j = choose|j: int|
                        0 <= j < content.len() && hides(
                            #[trigger] content[j],
                            content[i],
                            collapsed,
                        );
                    assert(before[j + 1] == content[j]);
                }
            }
            lemma_kept_alike(content, f, g);
        }
        assert(tree::one_folder_rows(l, name, path, level, collapsed) =~= git::kept(before, f));
    }
}

/// Collapsing folders hides the rows below them and shows them as not expanded;
/// every other row stays as it is and where it is, if no path begins with a slash.
pub proof fn law_collapsing(
    entries: Seq<FileEntryView>,
    collapsed: Set<Seq<char>>,
    side: Side,
)
    requires
        forall|i: int| 0 <= i < entries.len() ==> !text::begins((#[trigger] entries[i]).path, "/"@),
    ensures
        tree::side_rows(entries, collapsed, side) == git::kept(
            tree::side_rows(entries, Set::empty(), side),
            collapsing(tree::side_rows(entries, Set::empty(), side), collapsed),
        ),
{
    lemma_top_clean(entries, side);
    lemma_top_parts(entries, side);
    lemma_top_named(entries, side);
    lemma_content_collapsed(tree::leaves(entries, side), seq![], 0, collapsed);
}

// Where rows stand

/// Whether a row is that of the folder around another: the last one before it that
/// is a level up. Its path, with the name of the other, makes the path of the other.
pub open spec fn encloses(rows: Seq<RowView>, j: int, i: int) -> bool {
    &&& 0 <= j < i < rows.len()
    &&& rows[j].is_dir
    &&& rows[j].expanded
    &&& rows[j].level + 1 == rows[i].level
    &&& forall|k: int| j < k < i ==> (#[trigger] rows[k]).level > rows[j].level
    &&& rows[i].path == tree::under(rows[j].path, rows[i].name)
}

proof fn lemma_encloses_front(a: Seq<RowView>, b: Seq<RowView>, j: int, i: int)
    requires
        encloses(a, j, i),
    ensures
        encloses(a + b, j, i),
{
    let all = a + b;
    assert forall|k: int| j < k < i implies (#[trigger] all[k]).level > all[j].level by {
        assert(all[k] == a[k]);
    }
}

proof fn lemma_encloses_back(a: Seq<RowView>, b: Seq<RowView>, j: int, i: int)
    requires
        encloses(b, j, i),
    ensures
        encloses(a + b, j + a.len(), i + a.len()),
{
    let all = a + b;
    let n = a.len() as int;
    assert(all[j + n] == b[j]);
    assert(all[i + n] == b[i]);
    assert forall|k: int| j + n < k < i + n implies (#[trigger] all[k]).level > all[j
        + n].level by {
        assert(all[k] == b[k - n]);
    }
}

/// Whether a row of a list is placed.
spec fn place_of(rows: Seq<RowView>, prefix: Seq<char>, level: nat, i: int) -> bool {
    &&& rows[i].level >= level
    &&& rows[i].level == level ==> rows[i].path == tree::under(prefix, rows[i].name)
    &&& rows[i].level > level ==> exists|j: int| encloses(rows, j, i)
}

spec fn placed(rows: Seq<RowView>, prefix: Seq<char>, level: nat) -> bool {
    forall|i: int| 0 <= i < rows.len() ==> #[trigger] place_of(rows, prefix, level, i)
}

proof fn lemma_placed_add(a: Seq<RowView>, b: Seq<RowView>, prefix: Seq<char>, level: nat)
    requires
        placed(a, prefix, level),
        placed(b, prefix, level),
    ensures
        placed(a + b, prefix, level),
{
    let all = a + b;
    let n = a.len() as int;
    assert forall|i: int| 0 <= i < all.len() implies #[trigger] place_of(
        all,
        prefix,
        level,
        i,
    ) by {
        if i < n {
            assert(place_of(a, prefix, level, i));
            assert(all[i] == a[i]);
            if a[i].level > level {
                let j = choose|j: int| encloses(a, j, i);
                lemma_encloses_front(a, b, j, i);
            }
        } else {
            let h = i - n;
            assert(place_of(b, prefix, level, h));
            assert(all[i] == b[h]);
            if b[h].level > level {
                let j = choose|j: int| encloses(b, j, h);
                lemma_encloses_back(a, b, j, h);
                assert(encloses(all, j + n, i));
            }
        }
    }
}

proof fn lemma_content_placed(l: Seq<Leaf>, prefix: Seq<char>, level: nat, collapsed: Set<Seq<char>>)
    requires
        forall|i: int|
            0 <= i < tree::folders(l).len() ==> prefix.len() > 0 || (#[trigger] tree::folders(
                l,
            )[i]).len() > 0,
    ensures
        placed(tree::content_rows(l, prefix, level, collapsed), prefix, level),
    decreases tree::weight(l), 1nat, 0nat,
{
    let names = tree::sorted(tree::folders(l), tree::by_name());
    let files = tree::sorted(tree::direct(l), tree::by_leaf_name());
    let file_rows = Seq::new(files.len(), |i: int| tree::file_row(files[i], prefix, level));
    tree::lemma_sorted_all(
        tree::folders(l),
        tree::by_name(),
        |n: Seq<char>| prefix.len() > 0 || n.len() > 0,
    );
    lemma_folders_placed(l, names, prefix, level, collapsed);
    assert forall|i: int| 0 <= i < file_rows.len() implies #[trigger] place_of(
        file_rows,
        prefix,
        level,
        i,
    ) by {
        assert(file_rows[i] == tree::file_row(files[i], prefix, level));
    }
    lemma_placed_add(
        tree::folder_rows(l, names, prefix, level, collapsed),
        file_rows,
        prefix,
        level,
    );
}

proof fn lemma_folders_placed(
    l: Seq<Leaf>,
    names: Seq<Seq<char>>,
    prefix: Seq<char>,
    level: nat,
    collapsed: Set<Seq<char>>,
)
    requires
        forall|i: int| 0 <= i < names.len() ==> prefix.len() > 0 || (#[trigger] names[i]).len() > 0,
    ensures
        placed(tree::folder_rows(l, names, prefix, level, collapsed), prefix, level),
    decreases tree::weight(l), 0nat, names.len(),
{
    if names.len() > 0 {
        let name = names.last();
        let fewer = names.drop_last();
        let front = tree::folder_rows(l, fewer, prefix, level, collapsed);
        assert forall|i: int| 0 <= i < fewer.len() implies prefix.len() > 0 || (
        #[trigger] fewer[i]).len() > 0 by {
            assert(fewer[i] == names[i]);
        }
        assert(name == names[names.len() - 1]);
        lemma_folders_placed(l, fewer, prefix, level, collapsed);
        tree::lemma_inside_weight(l, name);
        if tree::inside(l, name).len() > 0 {
            let path = tree::under(prefix, name);
            let own = tree::one_folder_rows(tree::inside(l, name), name, path, level, collapsed);
            lemma_folder_placed(tree::inside(l, name), name, path, prefix, level, collapsed);
            lemma_placed_add(front, own, prefix, level);
        } else {
            assert(tree::folder_rows(l, names, prefix, level, collapsed) =~= front);
        }
    }
}

proof fn lemma_folder_placed(
    l: Seq<Leaf>,
    name: Seq<char>,
    path: Seq<char>,
    prefix: Seq<char>,
    level: nat,
    collapsed: Set<Seq<char>>,
)
    requires
        path.len() > 0,
        path == tree::under(prefix, name),
    ensures
        placed(tree::one_folder_rows(l, name, path, level, collapsed), prefix, level),
    decreases tree::weight(l), 2nat, 0nat,
{
    let rows = tree::one_folder_rows(l, name, path, level, collapsed);
    if tree::folders(l).len() == 1 && tree::direct(l).len() == 0 && tree::inside(
        l,
        tree::folders(l)[0],
    ).len() > 0 {
        let only = tree::folders(l)[0];
        tree::lemma_inside_weight(l, only);
        assert(tree::under(path, only) =~= tree::under(prefix, name + "/"@ + only));
        lemma_folder_placed(
            tree::inside(l, only),
            name + "/"@ + only,
            tree::under(path, only),
            prefix,
            level,
            collapsed,
        );
    } else if !collapsed.contains(path) {
        let content = tree::content_rows(l, path, level + 1, collapsed);
        let row = rows[0];
        lemma_content_placed(l, path, level + 1, collapsed);
        assert(rows =~= seq![row] + content);
        assert forall|i: int| 0 <= i < rows.len() implies #[trigger] place_of(
            rows,
            prefix,
            level,
            i,
        ) by {
            if i > 0 {
                let h = i - 1;
                assert(place_of(content, path, level + 1, h));
                assert(rows[i] == content[h]);
                if content[h].level == level + 1 {
                    assert forall|k: int| 0 < k < i implies (#[trigger] rows[k]).level
                        > rows[0].level by {
                        assert(place_of(content, path, level + 1, k - 1));
                        assert(rows[k] == content[k - 1]);
                    }
                    assert(encloses(rows, 0, i));
                } else {
                    let j = choose|j: int| encloses(content, j, h);
                    lemma_encloses_back(seq![row], content, j, h);
                    assert(encloses(rows, j + 1, i));
                }
            }
        }
    } else {
        assert forall|i: int| 0 <= i < rows.len() implies #[trigger] place_of(
            rows,
            prefix,
            level,
            i,
        ) by {
            assert(rows.len() == 1);
        }
    }
}

/// A row at the top has its name for its path. Every other row stands below that of
/// the folder around it, and its path is that of the folder and its name, if no
/// path begins with a slash.
pub proof fn law_rows_placed(
    entries: Seq<FileEntryView>,
    collapsed: Set<Seq<char>>,
    side: Side,
    i: int,
)
    requires
        forall|k: int| 0 <= k < entries.len() ==> !text::begins((#[trigger] entries[k]).path, "/"@),
        0 <= i < tree::side_rows(entries, collapsed, side).len(),
    ensures
        ({
            let rows = tree::side_rows(entries, collapsed, side);
            if rows[i].level == 0 {
                rows[i].path == rows[i].name
            } else {
                exists|j: int| encloses(rows, j, i)
            }
        }),
{
    lemma_top_named(entries, side);
    lemma_content_placed(tree::leaves(entries, side), seq![], 0, collapsed);
    assert(place_of(tree::side_rows(entries, collapsed, side), seq![], 0, i));
}

// The order of rows

/// Whether two rows have the same folder around them.
pub open spec fn siblings(rows: Seq<RowView>, i: int, j: int) -> bool {
    &&& 0 <= i < j < rows.len()
    &&& rows[i].level == rows[j].level
    &&& forall|k: int| i < k < j ==> (#[trigger] rows[k]).level >= rows[i].level
}

/// Whether a row may come behind another with the same folder around it: folders
/// come before files, and each are sorted by name, letter case aside. Of a folder
/// that shares its row with others the name of the first counts.
pub open spec fn may_follow(a: RowView, b: RowView) -> bool {
    &&& a.is_dir || !b.is_dir
    &&& a.is_dir == b.is_dir ==> !tree::sorts_before(head(b.name), head(a.name))
}

spec fn ordered(rows: Seq<RowView>) -> bool {
    forall|i: int, j: int| #[trigger] siblings(rows, i, j) ==> may_follow(rows[i], rows[j])
}

spec fn not_above(rows: Seq<RowView>, level: nat) -> bool {
    forall|i: int| 0 <= i < rows.len() ==> (#[trigger] rows[i]).level >= level
}

/// Whether the rows at a level are those of folders with the given names.
spec fn headed(rows: Seq<RowView>, names: Seq<Seq<char>>, level: nat) -> bool {
    forall|i: int|
        0 <= i < rows.len() && (#[trigger] rows[i]).level == level ==> rows[i].is_dir
            && names.contains(head(rows[i].name))
}

proof fn lemma_ordered_add(a: Seq<RowView>, b: Seq<RowView>, level: nat)
    requires
        ordered(a),
        ordered(b),
        not_above(a, level),
        not_above(b, level),
        b.len() > 0 ==> b[0].level == level,
        forall|i: int, j: int|
            #![trigger a[i], b[j]]
            0 <= i < a.len() && 0 <= j < b.len() && a[i].level == level && b[j].level == level
                ==> may_follow(a[i], b[j]),
    ensures
        ordered(a + b),
        not_above(a + b, level),
{
    let all = a + b;
    let n = a.len() as int;
    assert forall|i: int, j: int| #[trigger] siblings(all, i, j) implies may_follow(
        all[i],
        all[j],
    ) by {
        if j < n {
            assert forall|k: int| i < k < j implies (#[trigger] a[k]).level >= a[i].level by {
                assert(all[k] == a[k]);
            }
            assert(siblings(a, i, j));
        } else if i >= n {
            assert forall|k: int| i - n < k < j - n implies (#[trigger] b[k]).level >= b[i
                - n].level by {
                assert(all[k + n] == b[k]);
            }
            assert(siblings(b, i - n, j - n));
        } else {
            assert(all[i] == a[i]);
            assert(all[j] == b[j - n]);
            assert(all[n] == b[0]);
            assert(a[i].level >= level);
            assert(b[j - n].level == level);
        }
    }
    assert forall|i: int| 0 <= i < all.len() implies (#[trigger] all[i]).level >= level by {
        if i < n {
            assert(all[i] == a[i]);
        } else {
            assert(all[i] == b[i - n]);
        }
    }
}

proof fn lemma_content_ordered(
    l: Seq<Leaf>,
    prefix: Seq<char>,
    level: nat,
    collapsed: Set<Seq<char>>,
)
    requires
        no_slash(l),
        with_parts(l),
    ensures
        ordered(tree::content_rows(l, prefix, level, collapsed)),
        not_above(tree::content_rows(l, prefix, level, collapsed), level),
    decreases tree::weight(l), 1nat, 0nat,
{
    let names = tree::sorted(tree::folders(l), tree::by_name());
    let files = tree::sorted(tree::direct(l), tree::by_leaf_name());
    let file_rows = Seq::new(files.len(), |i: int| tree::file_row(files[i], prefix, level));
    let front = tree::folder_rows(l, names, prefix, level, collapsed);
    lemma_sorted_folders(l);
    law_orders();
    law_sorted(tree::folders(l), tree::by_name());
    law_sorted(tree::direct(l), tree::by_leaf_name());
    lemma_folders_clean(l);
    tree::lemma_sorted_all(tree::folders(l), tree::by_name(), |n: Seq<char>| !n.contains('/'));
    lemma_folders_ordered(l, names, prefix, level, collapsed);
    lemma_direct_clean(l);
    let p = |f: Leaf| !f.parts[0].contains('/');
    tree::lemma_sorted_all(tree::direct(l), tree::by_leaf_name(), p);
    assert forall|i: int, j: int| #[trigger] siblings(file_rows, i, j) implies may_follow(
        file_rows[i],
        file_rows[j],
    ) by {
        assert(p(files[i]) && p(files[j]));
        lemma_head(files[i].parts[0], seq![]);
        lemma_head(files[j].parts[0], seq![]);
        assert(!(tree::by_leaf_name())(files[j], files[i]));
    }
    lemma_ordered_add(front, file_rows, level);
}

proof fn lemma_folders_ordered(
    l: Seq<Leaf>,
    names: Seq<Seq<char>>,
    prefix: Seq<char>,
    level: nat,
    collapsed: Set<Seq<char>>,
)
    requires
        no_slash(l),
        in_sequence(names, tree::by_name()),
        forall|i: int| 0 <= i < names.len() ==> !(#[trigger] names[i]).contains('/'),
    ensures
        ordered(tree::folder_rows(l, names, prefix, level, collapsed)),
        not_above(tree::folder_rows(l, names, prefix, level, collapsed), level),
        headed(tree::folder_rows(l, names, prefix, level, collapsed), names, level),
    decreases tree::weight(l), 0nat, names.len(),
{
    if names.len() > 0 {
        let name = names.last();
        let fewer = names.drop_last();
        let inner = tree::inside(l, name);
        let front = tree::folder_rows(l, fewer, prefix, level, collapsed);
        let rows = tree::folder_rows(l, names, prefix, level, collapsed);
        assert(name == names[names.len() - 1]);
        assert forall|i: int| 0 <= i < fewer.len() implies !(#[trigger] fewer[i]).contains('/') by {
            assert(fewer[i] == names[i]);
        }
        assert forall|i: int, j: int| 0 <= i < j < fewer.len() implies !(tree::by_name())(
            #[trigger] fewer[j],
            #[trigger] fewer[i],
        ) by {
            assert(fewer[i] == names[i] && fewer[j] == names[j]);
        }
        lemma_folders_ordered(l, fewer, prefix, level, collapsed);
        tree::lemma_inside_weight(l, name);
        if inner.len() > 0 {
            let own = tree::one_folder_rows(
                inner,
                name,
                tree::under(prefix, name),
                level,
                collapsed,
            );
            lemma_inside_clean(l, name);
            lemma_head(name, seq![]);
            lemma_folder_ordered(
                inner,
                name,
                tree::under(prefix, name),
                level,
                collapsed,
                name,
            );
            assert forall|i: int, j: int|
                #![trigger front[i], own[j]]
                0 <= i < front.len() && 0 <= j < own.len() && front[i].level == level
                    && own[j].level == level implies may_follow(front[i], own[j]) by {
                assert(fewer.contains(head(front[i].name)));
                let k = choose|k: int| 0 <= k < fewer.len() && fewer[k] == head(front[i].name);
                assert(names[k] == fewer[k]);
                assert(!(tree::by_name())(names[names.len() - 1], names[k]));
            }
            lemma_ordered_add(front, own, level);
            assert forall|i: int| 0 <= i < rows.len() && (
            #[trigger] rows[i]).level == level implies rows[i].is_dir && names.contains(
                head(rows[i].name),
            ) by {
                if i < front.len() {
                    assert(rows[i] == front[i]);
                    let k = choose|k: int| 0 <= k < fewer.len() && fewer[k] == head(front[i].name);
                    assert(names[k] == fewer[k]);
                } else {
                    assert(rows[i] == own[i - front.len()]);
                    assert(names[names.len() - 1] == name);
                }
            }
        } else {
            assert(rows =~= front);
            assert forall|i: int| 0 <= i < rows.len() && (
            #[trigger] rows[i]).level == level implies rows[i].is_dir && names.contains(
                head(rows[i].name),
            ) by {
                let k = choose|k: int| 0 <= k < fewer.len() && fewer[k] == head(front[i].name);
                assert(names[k] == fewer[k]);
            }
        }
    }
}

proof fn lemma_folder_ordered(
    l: Seq<Leaf>,
    name: Seq<char>,
    path: Seq<char>,
    level: nat,
    collapsed: Set<Seq<char>>,
    first: Seq<char>,
)
    requires
        no_slash(l),
        with_parts(l),
        !first.contains('/'),
        name == first || exists|tail: Seq<char>| name == #[trigger] (first + "/"@ + tail),
    ensures
        ({
            let rows = tree::one_folder_rows(l, name, path, level, collapsed);
            &&& ordered(rows)
            &&& rows.len() > 0
            &&& rows[0].level == level
            &&& rows[0].is_dir
            &&& head(rows[0].name) == first
            &&& forall|i: int| 0 < i < rows.len() ==> (#[trigger] rows[i]).level > level
        }),
    decreases tree::weight(l), 2nat, 0nat,
{
    let rows = tree::one_folder_rows(l, name, path, level, collapsed);
    if tree::folders(l).len() == 1 && tree::direct(l).len() == 0 && tree::inside(
        l,
        tree::folders(l)[0],
    ).len() > 0 {
        let only = tree::folders(l)[0];
        let longer = name + "/"@ + only;
        tree::lemma_inside_weight(l, only);
        lemma_inside_clean(l, only);
        if name == first {
            assert(longer == first + "/"@ + only);
        } else {
            let tail = choose|tail: Seq<char>| name == #[trigger] (first + "/"@ + tail);
            assert(longer =~= first + "/"@ + (tail + "/"@ + only));
        }
        lemma_folder_ordered(
            tree::inside(l, only),
            longer,
            tree::under(path, only),
            level,
            collapsed,
            first,
        );
    } else {
        if name == first {
            lemma_head(first, seq![]);
        } else {
            let tail = choose|tail: Seq<char>| name == #[trigger] (first + "/"@ + tail);
            lemma_head(first, tail);
        }
        if collapsed.contains(path) {
            assert(rows.len() == 1);
        } else {
            let content = tree::content_rows(l, path, level + 1, collapsed);
            lemma_content_ordered(l, path, level + 1, collapsed);
            assert forall|i: int| 0 < i < rows.len() implies (#[trigger] rows[i]).level > level by {
                assert(rows[i] == content[i - 1]);
            }
            assert forall|i: int, j: int| #[trigger] siblings(rows, i, j) implies may_follow(
                rows[i],
                rows[j],
            ) by {
                assert(rows[j] == content[j - 1]);
                assert(rows[j].level > level);
                assert(i > 0);
                assert(rows[i] == content[i - 1]);
                assert forall|k: int| i - 1 < k < j - 1 implies (#[trigger] content[k]).level
                    >= content[i - 1].level by {
                    assert(rows[k + 1] == content[k]);
                }
                assert(siblings(content, i - 1, j - 1));
            }
        }
    }
}

/// Rows with the same folder around them are in order: folders before files, and
/// each sorted by name, letter case aside.
pub proof fn law_rows_ordered(
    entries: Seq<FileEntryView>,
    collapsed: Set<Seq<char>>,
    side: Side,
    i: int,
    j: int,
)
    requires
        siblings(tree::side_rows(entries, collapsed, side), i, j),
    ensures
        may_follow(
            tree::side_rows(entries, collapsed, side)[i],
            tree::side_rows(entries, collapsed, side)[j],
        ),
{
    lemma_top_clean(entries, side);
    lemma_top_parts(entries, side);
    lemma_content_ordered(tree::leaves(entries, side), seq![], 0, collapsed);
}

// Folders and files told apart

/// Whether no two rows stand for one folder, and no file has a name with a slash.
spec fn singly(rows: Seq<RowView>) -> bool {
    &&& forall|i: int, j: int|
        0 <= i < j < rows.len() && (#[trigger] rows[i]).is_dir && (#[trigger] rows[j]).is_dir
            ==> rows[i].path != rows[j].path
    &&& forall|i: int|
        0 <= i < rows.len() && !(#[trigger] rows[i]).is_dir ==> !rows[i].name.contains('/')
}

proof fn lemma_content_single(
    l: Seq<Leaf>,
    prefix: Seq<char>,
    level: nat,
    collapsed: Set<Seq<char>>,
)
    requires
        no_slash(l),
        with_parts(l),
        forall|i: int|
            0 <= i < tree::folders(l).len() ==> prefix.len() > 0 || (#[trigger] tree::folders(
                l,
            )[i]).len() > 0,
    ensures
        singly(tree::content_rows(l, prefix, level, collapsed)),
    decreases tree::weight(l), 1nat, 0nat,
{
    let names = tree::sorted(tree::folders(l), tree::by_name());
    let files = tree::sorted(tree::direct(l), tree::by_leaf_name());
    let file_rows = Seq::new(files.len(), |i: int| tree::file_row(files[i], prefix, level));
    let front = tree::folder_rows(l, names, prefix, level, collapsed);
    let rows = tree::content_rows(l, prefix, level, collapsed);
    lemma_sorted_folders(l);
    tree::lemma_sorted_all(
        tree::folders(l),
        tree::by_name(),
        |n: Seq<char>| prefix.len() > 0 || n.len() > 0,
    );
    lemma_folders_single(l, names, prefix, level, collapsed);
    lemma_direct_clean(l);
    tree::lemma_sorted_all(
        tree::direct(l),
        tree::by_leaf_name(),
        |f: Leaf| !f.parts[0].contains('/'),
    );
    assert(rows =~= front + file_rows);
    assert forall|i: int| 0 <= i < rows.len() && !(#[trigger] rows[i]).is_dir implies !rows[i].name.contains(
        '/',
    ) by {
        if i < front.len() {
            assert(rows[i] == front[i]);
        } else {
            let k = i - front.len();
            assert(rows[i] == file_rows[k]);
            assert(!files[k].parts[0].contains('/'));
        }
    }
    assert forall|i: int, j: int|
        0 <= i < j < rows.len() && (#[trigger] rows[i]).is_dir && (#[trigger] rows[j]).is_dir implies rows[i].path
        != rows[j].path by {
        if j >= front.len() {
            assert(rows[j] == file_rows[j - front.len()]);
        } else {
            assert(rows[i] == front[i] && rows[j] == front[j]);
        }
    }
}

proof fn lemma_folders_single(
    l: Seq<Leaf>,
    names: Seq<Seq<char>>,
    prefix: Seq<char>,
    level: nat,
    collapsed: Set<Seq<char>>,
)
    requires
        no_slash(l),
        names.no_duplicates(),
        forall|i: int| 0 <= i < names.len() ==> !(#[trigger] names[i]).contains('/'),
        forall|i: int| 0 <= i < names.len() ==> prefix.len() > 0 || (#[trigger] names[i]).len() > 0,
    ensures
        singly(tree::folder_rows(l, names, prefix, level, collapsed)),
    decreases tree::weight(l), 0nat, names.len(),
{
    if names.len() > 0 {
        let name = names.last();
        let fewer = names.drop_last();
        let inner = tree::inside(l, name);
        let path = tree::under(prefix, name);
        let front = tree::folder_rows(l, fewer, prefix, level, collapsed);
        let rows = tree::folder_rows(l, names, prefix, level, collapsed);
        assert(name == names[names.len() - 1]);
        assert forall|i: int| 0 <= i < fewer.len() implies !(#[trigger] fewer[i]).contains('/') && (
        prefix.len() > 0 || fewer[i].len() > 0) by {
            assert(fewer[i] == names[i]);
        }
        lemma_folders_single(l, fewer, prefix, level, collapsed);
        lemma_folders_named(l, fewer, prefix, level, collapsed);
        tree::lemma_inside_weight(l, name);
        if inner.len() > 0 {
            let own = tree::one_folder_rows(inner, name, path, level, collapsed);
            lemma_inside_clean(l, name);
            lemma_folder_single(inner, name, path, level, collapsed);
            lemma_folder_in(inner, name, path, level, collapsed);
            assert(rows =~= front + own);
            assert forall|i: int| 0 <= i < rows.len() && !(#[trigger] rows[i]).is_dir implies !rows[i].name.contains(
                '/',
            ) by {
                if i < front.len() {
                    assert(rows[i] == front[i]);
                } else {
                    assert(rows[i] == own[i - front.len()]);
                }
            }
            assert forall|i: int, j: int|
                0 <= i < j < rows.len() && (#[trigger] rows[i]).is_dir && (
                #[trigger] rows[j]).is_dir implies rows[i].path != rows[j].path by {
                if j < front.len() {
                    assert(rows[i] == front[i] && rows[j] == front[j]);
                } else if i >= front.len() {
                    assert(rows[i] == own[i - front.len()] && rows[j] == own[j - front.len()]);
                } else {
                    assert(rows[i] == front[i] && rows[j] == own[j - front.len()]);
                    let k = choose|k: int|
                        0 <= k < fewer.len() && lies_in(
                            front[i].path,
                            tree::under(prefix, #[trigger] fewer[k]),
                        );
                    assert(fewer[k] == names[k]);
                    if rows[i].path == rows[j].path {
                        lemma_siblings(rows[i].path, prefix, fewer[k], name);
                    }
                }
            }
        } else {
            assert(rows =~= front);
        }
    }
}

proof fn lemma_folder_single(
    l: Seq<Leaf>,
    name: Seq<char>,
    path: Seq<char>,
    level: nat,
    collapsed: Set<Seq<char>>,
)
    requires
        no_slash(l),
        with_parts(l),
        path.len() > 0,
    ensures
        singly(tree::one_folder_rows(l, name, path, level, collapsed)),
    decreases tree::weight(l), 2nat, 0nat,
{
    let rows = tree::one_folder_rows(l, name, path, level, collapsed);
    if tree::folders(l).len() == 1 && tree::direct(l).len() == 0 && tree::inside(
        l,
        tree::folders(l)[0],
    ).len() > 0 {
        let only = tree::folders(l)[0];
        tree::lemma_inside_weight(l, only);
        lemma_inside_clean(l, only);
        lemma_folder_single(
            tree::inside(l, only),
            name + "/"@ + only,
            tree::under(path, only),
            level,
            collapsed,
        );
    } else if !collapsed.contains(path) {
        let content = tree::content_rows(l, path, level + 1, collapsed);
        lemma_content_single(l, path, level + 1, collapsed);
        lemma_content_below(l, path, level + 1, collapsed);
        reveal_strlit("/");
        assert forall|i: int| 0 <= i < rows.len() && !(#[trigger] rows[i]).is_dir implies !rows[i].name.contains(
            '/',
        ) by {
            assert(rows[i] == content[i - 1]);
        }
        assert forall|i: int, j: int|
            0 <= i < j < rows.len() && (#[trigger] rows[i]).is_dir && (
            #[trigger] rows[j]).is_dir implies rows[i].path != rows[j].path by {
            assert(rows[j] == content[j - 1]);
            if i > 0 {
                assert(rows[i] == content[i - 1]);
            } else {
                assert(text::begins(rows[j].path, path + "/"@));
            }
        }
    }
}

/// No two rows stand for one folder. The name of a file is the last part of its path: it holds
/// no slash, so that a file in a folder never stands at the top.
pub proof fn law_rows_distinct(
    entries: Seq<FileEntryView>,
    collapsed: Set<Seq<char>>,
    side: Side,
    i: int,
    j: int,
)
    requires
        forall|k: int| 0 <= k < entries.len() ==> !text::begins((#[trigger] entries[k]).path, "/"@),
        0 <= i < tree::side_rows(entries, collapsed, side).len(),
        0 <= j < tree::side_rows(entries, collapsed, side).len(),
    ensures
        ({
            let rows = tree::side_rows(entries, collapsed, side);
            &&& rows[i].is_dir && rows[j].is_dir && rows[i].path == rows[j].path ==> i == j
            &&& !rows[i].is_dir ==> !rows[i].name.contains('/')
            &&& !rows[i].is_dir && rows[i].path.contains('/') ==> rows[i].level > 0
        }),
{
    lemma_top_clean(entries, side);
    lemma_top_parts(entries, side);
    lemma_top_named(entries, side);
    lemma_content_single(tree::leaves(entries, side), seq![], 0, collapsed);
    law_rows_placed(entries, collapsed, side, i);
}

} // verus!
