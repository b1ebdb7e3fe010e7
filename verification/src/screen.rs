//! What can be read on the screen.

use crate::app::{
    AppView, BranchFocus, Focus, LogFocus, ModalView, PushDialogView, StashFocus, Tab,
};
use crate::git::{FileEntryView, Stage, StorageMode};
use crate::model;
use crate::sides;
use crate::text;
use crate::tree::{self, RowView, Side};
use crate::ui::{self, Color, DrawView, Places, SpanView, WidgetView};
use vstd::prelude::*;

verus! {

// ---------------------------------------------------------------------------
// Lines

/// What a line says.
pub open spec fn words(line: Seq<SpanView>) -> Seq<char>
    decreases line.len(),
{
    if line.len() == 0 {
        seq![]
    } else {
        words(line.drop_last()) + line.last().text
    }
}

proof fn lemma_words_add(a: Seq<SpanView>, b: Seq<SpanView>)
    ensures
        words(a + b) == words(a) + words(b),
    decreases b.len(),
{
    if b.len() == 0 {
        assert(a + b =~= a);
        assert(words(a + b) =~= words(a) + words(b));
    } else {
        assert((a + b).drop_last() =~= a + b.drop_last());
        lemma_words_add(a, b.drop_last());
        assert(words(a + b) =~= words(a) + words(b));
    }
}

/// A text that is too long is cut and ends in an ellipsis; another one is left as it is.
pub proof fn law_cut(s: Seq<char>, n: nat)
    ensures
        s.len() <= n ==> ui::cut(s, n) == s,
        s.len() > n && n > 0 ==> {
            &&& ui::cut(s, n).len() == n
            &&& ui::cut(s, n).last() == '…'
            &&& forall|k: int| 0 <= k < n - 1 ==> ui::cut(s, n)[k] == s[k]
        },
{
    reveal_strlit("…");
}

/// Two blanks for each level.
pub proof fn law_indent(level: nat)
    ensures
        ui::indent(level).len() == 2 * level,
        forall|k: int| 0 <= k < 2 * level ==> ui::indent(level)[k] == ' ',
    decreases level,
{
    reveal_strlit("  ");
    if level > 0 {
        law_indent((level - 1) as nat);
    }
}

// ---------------------------------------------------------------------------
// Rows

/// The letter and the colour of a row: a conflict, then what is only untracked, then what was
/// added or deleted. Green is all that is in the index alone, yellow what is in the index and
/// elsewhere.
pub proof fn law_mark(r: RowView)
    ensures
        ({
            let (letter, color) = ui::mark(r);
            let apart = r.agg.conflict > 0 || r.agg.untracked > 0 && r.agg.staged == 0
                && r.agg.unstaged == 0;
            let elsewhere = r.agg.unstaged > 0 || r.agg.untracked > 0;
            &&& letter == 'U' <==> r.agg.conflict > 0
            &&& letter == '?' <==> r.agg.conflict == 0 && r.agg.untracked > 0 && r.agg.staged == 0
                && r.agg.unstaged == 0
            &&& letter == 'A' <==> !apart && !r.is_dir && r.agg.added > 0
            &&& letter == 'D' <==> !apart && !r.is_dir && r.agg.added == 0 && r.agg.deleted > 0
            &&& letter == 'U' || letter == '?' || letter == 'A' || letter == 'D' || letter == 'M'
            &&& color == Color::Green <==> r.agg.conflict == 0 && !elsewhere
            &&& color == Color::Yellow <==> r.agg.conflict == 0 && elsewhere && r.agg.staged > 0
            &&& color == Color::Green || color == Color::Yellow || color == Color::Red
        }),
{
}

/// The row of a staged file is green and has the letter of its stage in the index; the row of
/// an unstaged file is red and has the letter of its stage in the working tree, unless it is in
/// conflict or untracked.
pub proof fn law_file_mark(
    entries: Seq<FileEntryView>,
    collapsed: Set<Seq<char>>,
    side: Side,
    k: int,
)
    requires
        entries.len() <= usize::MAX,
        0 <= k < tree::side_rows(entries, collapsed, side).len(),
        tree::side_rows(entries, collapsed, side)[k].entry_index is Some,
        !tree::side_rows(entries, collapsed, side)[k].is_dir,
    ensures
        ({
            let r = tree::side_rows(entries, collapsed, side)[k];
            let e = entries[r.entry_index->0 as int];
            let (letter, color) = ui::mark(r);
            match side {
                Side::Staged => {
                    &&& color == Color::Green
                    &&& e.index == Stage::Added ==> letter == 'A'
                    &&& e.index == Stage::Deleted ==> letter == 'D'
                    &&& e.index != Stage::Added && e.index != Stage::Deleted ==> letter == 'M'
                },
                Side::Unstaged => {
                    &&& color == Color::Red
                    &&& e.index == Stage::Conflicted ==> letter == 'U'
                    &&& e.index == Stage::Untracked ==> letter == '?'
                    &&& e.index != Stage::Conflicted && e.index != Stage::Untracked ==> {
                        &&& e.worktree == Stage::Added ==> letter == 'A'
                        &&& e.worktree == Stage::Deleted ==> letter == 'D'
                        &&& e.worktree != Stage::Added && e.worktree != Stage::Deleted ==> letter
                            == 'M'
                    }
                },
            }
        }),
{
    sides::law_file_counted(entries, collapsed, side, k);
}

/// What a row says: its mark, a warning where the content of a large file stands in place of
/// its pointer, the place in the tree and the name; of a folder whether it is unfolded, and of
/// a file where its content is kept.
#[verifier::rlimit(40)]
pub proof fn law_row_text(r: RowView, e: Option<FileEntryView>)
    ensures
        ({
            let warning = if r.lfs_pointer_warn {
                '!'
            } else {
                ' '
            };
            let start = seq![ui::mark(r).0, warning] + " "@ + ui::indent(r.level);
            let shown = words(ui::row_spans(r, e));
            &&& r.is_dir && r.expanded ==> shown == start + "v "@ + r.name + "/"@
            &&& r.is_dir && !r.expanded ==> shown == start + "> "@ + r.name + "/"@
            &&& !r.is_dir ==> shown == start + "  "@ + r.name + " "@ + words(ui::badge(r, e))
        }),
{
    reveal_with_fuel(words, 9);
    let all = ui::row_spans(r, e);
    let warning = if r.lfs_pointer_warn {
        '!'
    } else {
        ' '
    };
    let start = seq![ui::mark(r).0, warning] + " "@ + ui::indent(r.level);
    if r.is_dir {
        if r.expanded {
            assert(words(all) =~= start + "v "@ + r.name + "/"@);
        } else {
            assert(words(all) =~= start + "> "@ + r.name + "/"@);
        }
    } else {
        let b = ui::badge(r, e);
        let own = all.take(7);
        assert(all =~= own + b);
        lemma_words_add(own, b);
        assert(words(own) =~= start + "  "@ + r.name + " "@);
    }
}

/// The name of a storage.
pub open spec fn storage(m: StorageMode) -> Seq<char> {
    match m {
        StorageMode::Lfs => "LFS"@,
        StorageMode::Git => "git"@,
    }
}

/// Where the content of a file is kept, and where it was kept if that changes; where neither
/// is known, where the attributes would have it.
pub proof fn law_badge_text(r: RowView, e: FileEntryView)
    ensures
        ({
            let shown = words(ui::badge(r, Some(e)));
            let meant = if r.lfs_tracked {
                "LFS"@
            } else {
                "git"@
            };
            match (e.prev_storage, e.next_storage) {
                (Some(a), Some(b)) => {
                    &&& a == b ==> shown == "["@ + storage(a) + "]"@
                    &&& a != b ==> shown == "["@ + storage(a) + " → "@ + storage(b) + "]"@
                },
                (None, Some(b)) => shown == "["@ + "+ "@ + storage(b) + "]"@,
                (Some(a), None) => {
                    &&& e.index == Stage::Deleted ==> shown == "["@ + "− "@ + storage(a) + "]"@
                    &&& e.index != Stage::Deleted ==> shown == "["@ + storage(a) + "]"@
                },
                (None, None) => {
                    &&& e.index == Stage::Untracked ==> shown == "["@ + "+ "@ + meant + "]"@
                    &&& e.index != Stage::Untracked ==> shown == "["@ + meant + "]"@
                },
            }
        }),
        words(ui::badge(r, None)) == "["@ + (if r.lfs_tracked {
            "LFS"@
        } else {
            "git"@
        }) + "]"@,
{
    lemma_badge(r, Some(e));
    lemma_badge(r, None);
    let inside = ui::badge_inside(r, e);
    let arrow = ui::bold_in(Color::White);
    let meant = if r.lfs_tracked {
        "LFS"@
    } else {
        "git"@
    };
    let own = ui::storage_name(ui::storage_for(r.lfs_tracked));
    lemma_one(own);
    match (e.prev_storage, e.next_storage) {
        (Some(a), Some(b)) => {
            if a == b {
                lemma_one(ui::storage_name(a));
            } else {
                lemma_three(ui::storage_name(a), ui::styled(" → "@, arrow), ui::storage_name(b));
                lemma_around(storage(a) + " → "@, storage(b));
                assert("["@ + (storage(a) + " → "@) =~= "["@ + storage(a) + " → "@);
            }
        },
        (None, Some(b)) => {
            lemma_two(ui::styled("+ "@, arrow), ui::storage_name(b));
            lemma_around("+ "@, storage(b));
        },
        (Some(a), None) => {
            if e.index == Stage::Deleted {
                lemma_two(ui::styled("− "@, arrow), ui::storage_name(a));
                lemma_around("− "@, storage(a));
            } else {
                lemma_one(ui::storage_name(a));
            }
        },
        (None, None) => {
            if e.index == Stage::Untracked {
                lemma_two(ui::styled("+ "@, arrow), own);
                lemma_around("+ "@, meant);
            }
        },
    }
}

proof fn lemma_one(a: SpanView)
    ensures
        words(seq![a]) == a.text,
{
    reveal_with_fuel(words, 2);
    assert(words(seq![a]) =~= a.text);
}

proof fn lemma_two(a: SpanView, b: SpanView)
    ensures
        words(seq![a, b]) == a.text + b.text,
{
    lemma_one(a);
    lemma_one(b);
    lemma_words_add(seq![a], seq![b]);
    assert(seq![a, b] =~= seq![a] + seq![b]);
}

proof fn lemma_three(a: SpanView, b: SpanView, c: SpanView)
    ensures
        words(seq![a, b, c]) == a.text + b.text + c.text,
{
    lemma_two(a, b);
    lemma_one(c);
    lemma_words_add(seq![a, b], seq![c]);
    assert(seq![a, b, c] =~= seq![a, b] + seq![c]);
}

proof fn lemma_around(a: Seq<char>, b: Seq<char>)
    ensures
        "["@ + (a + b) + "]"@ == "["@ + a + b + "]"@,
{
    assert("["@ + (a + b) + "]"@ =~= "["@ + a + b + "]"@);
}

proof fn lemma_badge(r: RowView, e: Option<FileEntryView>)
    ensures
        words(ui::badge(r, e)) == "["@ + words(
            match e {
                Some(x) => ui::badge_inside(r, x),
                None => seq![ui::storage_name(ui::storage_for(r.lfs_tracked))],
            },
        ) + "]"@,
{
    reveal_with_fuel(words, 2);
    let bracket = ui::in_color(Color::DarkGray);
    let inside = match e {
        Some(x) => ui::badge_inside(r, x),
        None => seq![ui::storage_name(ui::storage_for(r.lfs_tracked))],
    };
    let open = seq![ui::styled("["@, bracket)];
    let end = seq![ui::styled("]"@, bracket)];
    lemma_words_add(open + inside, end);
    lemma_words_add(open, inside);
    assert(words(open) =~= "["@);
    assert(words(end) =~= "]"@);
}

/// A row is tinted as soon as something of it is in the index, a folder only where nothing
/// else below it is changed; the row under the cursor stands out from the others.
pub proof fn law_row_background(r: RowView)
    ensures
        ({
            let elsewhere = r.agg.unstaged > 0 || r.agg.untracked > 0;
            let here = ui::row_bg(r, true);
            let other = ui::row_bg(r, false);
            &&& here != other
            &&& here is Some
            &&& other is None <==> r.agg.staged == 0 || r.is_dir && elsewhere
            &&& other is None ==> here == Some(Color::DarkGray)
            &&& other is Some && !elsewhere ==> other == Some(Color::Rgb(20, 45, 25)) && here
                == Some(Color::Rgb(40, 90, 50))
            &&& other is Some && elsewhere ==> other == Some(Color::Rgb(55, 45, 15)) && here
                == Some(Color::Rgb(90, 75, 25))
        }),
{
}

/// The lines of a difference have the colours of what they are: a file name, an addition, a
/// removal, a place, or what leads in; other lines have none.
pub proof fn law_diff_colors(l: Seq<char>)
    ensures
        ({
            let s = ui::diff_style(l);
            let name = text::begins(l, "+++"@) || text::begins(l, "---"@);
            let lead = text::begins(l, "diff "@) || text::begins(l, "index "@);
            &&& s.bg is None
            &&& name ==> s.fg == Some(Color::White) && s.bold
            &&& !name ==> !s.bold
            &&& !name && l.len() > 0 && l[0] == '+' ==> s.fg == Some(Color::Green)
            &&& !name && l.len() > 0 && l[0] == '-' ==> s.fg == Some(Color::Red)
            &&& l.len() > 1 && l[0] == '@' && l[1] == '@' ==> s.fg == Some(Color::Cyan)
            &&& lead ==> s.fg == Some(Color::DarkGray)
            &&& !lead && (l.len() == 0 || l[0] != '+' && l[0] != '-' && !(l.len() > 1 && l[0] == '@'
                && l[1] == '@')) ==> s.fg is None
        }),
{
    reveal_strlit("+++");
    reveal_strlit("---");
    reveal_strlit("+");
    reveal_strlit("-");
    reveal_strlit("@@");
    reveal_strlit("diff ");
    reveal_strlit("index ");
    if l.len() > 0 {
        assert(l.take(1) =~= seq![l[0]]);
        assert(text::begins(l, "+"@) <==> l[0] == '+') by {
            assert("+"@ =~= seq!['+']);
            if text::begins(l, "+"@) {
                assert(l.take(1)[0] == '+');
            }
        }
        assert(text::begins(l, "-"@) <==> l[0] == '-') by {
            assert("-"@ =~= seq!['-']);
            if text::begins(l, "-"@) {
                assert(l.take(1)[0] == '-');
            }
        }
        if l.len() > 1 {
            assert(l.take(2) =~= seq![l[0], l[1]]);
            assert("@@"@ =~= seq!['@', '@']);
            if text::begins(l, "@@"@) {
                assert(l.take(2)[0] == '@' && l.take(2)[1] == '@');
            }
        }
        if text::begins(l, "+++"@) {
            assert(l.take(3)[0] == '+');
        }
        if text::begins(l, "---"@) {
            assert(l.take(3)[0] == '-');
        }
        if text::begins(l, "diff "@) {
            assert(l.take(5)[0] == 'd');
        }
        if text::begins(l, "index "@) {
            assert(l.take(6)[0] == 'i');
        }
    }
}

// ---------------------------------------------------------------------------
// Parts of the screen

/// The tab that is shown is the one that stands out; the branches have none.
pub proof fn law_tabs(app: AppView, seconds: Seq<char>, p: Places)
    ensures
        ({
            let d = ui::scene(app, seconds, p)[0];
            &&& d.area == p.tabs
            &&& d.widget is Tabs
            &&& d.widget->titles == seq!["[1] Status"@, "[2] Stash"@, "[3] Log"@]
            &&& match app.tab {
                Tab::Status => d.widget->Tabs_selected == Some(0usize),
                Tab::Stash => d.widget->Tabs_selected == Some(1usize),
                Tab::Log => d.widget->Tabs_selected == Some(2usize),
                Tab::Branches => d.widget->Tabs_selected is None,
            }
        }),
{
}

/// Whether a change of a file is to be committed, and its content goes to the large-file
/// storage or not.
pub open spec fn to_commit(lfs: bool) -> spec_fn(FileEntryView) -> bool {
    |e: FileEntryView|
        e.lfs_tracked == lfs && match e.index {
            Stage::Added => true,
            Stage::Modified => true,
            Stage::Deleted => true,
            Stage::Renamed => true,
            Stage::Copied => true,
            Stage::TypeChange => true,
            _ => false,
        }
}

/// The numbers of files to be committed are those of the files with a change in the index.
pub proof fn law_staged_number(entries: Seq<FileEntryView>, lfs: bool)
    ensures
        model::staged_number(entries, lfs) == entries.filter(to_commit(lfs)).len(),
    decreases entries.len(),
{
    reveal(Seq::filter);
    if entries.len() > 0 {
        law_staged_number(entries.drop_last(), lfs);
    }
}

/// The header tells the branch, its upstream, and how much there is of what is shown.
#[verifier::rlimit(40)]
pub proof fn law_header(app: AppView, seconds: Seq<char>, p: Places)
    ensures
        ({
            let d = ui::scene(app, seconds, p)[1];
            let start = " branch: "@ + app.branch + "  upstream: "@ + (match app.upstream {
                Some(up) => up,
                None => "(none)"@,
            });
            let end = match app.tab {
                Tab::Status => "  [staged: "@ + text::decimal(
                    app.entries.filter(to_commit(false)).len(),
                ) + " git, "@ + text::decimal(app.entries.filter(to_commit(true)).len())
                    + " LFS]"@,
                Tab::Stash => "  ["@ + text::decimal(app.stash.stashes.len()) + " stashes]"@,
                Tab::Log => "  ["@ + text::decimal(app.log.commits.len()) + " commits]"@,
                Tab::Branches => "  ["@ + text::decimal(app.branches.locals.len()) + " branches]"@,
            };
            &&& d.area == p.header
            &&& d.widget is Text
            &&& d.widget->Text_lines.len() == 1
            &&& words(d.widget->Text_lines[0]) == start + end
        }),
{
    reveal_with_fuel(words, 6);
    law_staged_number(app.entries, false);
    law_staged_number(app.entries, true);
    let d = ui::scene(app, seconds, p)[1];
    let line = d.widget->Text_lines[0];
    let start = " branch: "@ + app.branch + "  upstream: "@ + (match app.upstream {
        Some(up) => up,
        None => "(none)"@,
    });
    assert(words(line) =~= start + ui::header_info(app));
}

/// Whether a list is drawn: the items that are shown, the one that is chosen, what is said in
/// place of an empty list, the title, and whether the keys go there.
pub open spec fn lists(
    w: WidgetView,
    items: Seq<Seq<char>>,
    chosen: usize,
    none: Seq<char>,
    title: Seq<char>,
    focused: bool,
) -> bool {
    let border = if focused {
        Color::Cyan
    } else {
        Color::DarkGray
    };
    if items.len() == 0 {
        &&& w is Text
        &&& w->Text_lines.len() == 1
        &&& words(w->Text_lines[0]) == none
        &&& w->Text_frame is Some
        &&& w->Text_frame->0.title == Some(title)
        &&& w->Text_frame->0.border.fg == Some(border)
    } else {
        &&& w is List
        &&& w->items.len() == items.len()
        &&& forall|i: int|
            0 <= i < items.len() ==> words((#[trigger] w->items[i]).line) == items[i]
        &&& w->List_selected == chosen
        &&& w->List_frame.title == Some(title)
        &&& w->List_frame.border.fg == Some(border)
    }
}

/// Whether a text with colours is drawn: its lines, how far it is scrolled, the title, and
/// whether the keys go there.
pub open spec fn reads(
    w: WidgetView,
    shown: Seq<char>,
    scroll: u16,
    title: Seq<char>,
    focused: bool,
) -> bool {
    &&& w is Text
    &&& w->Text_lines.len() == text::lines(shown).len()
    &&& forall|i: int|
        0 <= i < w->Text_lines.len() ==> {
            &&& words(#[trigger] w->Text_lines[i]) == text::lines(shown)[i]
            &&& w->Text_lines[i].len() == 1
            &&& w->Text_lines[i][0].style == ui::diff_style(text::lines(shown)[i])
        }
    &&& w->scroll == scroll
    &&& w->Text_frame is Some
    &&& w->Text_frame->0.title == Some(title)
    &&& w->Text_frame->0.border.fg == Some(
        if focused {
            Color::Cyan
        } else {
            Color::DarkGray
        },
    )
}

/// The changed files stand in a list, one row after the other, and beside it the difference
/// that was asked for.
pub proof fn law_status_drawn(app: AppView, seconds: Seq<char>, p: Places)
    requires
        app.tab == Tab::Status,
    ensures
        ({
            let l = ui::scene(app, seconds, p)[2];
            let r = ui::scene(app, seconds, p)[3];
            &&& l.area == p.left
            &&& r.area == p.right
            &&& lists(
                l.widget,
                Seq::new(
                    app.rows.len(),
                    |i: int|
                        words(
                            ui::row_spans(
                                app.rows[i],
                                match app.rows[i].entry_index {
                                    Some(k) if k < app.entries.len() => Some(
                                        app.entries[k as int],
                                    ),
                                    _ => None,
                                },
                            ),
                        ),
                ),
                app.cursor,
                "clean — nothing to commit"@,
                " Files ("@ + text::decimal(app.rows.len()) + ") "@,
                app.focus == Focus::Files,
            )
            &&& app.rows.len() > 0 ==> forall|i: int|
                0 <= i < app.rows.len() ==> (#[trigger] l.widget->items[i]).bg == ui::row_bg(
                    app.rows[i],
                    i == app.cursor,
                )
            &&& reads(
                r.widget,
                app.diff_text,
                app.diff_scroll,
                " Diff "@,
                app.focus == Focus::Diff,
            )
        }),
{
    reveal_with_fuel(words, 2);
    lemma_reads(app.diff_text);
    lemma_note("clean — nothing to commit"@);
}

/// The stashes stand in a list, each with its reference and its subject, and beside it what
/// is known of the one under the cursor.
pub proof fn law_stashes_drawn(app: AppView, seconds: Seq<char>, p: Places)
    requires
        app.tab == Tab::Stash,
    ensures
        ({
            let l = ui::scene(app, seconds, p)[2];
            let r = ui::scene(app, seconds, p)[3];
            let list = app.stash.stashes;
            let c = app.stash.cursor as int;
            &&& l.area == p.left
            &&& r.area == p.right
            &&& lists(
                l.widget,
                Seq::new(list.len(), |i: int| list[i].reference + "  "@ + list[i].subject),
                app.stash.cursor,
                "(no stashes)"@,
                " Stashes ("@ + text::decimal(list.len()) + ") "@,
                app.stash.focus == StashFocus::List,
            )
            &&& reads(
                r.widget,
                app.stash.details_text,
                app.stash.details_scroll,
                if c < list.len() {
                    " "@ + list[c].reference + " "@
                } else {
                    " Details "@
                },
                app.stash.focus == StashFocus::Details,
            )
        }),
{
    lemma_reads(app.stash.details_text);
    lemma_note("(no stashes)"@);
    let w = ui::scene(app, seconds, p)[2].widget;
    let list = app.stash.stashes;
    assert forall|i: int| 0 <= i < list.len() implies words((#[trigger] w->items[i]).line)
        == list[i].reference + "  "@ + list[i].subject by {
        reveal_with_fuel(words, 4);
        assert(w->items[i] == ui::stash_item()(list[i]));
        assert(words(w->items[i].line) =~= list[i].reference + "  "@ + list[i].subject);
    }
}

/// The commits stand in a list, each with its short name, its date, its author and its
/// subject, and beside it what is known of the one under the cursor.
#[verifier::rlimit(40)]
pub proof fn law_log_drawn(app: AppView, seconds: Seq<char>, p: Places)
    requires
        app.tab == Tab::Log,
    ensures
        ({
            let l = ui::scene(app, seconds, p)[2];
            let r = ui::scene(app, seconds, p)[3];
            let list = app.log.commits;
            let c = app.log.cursor as int;
            &&& l.area == p.left
            &&& r.area == p.right
            &&& lists(
                l.widget,
                Seq::new(
                    list.len(),
                    |i: int|
                        list[i].short + " "@ + list[i].date + " "@ + ui::cut(list[i].author, 14)
                            + " "@ + list[i].subject,
                ),
                app.log.cursor,
                "(no commits)"@,
                " Commits ("@ + text::decimal(list.len()) + ") "@,
                app.log.focus == LogFocus::List,
            )
            &&& reads(
                r.widget,
                app.log.details_text,
                app.log.details_scroll,
                if c < list.len() {
                    " "@ + list[c].short + " "@
                } else {
                    " Details "@
                },
                app.log.focus == LogFocus::Details,
            )
        }),
{
    lemma_reads(app.log.details_text);
    lemma_note("(no commits)"@);
    let w = ui::scene(app, seconds, p)[2].widget;
    let list = app.log.commits;
    assert forall|i: int| 0 <= i < list.len() implies words((#[trigger] w->items[i]).line)
        == list[i].short + " "@ + list[i].date + " "@ + ui::cut(list[i].author, 14) + " "@
        + list[i].subject by {
        reveal_with_fuel(words, 8);
        assert(w->items[i] == ui::commit_item()(list[i]));
        assert(words(w->items[i].line) =~= list[i].short + " "@ + list[i].date + " "@ + ui::cut(
            list[i].author,
            14,
        ) + " "@ + list[i].subject);
    }
}

/// The local branches stand in a list, the current one with a star, and the remote ones in
/// another.
#[verifier::rlimit(40)]
pub proof fn law_branches_drawn(app: AppView, seconds: Seq<char>, p: Places)
    requires
        app.tab == Tab::Branches,
    ensures
        ({
            let l = ui::scene(app, seconds, p)[2];
            let r = ui::scene(app, seconds, p)[3];
            let here = app.branches.locals;
            let there = app.branches.remotes;
            &&& l.area == p.left
            &&& r.area == p.right
            &&& lists(
                l.widget,
                Seq::new(
                    here.len(),
                    |i: int|
                        (if here[i].is_head {
                            "* "@
                        } else {
                            "  "@
                        }) + here[i].name + "  "@ + here[i].short + " "@ + here[i].subject,
                ),
                app.branches.local_cursor,
                "(no branches)"@,
                " Local ("@ + text::decimal(here.len()) + ") "@,
                app.branches.focus == BranchFocus::Local,
            )
            &&& lists(
                r.widget,
                Seq::new(
                    there.len(),
                    |i: int|
                        there[i].remote + "/"@ + there[i].name + "  "@ + there[i].short + " "@
                            + there[i].subject,
                ),
                app.branches.remote_cursor,
                "(no branches)"@,
                " Remote ("@ + text::decimal(there.len()) + ") "@,
                app.branches.focus == BranchFocus::Remote,
            )
        }),
{
    lemma_note("(no branches)"@);
    let v = ui::scene(app, seconds, p)[2].widget;
    let w = ui::scene(app, seconds, p)[3].widget;
    let here = app.branches.locals;
    let there = app.branches.remotes;
    assert forall|i: int| 0 <= i < here.len() implies words((#[trigger] v->items[i]).line) == (
    if here[i].is_head {
        "* "@
    } else {
        "  "@
    }) + here[i].name + "  "@ + here[i].short + " "@ + here[i].subject by {
        reveal_with_fuel(words, 7);
        assert(v->items[i] == ui::local_item()(here[i]));
        assert(words(v->items[i].line) =~= (if here[i].is_head {
            "* "@
        } else {
            "  "@
        }) + here[i].name + "  "@ + here[i].short + " "@ + here[i].subject);
    }
    assert forall|i: int| 0 <= i < there.len() implies words((#[trigger] w->items[i]).line)
        == there[i].remote + "/"@ + there[i].name + "  "@ + there[i].short + " "@
        + there[i].subject by {
        reveal_with_fuel(words, 6);
        assert(w->items[i] == ui::remote_item()(there[i]));
        assert(words(w->items[i].line) =~= there[i].remote + "/"@ + there[i].name + "  "@
            + there[i].short + " "@ + there[i].subject);
    }
}

proof fn lemma_reads(s: Seq<char>)
    ensures
        ui::diff_spans(s).len() == text::lines(s).len(),
        forall|i: int|
            0 <= i < text::lines(s).len() ==> words(#[trigger] ui::diff_spans(s)[i])
                == text::lines(s)[i],
{
    assert forall|i: int| 0 <= i < text::lines(s).len() implies words(
        #[trigger] ui::diff_spans(s)[i],
    ) == text::lines(s)[i] by {
        reveal_with_fuel(words, 2);
        assert(words(ui::diff_spans(s)[i]) =~= text::lines(s)[i]);
    }
}

proof fn lemma_note(s: Seq<char>)
    ensures
        words(seq![ui::raw(s)]) == s,
{
    lemma_one(ui::raw(s));
}

// ---------------------------------------------------------------------------
// The last line

/// While something is at work the last line tells what and for how long; a message stands
/// there for five seconds; else the keys are listed.
#[verifier::rlimit(40)]
pub proof fn law_footer(app: AppView, seconds: Seq<char>, p: Places)
    ensures
        ({
            let d = ui::scene(app, seconds, p)[4];
            let shown = words(d.widget->Text_lines[0]);
            &&& d.area == p.footer
            &&& d.widget is Text
            &&& d.widget->Text_lines.len() == 1
            &&& app.pending is Some ==> shown == " "@ + ui::spinner(
                if app.clock >= app.pending->0.started {
                    (app.clock - app.pending->0.started) as nat
                } else {
                    0
                },
            ) + " "@ + app.pending->0.label + "  ("@ + seconds + "s)"@
            &&& app.pending is None && app.status_line is Some && app.clock
                < (app.status_line->0).1 + 5_000_000_000 ==> shown == " "@ + (app.status_line->0).0
            &&& app.pending is None && (app.status_line is None || app.clock
                >= (app.status_line->0).1 + 5_000_000_000) ==> shown == ui::hints(app)
        }),
{
    reveal_with_fuel(words, 6);
    let shown = words(ui::footer(app, seconds));
    if app.pending is Some {
        assert(shown =~= " "@ + ui::spinner(ui::since(app.clock, app.pending->0.started)) + " "@
            + app.pending->0.label + "  ("@ + seconds + "s)"@);
    } else if app.status_line is Some && app.clock < (app.status_line->0).1 + 5_000_000_000 {
        assert(shown =~= " "@ + (app.status_line->0).0);
    } else {
        assert(shown =~= ui::hints(app));
    }
}

/// The spinner has ten pictures, and the next one comes every eighty milliseconds.
pub proof fn law_spinner(n: nat, m: nat)
    ensures
        ui::spinner(n) == ui::spinner(m) <==> n / 80_000_000 % 10 == m / 80_000_000 % 10,
        n < 80_000_000 ==> ui::spinner(n) == "⠋"@,
{
    vstd::arithmetic::div_mod::lemma_div_denominator(n as int, 1_000_000, 80);
    vstd::arithmetic::div_mod::lemma_div_denominator(m as int, 1_000_000, 80);
    assert(n / 1_000_000 / 80 == n / 80_000_000);
    assert(m / 1_000_000 / 80 == m / 80_000_000);
    reveal_strlit("⠋");
    reveal_strlit("⠙");
    reveal_strlit("⠹");
    reveal_strlit("⠸");
    reveal_strlit("⠼");
    reveal_strlit("⠴");
    reveal_strlit("⠦");
    reveal_strlit("⠧");
    reveal_strlit("⠇");
    reveal_strlit("⠏");
    let a = ui::spinner(n);
    let b = ui::spinner(m);
    assert(a.len() == 1 && b.len() == 1);
    if n / 80_000_000 % 10 != m / 80_000_000 % 10 {
        assert(a[0] != b[0]);
    }
}

/// The keys that are listed are those of what is open.
pub proof fn law_hints(app: AppView)
    ensures
        match app.modal {
            ModalView::Commit(_) => ui::hints(app)
                == " Enter/Ctrl-S commit  Ctrl-A amend  Esc cancel"@,
            ModalView::Push(_) => ui::hints(app) == " y/Enter confirm  ↑↓ pick  Esc cancel"@,
            ModalView::Confirm(_) => ui::hints(app) == " y confirm  n/Esc cancel"@,
            ModalView::NewBranch(_) => ui::hints(app) == " Enter create  Esc cancel"@,
            ModalView::Nothing => {
                &&& app.tab == Tab::Status && app.focus == Focus::Files ==> ui::hints(app)
                    == " 1/2/3 tab  ↑↓ nav  →/← expand/collapse  Tab diff  Space stage  a all  u unstage  d discard  c commit  P push  r refresh  q quit"@
                &&& app.tab == Tab::Status && app.focus == Focus::Diff ==> ui::hints(app)
                    == " 1/2/3 tab  ↑↓ scroll  PgUp/PgDn  Home/End  ←/Esc back  r refresh  q quit"@
                &&& app.tab == Tab::Stash && app.stash.focus == StashFocus::List ==> ui::hints(app)
                    == " 1/2/3 tab  ↑↓ nav  Home/End  Enter/→ details  a apply  p pop  d drop  r refresh  q quit"@
                &&& app.tab == Tab::Stash && app.stash.focus == StashFocus::Details ==> ui::hints(
                    app,
                ) == " 1/2/3 tab  ↑↓ scroll  PgUp/PgDn  Home/End  ←/Esc back  q quit"@
                &&& app.tab == Tab::Log && app.log.focus == LogFocus::List ==> ui::hints(app)
                    == " 1/2/3 tab  ↑↓ nav  Home/End  Enter/→ details  r refresh  q quit"@
                &&& app.tab == Tab::Log && app.log.focus == LogFocus::Details ==> ui::hints(app)
                    == " 1/2/3 tab  ↑↓ scroll  PgUp/PgDn  Home/End  ←/Esc back  q quit"@
                &&& app.tab == Tab::Branches ==> ui::hints(app)
                    == " 1/2/3 tab  ↑↓ nav  Tab switch  Enter checkout  n new  d delete  D force-delete  r refresh  q quit"@
            },
        },
{
}

// ---------------------------------------------------------------------------
// Dialogs

/// Whether a field is drawn with what was typed.
pub open spec fn typed(d: DrawView, area: ui::Area, s: Seq<char>) -> bool {
    &&& d.area == area
    &&& d.widget is Text
    &&& d.widget->Text_lines.len() == text::lines(s + "_"@).len()
    &&& forall|i: int|
        0 <= i < d.widget->Text_lines.len() ==> words(#[trigger] d.widget->Text_lines[i])
            == text::lines(s + "_"@)[i]
}

/// Whether a dialog is opened over the screen: its place is cleared and framed.
pub open spec fn framed(all: Seq<DrawView>, p: Places, title: Seq<char>) -> bool {
    &&& all[5].area == p.dialog
    &&& all[5].widget is Clear
    &&& all[6].area == p.dialog
    &&& all[6].widget is Border
    &&& all[6].widget->Border_0.title == Some(title)
}

proof fn lemma_raw_lines(s: Seq<char>)
    ensures
        ui::raw_lines(s).len() == text::lines(s).len(),
        forall|i: int|
            0 <= i < text::lines(s).len() ==> words(#[trigger] ui::raw_lines(s)[i])
                == text::lines(s)[i],
{
    assert forall|i: int| 0 <= i < text::lines(s).len() implies words(
        #[trigger] ui::raw_lines(s)[i],
    ) == text::lines(s)[i] by {
        reveal_with_fuel(words, 2);
        assert(words(ui::raw_lines(s)[i]) =~= text::lines(s)[i]);
    }
}

/// No dialog is drawn where none is open; the dialog of a commit shows the subject as typed
/// and what is to be committed, the one of a new branch its name, and a question its title and
/// its words.
#[verifier::rlimit(40)]
pub proof fn law_dialogs(app: AppView, seconds: Seq<char>, p: Places)
    ensures
        ({
            let all = ui::scene(app, seconds, p);
            match app.modal {
                ModalView::Nothing => all.len() == 5,
                ModalView::Commit(c) => {
                    &&& all.len() == 9
                    &&& framed(
                        all,
                        p,
                        " Commit"@ + (if c.amend {
                            " [AMEND]"@
                        } else {
                            ""@
                        }) + "  — staged: "@ + text::decimal(
                            app.entries.filter(to_commit(false)).len(),
                        ) + " git, "@ + text::decimal(app.entries.filter(to_commit(true)).len())
                            + " LFS "@,
                    )
                    &&& all[7].area == p.label
                    &&& all[7].widget is Text
                    &&& words(all[7].widget->Text_lines[0]) == "Subject"@
                    &&& typed(all[8], p.input, c.subject)
                },
                ModalView::NewBranch(n) => {
                    &&& all.len() == 9
                    &&& framed(all, p, " New branch "@)
                    &&& all[7].area == p.label
                    &&& all[7].widget is Text
                    &&& words(all[7].widget->Text_lines[0]) == "Name"@
                    &&& typed(all[8], p.input, n.name)
                },
                ModalView::Confirm(c) => {
                    &&& all.len() == 8
                    &&& framed(all, p, " "@ + c.title + " "@)
                    &&& all[7].widget is Text
                    &&& all[7].widget->Text_lines.len() == text::lines(c.message).len()
                    &&& forall|i: int|
                        0 <= i < text::lines(c.message).len() ==> words(
                            #[trigger] all[7].widget->Text_lines[i],
                        ) == text::lines(c.message)[i]
                },
                ModalView::Push(d) => {
                    &&& all.len() == 8
                    &&& framed(all, p, " Push "@)
                    &&& all[7].widget is Text
                },
            }
        }),
{
    law_staged_number(app.entries, false);
    law_staged_number(app.entries, true);
    match app.modal {
        ModalView::Commit(c) => {
            lemma_raw_lines(c.subject + "_"@);
            reveal_with_fuel(words, 2);
            assert(words(ui::input_label("Subject"@)->Text_lines[0]) =~= "Subject"@);
        },
        ModalView::NewBranch(n) => {
            lemma_raw_lines(n.name + "_"@);
            reveal_with_fuel(words, 2);
            assert(words(ui::input_label("Name"@)->Text_lines[0]) =~= "Name"@);
        },
        ModalView::Confirm(c) => {
            lemma_raw_lines(c.message);
        },
        _ => {},
    }
}

/// The dialog of a push names the branch and the remote that it is to be made on, or the
/// remotes to choose from with the chosen one marked.
#[verifier::rlimit(40)]
pub proof fn law_push_drawn(app: AppView, seconds: Seq<char>, p: Places, d: PushDialogView)
    requires
        app.modal == ModalView::Push(d),
    ensures
        ({
            let lines = ui::scene(app, seconds, p)[7].widget->Text_lines;
            match d {
                PushDialogView::Confirm { remote, branch } => {
                    &&& lines.len() == 6
                    &&& words(lines[1]) == "  Create branch '"@ + branch + "' on remote '"@
                        + remote + "'?"@
                    &&& words(lines[3]) == "  This runs: git push -u <remote> <branch>"@
                    &&& words(lines[5]) == "  [y] confirm   [n/Esc] cancel"@
                },
                PushDialogView::Pick { remotes, cursor, branch } => {
                    &&& lines.len() == remotes.len() + 4
                    &&& words(lines[0]) == "  Pick remote for branch '"@ + branch + "':"@
                    &&& forall|i: int|
                        0 <= i < remotes.len() ==> words(#[trigger] lines[i + 2]) == (if i
                            == cursor {
                            "> "@
                        } else {
                            "  "@
                        }) + remotes[i]
                    &&& words(lines[remotes.len() as int + 3])
                        == "  [↑↓] navigate  [Enter] select  [Esc] cancel"@
                },
                PushDialogView::Running => lines.len() == 1 && words(lines[0]) == "  Pushing…"@,
            }
        }),
{
    reveal_with_fuel(words, 2);
    let lines = ui::scene(app, seconds, p)[7].widget->Text_lines;
    assert(lines == ui::push_lines(d));
    match d {
        PushDialogView::Confirm { remote, branch } => {
            assert(words(lines[1]) =~= "  Create branch '"@ + branch + "' on remote '"@ + remote
                + "'?"@);
            assert(words(lines[3]) =~= "  This runs: git push -u <remote> <branch>"@);
            assert(words(lines[5]) =~= "  [y] confirm   [n/Esc] cancel"@);
        },
        PushDialogView::Pick { remotes, cursor, branch } => {
            assert(words(lines[0]) =~= "  Pick remote for branch '"@ + branch + "':"@);
            assert forall|i: int| 0 <= i < remotes.len() implies words(#[trigger] lines[i + 2]) == (
            if i == cursor {
                "> "@
            } else {
                "  "@
            }) + remotes[i] by {
                assert(lines[i + 2] == ui::remote_line(remotes[i], i == cursor));
                assert(words(lines[i + 2]) =~= (if i == cursor {
                    "> "@
                } else {
                    "  "@
                }) + remotes[i]);
            }
            assert(words(lines[remotes.len() as int + 3])
                =~= "  [↑↓] navigate  [Enter] select  [Esc] cancel"@);
        },
        PushDialogView::Running => {
            assert(words(lines[0]) =~= "  Pushing…"@);
        },
    }
}

} // verus!
