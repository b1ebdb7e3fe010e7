//! How what is drawn looks, and where dialogs stand.

use crate::app::{AppView, ModalView, PushDialogView, Tab};
use crate::git::FileEntryView;
use crate::tree::RowView;
use crate::ui::{self, Area, Axis, Color, Places, Style, WidgetView};
use vstd::prelude::*;

verus! {

// ---------------------------------------------------------------------------
// Colours

/// Whether a style is one colour for letters and nothing else.
pub open spec fn colored(s: Style, c: Color) -> bool {
    s.fg == Some(c) && s.bg is None && !s.bold
}

/// Whether a style is bold letters in one colour.
pub open spec fn bold(s: Style, c: Color) -> bool {
    s.fg == Some(c) && s.bg is None && s.bold
}

/// Whether a style is none.
pub open spec fn bare(s: Style) -> bool {
    s.fg is None && s.bg is None && !s.bold
}

/// The mark of a row has its colour, bold for a file, the warning is yellow, the name of a
/// file is white, and all that is of a folder dim.
pub proof fn law_row_colors(r: RowView, e: Option<FileEntryView>)
    ensures
        ({
            let line = ui::row_spans(r, e);
            &&& r.is_dir ==> {
                &&& line.len() == 7
                &&& colored(line[0].style, ui::mark(r).1)
                &&& colored(line[1].style, Color::Yellow)
                &&& bare(line[2].style)
                &&& forall|k: int| 3 <= k < 7 ==> colored((#[trigger] line[k]).style, Color::DarkGray)
            }
            &&& !r.is_dir ==> {
                &&& bold(line[0].style, ui::mark(r).1)
                &&& bold(line[1].style, Color::Yellow)
                &&& bare(line[2].style)
                &&& colored(line[3].style, Color::DarkGray)
                &&& colored(line[4].style, Color::DarkGray)
                &&& colored(line[5].style, Color::White)
                &&& bare(line[6].style)
                &&& line.skip(7) == ui::badge(r, e)
            }
        }),
{
    if !r.is_dir {
        assert(ui::row_spans(r, e).skip(7) =~= ui::badge(r, e));
    }
}

/// Around a storage stand dim brackets; the large-file storage is yellow, git dim, and what
/// leads from one to the other bold.
pub proof fn law_badge_colors(r: RowView, e: Option<FileEntryView>, k: int)
    requires
        0 <= k < ui::badge(r, e).len(),
    ensures
        ({
            let b = ui::badge(r, e);
            &&& 3 <= b.len() <= 5
            &&& k == 0 || k == b.len() - 1 ==> colored(b[k].style, Color::DarkGray)
            &&& 0 < k < b.len() - 1 ==> {
                ||| b[k].text == "LFS"@ && colored(b[k].style, Color::Yellow)
                ||| b[k].text == "git"@ && colored(b[k].style, Color::DarkGray)
                ||| bold(b[k].style, Color::White)
            }
        }),
{
}

/// The colours of the items of a list.
pub proof fn law_item_colors(app: AppView, i: int)
    ensures
        0 <= i < app.stash.stashes.len() ==> {
            let item = ui::stash_item()(app.stash.stashes[i]);
            &&& item.bg is None
            &&& item.line.len() == 3
            &&& colored(item.line[0].style, Color::Yellow)
            &&& bare(item.line[1].style)
            &&& colored(item.line[2].style, Color::White)
        },
        0 <= i < app.log.commits.len() ==> {
            let item = ui::commit_item()(app.log.commits[i]);
            &&& item.bg is None
            &&& item.line.len() == 7
            &&& colored(item.line[0].style, Color::Yellow)
            &&& colored(item.line[2].style, Color::DarkGray)
            &&& colored(item.line[4].style, Color::Magenta)
            &&& colored(item.line[6].style, Color::White)
            &&& bare(item.line[1].style) && bare(item.line[3].style) && bare(item.line[5].style)
        },
        0 <= i < app.branches.locals.len() ==> {
            let item = ui::local_item()(app.branches.locals[i]);
            &&& item.bg is None
            &&& item.line.len() == 6
            &&& colored(item.line[1].style, Color::White)
            &&& colored(item.line[3].style, Color::Yellow)
            &&& colored(item.line[5].style, Color::DarkGray)
            &&& bare(item.line[0].style) && bare(item.line[2].style) && bare(item.line[4].style)
        },
        0 <= i < app.branches.remotes.len() ==> {
            let item = ui::remote_item()(app.branches.remotes[i]);
            &&& item.bg is None
            &&& item.line.len() == 5
            &&& colored(item.line[0].style, Color::White)
            &&& colored(item.line[2].style, Color::Yellow)
            &&& colored(item.line[4].style, Color::DarkGray)
            &&& bare(item.line[1].style) && bare(item.line[3].style)
        },
{
}

/// The looks of the lists: the chosen item is marked and bold, and on a dark ground but for
/// the files, which have their own; the others look as their colours say.
pub proof fn law_list_looks(app: AppView)
    ensures
        ({
            let l = ui::left(app);
            let r = ui::right(app);
            &&& l is List ==> {
                &&& l->symbol == "> "@
                &&& l->List_highlight.bold
                &&& l->List_highlight.fg is None
                &&& l->List_highlight.bg == if app.tab == Tab::Status {
                    None
                } else {
                    Some(Color::DarkGray)
                }
                &&& l->List_frame.border.bg is None && !l->List_frame.border.bold
            }
            &&& r is List ==> {
                &&& app.tab == Tab::Branches
                &&& r->symbol == "> "@
                &&& r->List_highlight.bold
                &&& r->List_highlight.fg is None
                &&& r->List_highlight.bg == Some(Color::DarkGray)
            }
            &&& app.tab == Tab::Stash ==> forall|i: int|
                0 <= i < app.stash.stashes.len() ==> #[trigger] l->items[i] == ui::stash_item()(
                    app.stash.stashes[i],
                )
            &&& app.tab == Tab::Log ==> forall|i: int|
                0 <= i < app.log.commits.len() ==> #[trigger] l->items[i] == ui::commit_item()(
                    app.log.commits[i],
                )
            &&& app.tab == Tab::Branches ==> forall|i: int|
                0 <= i < app.branches.locals.len() ==> #[trigger] l->items[i] == ui::local_item()(
                    app.branches.locals[i],
                )
            &&& app.tab == Tab::Branches ==> forall|i: int|
                0 <= i < app.branches.remotes.len() ==> #[trigger] r->items[i]
                    == ui::remote_item()(app.branches.remotes[i])
        }),
{
}

/// Whether a text is set plainly: to the left, without breaking its lines, from the top on.
pub open spec fn plainly_set(w: WidgetView) -> bool {
    w is Text && bare(w->Text_style) && !w->right && !w->wrap && w->scroll == 0
}

/// How texts are set: the header to the right, the difference and the details with their lines
/// broken, and what stands for an empty list plainly.
pub proof fn law_texts_set(app: AppView, seconds: Seq<char>, p: Places)
    ensures
        ({
            let all = ui::scene(app, seconds, p);
            let h = all[1].widget;
            let l = all[2].widget;
            let r = all[3].widget;
            &&& h is Text && h->right && !h->wrap && h->scroll == 0 && bare(h->Text_style)
                && h->Text_frame is None
            &&& l is Text ==> plainly_set(l)
            &&& r is Text && app.tab != Tab::Branches ==> bare(r->Text_style) && !r->right && r->wrap
            &&& r is Text && app.tab == Tab::Branches ==> plainly_set(r)
            &&& plainly_set(all[4].widget) && all[4].widget->Text_frame is None
        }),
{
}

/// The colours of the tabs, of the header and of the last line.
#[verifier::rlimit(40)]
pub proof fn law_bar_colors(app: AppView, seconds: Seq<char>, p: Places)
    ensures
        ({
            let all = ui::scene(app, seconds, p);
            let t = all[0].widget;
            let h = all[1].widget->Text_lines[0];
            let f = all[4].widget->Text_lines[0];
            &&& colored(t->Tabs_style, Color::DarkGray)
            &&& bold(t->Tabs_highlight, Color::Cyan)
            &&& t->divider.text == "│"@
            &&& colored(t->divider.style, Color::DarkGray)
            &&& colored(t->border, Color::DarkGray)
            &&& h.len() == 5
            &&& bare(h[0].style) && bare(h[2].style) && bare(h[4].style)
            &&& bold(h[1].style, Color::Cyan)
            &&& colored(h[3].style, Color::Magenta)
            &&& app.pending is Some ==> {
                &&& f.len() == 5
                &&& bold(f[1].style, Color::Cyan)
                &&& colored(f[3].style, Color::White)
                &&& colored(f[4].style, Color::DarkGray)
                &&& bare(f[0].style) && bare(f[2].style)
            }
            &&& app.pending is None ==> {
                &&& f.len() == 1
                &&& f[0].text == ui::hints(app) || colored(f[0].style, Color::Yellow)
                &&& app.status_line is None ==> colored(f[0].style, Color::DarkGray)
                &&& app.status_line is Some && app.clock >= (app.status_line->0).1 + 5_000_000_000
                    ==> colored(f[0].style, Color::DarkGray)
            }
        }),
{
}

/// The looks of the dialogs: questions are framed in yellow, the others in cyan; what is typed
/// is white in a frame, the words of a question have their lines broken.
#[verifier::rlimit(40)]
pub proof fn law_dialog_looks(app: AppView, seconds: Seq<char>, p: Places)
    requires
        !(app.modal is Nothing),
    ensures
        ({
            let all = ui::scene(app, seconds, p);
            &&& colored(
                all[6].widget->Border_0.border,
                if app.modal is Confirm {
                    Color::Yellow
                } else {
                    Color::Cyan
                },
            )
            &&& app.modal is Confirm ==> {
                let w = all[7].widget;
                &&& all[7].area == ui::bordered(p.dialog)
                &&& bare(w->Text_style) && !w->right && w->wrap && w->scroll == 0 && w->Text_frame
                    is None
                &&& forall|i: int|
                    0 <= i < w->Text_lines.len() ==> (#[trigger] w->Text_lines[i]).len() == 1
                        && bare(w->Text_lines[i][0].style)
            }
            &&& app.modal is Push ==> {
                &&& all[7].area == ui::bordered(p.dialog)
                &&& plainly_set(all[7].widget) && all[7].widget->Text_frame is None
            }
            &&& app.modal is Commit || app.modal is NewBranch ==> {
                let n = all[7].widget;
                let w = all[8].widget;
                &&& plainly_set(n) && n->Text_frame is None
                &&& n->Text_lines.len() == 1 && n->Text_lines[0].len() == 1
                &&& bold(n->Text_lines[0][0].style, Color::Cyan)
                &&& colored(w->Text_style, Color::White) && !w->right && !w->wrap && w->scroll == 0
                &&& w->Text_frame is Some && w->Text_frame->0.title is None && bare(
                    w->Text_frame->0.border,
                )
                &&& forall|i: int|
                    0 <= i < w->Text_lines.len() ==> (#[trigger] w->Text_lines[i]).len() == 1
                        && bare(w->Text_lines[i][0].style)
            }
        }),
{
}

/// The colours of the dialog of a push: the keys are dim, and the remote that is chosen stands
/// out.
pub proof fn law_push_colors(d: PushDialogView)
    ensures
        ({
            let lines = ui::push_lines(d);
            match d {
                PushDialogView::Confirm { remote, branch } => {
                    &&& lines[0].len() == 0 && lines[2].len() == 0 && lines[4].len() == 0
                    &&& bare(lines[1][0].style) && bare(lines[3][0].style)
                    &&& colored(lines[5][0].style, Color::DarkGray)
                },
                PushDialogView::Pick { remotes, cursor, branch } => {
                    let n = remotes.len() as int;
                    &&& bare(lines[0][0].style)
                    &&& lines[1].len() == 0 && lines[n + 2].len() == 0
                    &&& forall|i: int|
                        2 <= i < n + 2 ==> if i - 2 == cursor {
                            bold((#[trigger] lines[i])[0].style, Color::Cyan)
                        } else {
                            bare(lines[i][0].style)
                        }
                    &&& colored(lines[n + 3][0].style, Color::DarkGray)
                },
                PushDialogView::Running => bare(lines[0][0].style),
            }
        }),
{
}

// ---------------------------------------------------------------------------
// Places

/// The inside of a frame is one less on each side.
pub proof fn law_inside(a: Area)
    requires
        a.x + a.width < u16::MAX,
        a.y + a.height < u16::MAX,
        a.width >= 2,
        a.height >= 2,
    ensures
        ui::bordered(a) == (Area {
            x: (a.x + 1) as u16,
            y: (a.y + 1) as u16,
            width: (a.width - 2) as u16,
            height: (a.height - 2) as u16,
        }),
        ui::inset(a) == ui::bordered(a),
{
}

/// A frame without room has nothing inside.
pub proof fn law_nothing_inside(a: Area)
    ensures
        a.width < 2 ==> ui::bordered(a).width == 0 && ui::inset(a).width == 0,
        a.height < 2 ==> ui::bordered(a).height == 0 && ui::inset(a).height == 0,
{
}

/// A dialog stands in the middle of the screen: a push takes 60 by 30 of a hundred parts, a
/// question 60 by 40, and what is typed into 70 by 25.
pub proof fn law_dialog_placed(p: Places, m: ModalView, screen: Area)
    requires
        screen.x + screen.width <= u16::MAX,
        screen.y + screen.height <= u16::MAX,
        p.laid_out(screen, m),
    ensures
        ({
            let d = p.dialog;
            let w = match m {
                ModalView::Push(_) => 60int,
                ModalView::Confirm(_) => 60int,
                _ => 70int,
            };
            let h = match m {
                ModalView::Push(_) => 30int,
                ModalView::Confirm(_) => 40int,
                _ => 25int,
            };
            &&& -100 <= 100 * d.width - w * screen.width <= 100
            &&& -100 <= 100 * d.height - h * screen.height <= 100
            &&& -100 <= 100 * (d.x - screen.x) - (100 - w) / 2 * screen.width <= 100
            &&& -100 <= 100 * (d.y - screen.y) - (100 - h) / 2 * screen.height <= 100
        }),
{
    let (x, y) = ui::dialog_size(m);
    ui::law_centered(p.dialog, x, y, screen);
}

/// What is typed into has its name on the first line inside the dialog, and the field below it
/// three lines high.
pub proof fn law_field_placed(p: Places, m: ModalView, screen: Area)
    requires
        m is Commit || m is NewBranch,
        p.laid_out(screen, m),
        p.dialog.x + p.dialog.width < u16::MAX,
        p.dialog.y + p.dialog.height < u16::MAX,
        p.dialog.width >= 2,
        p.dialog.height >= 6,
    ensures
        p.label == (Area {
            x: (p.dialog.x + 1) as u16,
            y: (p.dialog.y + 1) as u16,
            width: (p.dialog.width - 2) as u16,
            height: 1,
        }),
        p.input == (Area {
            x: (p.dialog.x + 1) as u16,
            y: (p.dialog.y + 2) as u16,
            width: (p.dialog.width - 2) as u16,
            height: 3,
        }),
{
    let whole = ui::inset(p.dialog);
    let rooms = ui::input_rooms();
    let lines = choose|lines: Seq<Area>|
        #![auto]
        {
            &&& ui::divided(ui::inset(p.dialog), Axis::Vertical, ui::input_rooms(), lines)
            &&& p.label == lines[0]
            &&& p.input == lines[1]
        };
    let length = ui::extent(whole, Axis::Vertical);
    reveal_with_fuel(ui::all_asked, 3);
    assert(ui::all_asked(rooms, length) == 400);
    assert(ui::enough(rooms, length));
    assert(ui::part_of(lines[0], whole, Axis::Vertical));
    assert(ui::part_of(lines[1], whole, Axis::Vertical));
    assert(ui::start(lines[0], Axis::Vertical) == ui::start(whole, Axis::Vertical));
    assert(ui::start(lines[1], Axis::Vertical) == ui::finish(lines[0], Axis::Vertical));
    assert(ui::given(rooms[0], ui::extent(lines[0], Axis::Vertical), length));
    assert(ui::given(rooms[1], ui::extent(lines[1], Axis::Vertical), length));
}

/// Where nothing is typed the field is the dialog itself.
pub proof fn law_no_field(p: Places, m: ModalView, screen: Area)
    requires
        !(m is Commit) && !(m is NewBranch),
        p.laid_out(screen, m),
    ensures
        p.label == p.dialog,
        p.input == p.dialog,
{
}

} // verus!
