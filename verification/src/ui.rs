//! What is drawn on the screen.
//!
//! A scene is a list of widgets, each with the area it fills. The functions here
//! say what is in them; putting them on the screen is left to the caller.

use crate::app::{
    App, AppView, BranchFocus, CommitInput, ConfirmDialog, Focus, LogFocus, Modal, ModalView,
    NewBranchInput, PushDialog, PushDialogView, StashFocus, Tab,
};
use crate::git::{
    Commit, CommitView, FileEntry, FileEntryView, LocalBranch, LocalBranchView, RemoteBranch,
    RemoteBranchView, Stage, Stash, StashView, StorageMode,
};
use crate::model;
use crate::outside::split_area;
use crate::text::{self, chars_of, concat, concat3, number, piece, split_lines, starts_with};
use crate::tree::{Row, RowView};
use vstd::prelude::*;

verus! {

// ---------------------------------------------------------------------------
// Styled text

/// A colour.
#[derive(Debug, Clone, Copy, PartialEq, Eq, Structural)]
pub enum Color {
    Red,
    Green,
    Yellow,
    Magenta,
    Cyan,
    White,
    DarkGray,
    Rgb(u8, u8, u8),
}

/// How a text looks.
#[derive(Debug, Clone, Copy, PartialEq, Eq)]
pub struct Style {
    pub fg: Option<Color>,
    pub bg: Option<Color>,
    pub bold: bool,
}

impl DeepView for Style {
    type V = Style;

    open spec fn deep_view(&self) -> Style {
        *self
    }
}

/// The look of a text without any style.
pub open spec fn no_style() -> Style {
    Style { fg: None, bg: None, bold: false }
}

/// A text in a colour.
pub open spec fn in_color(c: Color) -> Style {
    Style { fg: Some(c), bg: None, bold: false }
}

/// A bold text in a colour.
pub open spec fn bold_in(c: Color) -> Style {
    Style { fg: Some(c), bg: None, bold: true }
}

fn unstyled() -> (s: Style)
    ensures
        s == no_style(),
{
    Style { fg: None, bg: None, bold: false }
}

fn colored(c: Color) -> (s: Style)
    ensures
        s == in_color(c),
{
    Style { fg: Some(c), bg: None, bold: false }
}

fn emboldened(c: Color) -> (s: Style)
    ensures
        s == bold_in(c),
{
    Style { fg: Some(c), bg: None, bold: true }
}

/// A text in one style.
#[derive(Debug, Clone)]
pub struct Span {
    pub text: String,
    pub style: Style,
}

/// The view of a `Span`.
pub struct SpanView {
    pub text: Seq<char>,
    pub style: Style,
}

impl DeepView for Span {
    type V = SpanView;

    open spec fn deep_view(&self) -> SpanView {
        SpanView { text: self.text@, style: self.style }
    }
}

/// A text in a style.
pub open spec fn styled(text: Seq<char>, style: Style) -> SpanView {
    SpanView { text, style }
}

/// A text without a style.
pub open spec fn raw(text: Seq<char>) -> SpanView {
    styled(text, no_style())
}

fn style_text(text: &str, style: Style) -> (s: Span)
    ensures
        s.deep_view() == styled(text@, style),
{
    Span { text: text.to_string(), style }
}

fn raw_text(text: &str) -> (s: Span)
    ensures
        s.deep_view() == raw(text@),
{
    Span { text: text.to_string(), style: unstyled() }
}

// ---------------------------------------------------------------------------
// Lines

/// A text of at most `n` characters: where it is longer, its beginning and an
/// ellipsis.
pub open spec fn cut(s: Seq<char>, n: nat) -> Seq<char> {
    if s.len() <= n {
        s
    } else if n == 0 {
        "…"@
    } else {
        s.take(n - 1) + "…"@
    }
}

/// Shortens a text to at most `n` characters; for `n` zero the ellipsis is left.
pub fn truncate(s: &str, n: usize) -> (r: String)
    ensures
        r@ == cut(s@, n as nat),
        n > 0 ==> r@.len() <= n,
{
    proof {
        reveal_strlit("…");
    }
    let v = chars_of(s);
    if v.len() <= n {
        return s.to_string();
    }
    let keep: usize = if n == 0 { 0 } else { n - 1 };
    let head = piece(&v, 0, keep);
    let r = concat(head.as_str(), "…");
    proof {
        assert(head@ =~= s@.take(keep as int));
        assert(n == 0 ==> r@ =~= "…"@);
    }
    r
}

/// The letter and the colour of a row.
pub open spec fn mark(r: RowView) -> (char, Color) {
    if r.agg.conflict > 0 {
        ('U', Color::Red)
    } else if r.agg.untracked > 0 && r.agg.staged == 0 && r.agg.unstaged == 0 {
        ('?', Color::Red)
    } else {
        (
            if r.is_dir {
                'M'
            } else if r.agg.added > 0 {
                'A'
            } else if r.agg.deleted > 0 {
                'D'
            } else {
                'M'
            },
            if r.agg.unstaged > 0 || r.agg.untracked > 0 {
                if r.agg.staged > 0 {
                    Color::Yellow
                } else {
                    Color::Red
                }
            } else {
                Color::Green
            },
        )
    }
}

/// The letter and the colour of a row.
pub fn status_char_color(r: &Row) -> (m: (char, Color))
    ensures
        m == mark(r.deep_view()),
{
    if r.agg.conflict > 0 {
        return ('U', Color::Red);
    }
    if r.agg.untracked > 0 && r.agg.staged == 0 && r.agg.unstaged == 0 {
        return ('?', Color::Red);
    }
    let letter = if r.is_dir {
        'M'
    } else if r.agg.added > 0 {
        'A'
    } else if r.agg.deleted > 0 {
        'D'
    } else {
        'M'
    };
    let color = if r.agg.unstaged > 0 || r.agg.untracked > 0 {
        if r.agg.staged > 0 {
            Color::Yellow
        } else {
            Color::Red
        }
    } else {
        Color::Green
    };
    (letter, color)
}

/// How a storage is called.
pub open spec fn storage_name(m: StorageMode) -> SpanView {
    match m {
        StorageMode::Lfs => styled("LFS"@, in_color(Color::Yellow)),
        StorageMode::Git => styled("git"@, in_color(Color::DarkGray)),
    }
}

/// The storage that a file is to go to.
pub open spec fn storage_for(lfs: bool) -> StorageMode {
    if lfs {
        StorageMode::Lfs
    } else {
        StorageMode::Git
    }
}

/// What stands between the brackets of a badge: the storage, or how it changes.
pub open spec fn badge_inside(r: RowView, e: FileEntryView) -> Seq<SpanView> {
    let arrow = bold_in(Color::White);
    match (e.prev_storage, e.next_storage) {
        (Some(prev), Some(next)) => if prev == next {
            seq![storage_name(prev)]
        } else {
            seq![storage_name(prev), styled(" → "@, arrow), storage_name(next)]
        },
        (None, Some(next)) => seq![styled("+ "@, arrow), storage_name(next)],
        (Some(prev), None) => if e.index == Stage::Deleted {
            seq![styled("− "@, arrow), storage_name(prev)]
        } else {
            seq![storage_name(prev)]
        },
        (None, None) => {
            let name = storage_name(storage_for(r.lfs_tracked));
            if e.index == Stage::Untracked {
                seq![styled("+ "@, arrow), name]
            } else {
                seq![name]
            }
        },
    }
}

/// The badge behind the name of a file.
pub open spec fn badge(r: RowView, entry: Option<FileEntryView>) -> Seq<SpanView> {
    let bracket = in_color(Color::DarkGray);
    let inside = match entry {
        Some(e) => badge_inside(r, e),
        None => seq![storage_name(storage_for(r.lfs_tracked))],
    };
    seq![styled("["@, bracket)] + inside + seq![styled("]"@, bracket)]
}

fn mode_span(m: StorageMode) -> (s: Span)
    ensures
        s.deep_view() == storage_name(m),
{
    match m {
        StorageMode::Lfs => style_text("LFS", colored(Color::Yellow)),
        StorageMode::Git => style_text("git", colored(Color::DarkGray)),
    }
}

fn row_mode(lfs: bool) -> (m: StorageMode)
    ensures
        m == storage_for(lfs),
{
    if lfs {
        StorageMode::Lfs
    } else {
        StorageMode::Git
    }
}

/// The badge behind the name of a file.
pub fn storage_badge_spans(r: &Row, entry: Option<&FileEntry>) -> (spans: Vec<Span>)
    ensures
        spans.deep_view() == badge(
            r.deep_view(),
            match entry {
                Some(e) => Some(e.deep_view()),
                None => None,
            },
        ),
{
    let arrow = emboldened(Color::White);
    let bracket = colored(Color::DarkGray);
    let mut inside: Vec<Span> = match entry {
        None => vec![mode_span(row_mode(r.lfs_tracked))],
        Some(e) => match (e.prev_storage, e.next_storage) {
            (Some(prev), Some(next)) => if prev == next {
                vec![mode_span(prev)]
            } else {
                vec![mode_span(prev), style_text(" → ", arrow), mode_span(next)]
            },
            (None, Some(next)) => vec![style_text("+ ", arrow), mode_span(next)],
            (Some(prev), None) => if e.index == Stage::Deleted {
                vec![style_text("− ", arrow), mode_span(prev)]
            } else {
                vec![mode_span(prev)]
            },
            (None, None) => if e.index == Stage::Untracked {
                vec![style_text("+ ", arrow), mode_span(row_mode(r.lfs_tracked))]
            } else {
                vec![mode_span(row_mode(r.lfs_tracked))]
            },
        },
    };
    let ghost content = inside.deep_view();
    let mut spans = vec![style_text("[", bracket)];
    spans.append(&mut inside);
    spans.push(style_text("]", bracket));
    proof {
        match entry {
            Some(e) => assert(content =~= badge_inside(r.deep_view(), e.deep_view())),
            None => assert(content =~= seq![storage_name(storage_for(r.lfs_tracked))]),
        }
        assert(spans.deep_view() =~= seq![styled("["@, bracket)] + content + seq![
            styled("]"@, bracket),
        ]);
    }
    spans
}

/// The space before a name at a level.
pub open spec fn indent(level: nat) -> Seq<char>
    decreases level,
{
    if level == 0 {
        seq![]
    } else {
        indent((level - 1) as nat) + "  "@
    }
}

fn indentation(level: usize) -> (s: String)
    ensures
        s@ == indent(level as nat),
{
    let mut s = String::new();
    let mut i: usize = 0;
    assert(s@ =~= seq![]);
    while i < level
        invariant
            i <= level,
            s@ == indent(i as nat),
        decreases level - i,
    {
        s.append("  ");
        i += 1;
    }
    s
}

/// The line of a row.
pub open spec fn row_spans(r: RowView, entry: Option<FileEntryView>) -> Seq<SpanView> {
    let dim = in_color(Color::DarkGray);
    let (letter, color) = mark(r);
    let warn = if r.lfs_pointer_warn {
        seq!['!']
    } else {
        seq![' ']
    };
    if r.is_dir {
        seq![
            styled(seq![letter], in_color(color)),
            styled(warn, in_color(Color::Yellow)),
            raw(" "@),
            styled(indent(r.level), dim),
            styled(
                if r.expanded {
                    "v "@
                } else {
                    "> "@
                },
                dim,
            ),
            styled(r.name, dim),
            styled("/"@, dim),
        ]
    } else {
        seq![
            styled(seq![letter], bold_in(color)),
            styled(warn, bold_in(Color::Yellow)),
            raw(" "@),
            styled(indent(r.level), dim),
            styled("  "@, dim),
            styled(r.name, in_color(Color::White)),
            raw(" "@),
        ] + badge(r, entry)
    }
}

fn one_char(c: char) -> (s: String)
    ensures
        s@ == seq![c],
{
    let mut s = String::new();
    s.push(c);
    assert(s@ =~= seq![c]);
    s
}

/// The line of a row.
pub fn row_line(r: &Row, entry: Option<&FileEntry>) -> (spans: Vec<Span>)
    ensures
        spans.deep_view() == row_spans(
            r.deep_view(),
            match entry {
                Some(e) => Some(e.deep_view()),
                None => None,
            },
        ),
{
    let (ch, col) = status_char_color(r);
    let letter = one_char(ch);
    let warn = one_char(if r.lfs_pointer_warn { '!' } else { ' ' });
    let space = indentation(r.level);
    let dim = colored(Color::DarkGray);
    if r.is_dir {
        let arrow = if r.expanded { "v " } else { "> " };
        let spans = vec![
            style_text(letter.as_str(), colored(col)),
            style_text(warn.as_str(), colored(Color::Yellow)),
            raw_text(" "),
            style_text(space.as_str(), dim),
            style_text(arrow, dim),
            style_text(r.name.as_str(), dim),
            style_text("/", dim),
        ];
        assert(spans.deep_view() =~= row_spans(r.deep_view(), None));
        spans
    } else {
        let mut spans = vec![
            style_text(letter.as_str(), emboldened(col)),
            style_text(warn.as_str(), emboldened(Color::Yellow)),
            raw_text(" "),
            style_text(space.as_str(), dim),
            style_text("  ", dim),
            style_text(r.name.as_str(), colored(Color::White)),
            raw_text(" "),
        ];
        let ghost head = spans.deep_view();
        let mut tail = storage_badge_spans(r, entry);
        let ghost back = tail.deep_view();
        spans.append(&mut tail);
        proof {
            let v = r.deep_view();
            assert(head =~= seq![
                styled(seq![mark(v).0], bold_in(mark(v).1)),
                styled(warn@, bold_in(Color::Yellow)),
                raw(" "@),
                styled(indent(v.level), in_color(Color::DarkGray)),
                styled("  "@, in_color(Color::DarkGray)),
                styled(v.name, in_color(Color::White)),
                raw(" "@),
            ]);
            assert(spans.deep_view() =~= head + back);
        }
        spans
    }
}

/// The background of the line of a row.
pub open spec fn row_bg(r: RowView, selected: bool) -> Option<Color> {
    let mixed = r.agg.unstaged > 0 || r.agg.untracked > 0;
    if r.agg.staged == 0 || r.is_dir && mixed {
        if selected {
            Some(Color::DarkGray)
        } else {
            None
        }
    } else if mixed {
        if selected {
            Some(Color::Rgb(90, 75, 25))
        } else {
            Some(Color::Rgb(55, 45, 15))
        }
    } else if selected {
        Some(Color::Rgb(40, 90, 50))
    } else {
        Some(Color::Rgb(20, 45, 25))
    }
}

/// The background of the line of a row.
pub fn row_background(r: &Row, selected: bool) -> (c: Option<Color>)
    ensures
        c == row_bg(r.deep_view(), selected),
{
    let mixed = r.agg.unstaged > 0 || r.agg.untracked > 0;
    if r.agg.staged > 0 {
        if r.is_dir {
            if mixed {
                if selected {
                    Some(Color::DarkGray)
                } else {
                    None
                }
            } else if selected {
                Some(Color::Rgb(40, 90, 50))
            } else {
                Some(Color::Rgb(20, 45, 25))
            }
        } else if mixed {
            if selected {
                Some(Color::Rgb(90, 75, 25))
            } else {
                Some(Color::Rgb(55, 45, 15))
            }
        } else if selected {
            Some(Color::Rgb(40, 90, 50))
        } else {
            Some(Color::Rgb(20, 45, 25))
        }
    } else if selected {
        Some(Color::DarkGray)
    } else {
        None
    }
}

/// How a line of a difference looks.
pub open spec fn diff_style(l: Seq<char>) -> Style {
    if text::begins(l, "+++"@) || text::begins(l, "---"@) {
        bold_in(Color::White)
    } else if text::begins(l, "+"@) {
        in_color(Color::Green)
    } else if text::begins(l, "-"@) {
        in_color(Color::Red)
    } else if text::begins(l, "@@"@) {
        in_color(Color::Cyan)
    } else if text::begins(l, "diff "@) || text::begins(l, "index "@) {
        in_color(Color::DarkGray)
    } else {
        no_style()
    }
}

/// A line of a difference.
pub fn diff_line(l: &str) -> (spans: Vec<Span>)
    ensures
        spans.deep_view() == seq![styled(l@, diff_style(l@))],
{
    let style = if starts_with(l, "+++") || starts_with(l, "---") {
        emboldened(Color::White)
    } else if starts_with(l, "+") {
        colored(Color::Green)
    } else if starts_with(l, "-") {
        colored(Color::Red)
    } else if starts_with(l, "@@") {
        colored(Color::Cyan)
    } else if starts_with(l, "diff ") || starts_with(l, "index ") {
        colored(Color::DarkGray)
    } else {
        unstyled()
    };
    let spans = vec![style_text(l, style)];
    assert(spans.deep_view() =~= seq![styled(l@, diff_style(l@))]);
    spans
}

/// The lines of a difference.
pub open spec fn diff_spans(s: Seq<char>) -> Seq<Seq<SpanView>> {
    text::lines(s).map_values(|l: Seq<char>| seq![styled(l, diff_style(l))])
}

fn diff_lines(s: &str) -> (r: Vec<Vec<Span>>)
    ensures
        r.deep_view() == diff_spans(s@),
{
    let list = split_lines(s);
    let ghost all = list.deep_view();
    let mut r: Vec<Vec<Span>> = Vec::new();
    let mut i: usize = 0;
    while i < list.len()
        invariant
            i <= list@.len(),
            all == list.deep_view(),
            r@.len() == i,
            forall|j: int|
                0 <= j < i ==> (#[trigger] r@[j]).deep_view() == seq![
                    styled(all[j], diff_style(all[j])),
                ],
        decreases list@.len() - i,
    {
        assert(all[i as int] == list@[i as int]@);
        r.push(diff_line(list[i].as_str()));
        i += 1;
    }
    assert(r.deep_view() =~= diff_spans(s@));
    r
}

// ---------------------------------------------------------------------------
// Widgets

/// A rectangle on the screen.
#[derive(Debug, Clone, Copy, PartialEq, Eq, Structural)]
pub struct Area {
    pub x: u16,
    pub y: u16,
    pub width: u16,
    pub height: u16,
}

impl DeepView for Area {
    type V = Area;

    open spec fn deep_view(&self) -> Area {
        *self
    }
}

/// A border all around, with a title if there is one.
#[derive(Debug)]
pub struct Frame {
    pub title: Option<String>,
    pub border: Style,
}

/// The view of a `Frame`.
pub struct FrameView {
    pub title: Option<Seq<char>>,
    pub border: Style,
}

impl DeepView for Frame {
    type V = FrameView;

    open spec fn deep_view(&self) -> FrameView {
        FrameView { title: self.title.deep_view(), border: self.border }
    }
}

/// An item of a list.
#[derive(Debug)]
pub struct Item {
    pub line: Vec<Span>,
    pub bg: Option<Color>,
}

/// The view of an `Item`.
pub struct ItemView {
    pub line: Seq<SpanView>,
    pub bg: Option<Color>,
}

impl DeepView for Item {
    type V = ItemView;

    open spec fn deep_view(&self) -> ItemView {
        ItemView { line: self.line.deep_view(), bg: self.bg }
    }
}

/// Something that is drawn.
#[allow(inconsistent_fields)]
#[derive(Debug)]
pub enum Widget {
    /// Wipes the area.
    Clear,
    /// The titles of the views with a line below them.
    Tabs {
        titles: Vec<String>,
        selected: Option<usize>,
        style: Style,
        highlight: Style,
        divider: Span,
        border: Style,
    },
    /// Lines of text.
    Text {
        lines: Vec<Vec<Span>>,
        style: Style,
        right: bool,
        wrap: bool,
        scroll: u16,
        frame: Option<Frame>,
    },
    /// A list with one item selected.
    List {
        items: Vec<Item>,
        selected: usize,
        highlight: Style,
        symbol: String,
        frame: Frame,
    },
    /// Just a border.
    Border(Frame),
}

/// The view of a `Widget`.
#[allow(inconsistent_fields)]
pub enum WidgetView {
    Clear,
    Tabs {
        titles: Seq<Seq<char>>,
        selected: Option<usize>,
        style: Style,
        highlight: Style,
        divider: SpanView,
        border: Style,
    },
    Text {
        lines: Seq<Seq<SpanView>>,
        style: Style,
        right: bool,
        wrap: bool,
        scroll: u16,
        frame: Option<FrameView>,
    },
    List {
        items: Seq<ItemView>,
        selected: usize,
        highlight: Style,
        symbol: Seq<char>,
        frame: FrameView,
    },
    Border(FrameView),
}

impl DeepView for Widget {
    type V = WidgetView;

    open spec fn deep_view(&self) -> WidgetView {
        match *self {
            Widget::Clear => WidgetView::Clear,
            Widget::Tabs { titles, selected, style, highlight, divider, border } => {
                WidgetView::Tabs {
                    titles: titles.deep_view(),
                    selected,
                    style,
                    highlight,
                    divider: divider.deep_view(),
                    border,
                }
            },
            Widget::Text { lines, style, right, wrap, scroll, frame } => WidgetView::Text {
                lines: lines.deep_view(),
                style,
                right,
                wrap,
                scroll,
                frame: frame.deep_view(),
            },
            Widget::List { items, selected, highlight, symbol, frame } => WidgetView::List {
                items: items.deep_view(),
                selected,
                highlight,
                symbol: symbol@,
                frame: frame.deep_view(),
            },
            Widget::Border(f) => WidgetView::Border(f.deep_view()),
        }
    }
}

/// A widget and where it is drawn.
#[derive(Debug)]
pub struct Draw {
    pub area: Area,
    pub widget: Widget,
}

/// The view of a `Draw`.
pub struct DrawView {
    pub area: Area,
    pub widget: WidgetView,
}

impl DeepView for Draw {
    type V = DrawView;

    open spec fn deep_view(&self) -> DrawView {
        DrawView { area: self.area, widget: self.widget.deep_view() }
    }
}

/// A widget in an area.
pub open spec fn at(area: Area, widget: WidgetView) -> DrawView {
    DrawView { area, widget }
}

// Parts of widgets

/// The border of a part of a view, which shows whether it has the focus.
pub open spec fn focus_frame(title: Seq<char>, focused: bool) -> FrameView {
    FrameView {
        title: Some(title),
        border: in_color(
            if focused {
                Color::Cyan
            } else {
                Color::DarkGray
            },
        ),
    }
}

/// Lines of text without anything else.
pub open spec fn plain(lines: Seq<Seq<SpanView>>) -> WidgetView {
    WidgetView::Text {
        lines,
        style: no_style(),
        right: false,
        wrap: false,
        scroll: 0,
        frame: None,
    }
}

/// A line of text in a border.
pub open spec fn note(s: Seq<char>, frame: FrameView) -> WidgetView {
    WidgetView::Text {
        lines: seq![seq![raw(s)]],
        style: no_style(),
        right: false,
        wrap: false,
        scroll: 0,
        frame: Some(frame),
    }
}

/// A difference that can be scrolled, in a border.
pub open spec fn details(s: Seq<char>, scroll: u16, frame: FrameView) -> WidgetView {
    WidgetView::Text {
        lines: diff_spans(s),
        style: no_style(),
        right: false,
        wrap: true,
        scroll,
        frame: Some(frame),
    }
}

/// How the selected item of a list looks.
pub open spec fn chosen_style() -> Style {
    Style { fg: None, bg: Some(Color::DarkGray), bold: true }
}

/// A list of items; where there is none, a line that says so.
pub open spec fn listing(
    items: Seq<ItemView>,
    none: Seq<char>,
    selected: usize,
    highlight: Style,
    frame: FrameView,
) -> WidgetView {
    if items.len() == 0 {
        note(none, frame)
    } else {
        WidgetView::List { items, selected, highlight, symbol: "> "@, frame }
    }
}

/// An item with nothing behind it.
pub open spec fn plain_item(line: Seq<SpanView>) -> ItemView {
    ItemView { line, bg: None }
}

/// A title with a number in it.
pub open spec fn counted(before: Seq<char>, n: nat) -> Seq<char> {
    before + text::decimal(n) + ") "@
}

fn count_title(before: &str, n: usize) -> (s: String)
    ensures
        s@ == counted(before@, n as nat),
{
    concat3(before, number(n).as_str(), ") ")
}

fn make_frame(title: &str, focused: bool) -> (f: Frame)
    ensures
        f.deep_view() == focus_frame(title@, focused),
{
    Frame {
        title: Some(title.to_string()),
        border: colored(if focused { Color::Cyan } else { Color::DarkGray }),
    }
}

fn make_plain(lines: Vec<Vec<Span>>) -> (w: Widget)
    ensures
        w.deep_view() == plain(lines.deep_view()),
{
    Widget::Text {
        lines,
        style: unstyled(),
        right: false,
        wrap: false,
        scroll: 0,
        frame: None,
    }
}

fn make_note(s: &str, frame: Frame) -> (w: Widget)
    ensures
        w.deep_view() == note(s@, frame.deep_view()),
{
    let line = vec![raw_text(s)];
    assert(line.deep_view() =~= seq![raw(s@)]);
    let lines = vec![line];
    assert(lines.deep_view() =~= seq![seq![raw(s@)]]);
    Widget::Text {
        lines,
        style: unstyled(),
        right: false,
        wrap: false,
        scroll: 0,
        frame: Some(frame),
    }
}

fn make_details(s: &str, scroll: u16, frame: Frame) -> (w: Widget)
    ensures
        w.deep_view() == details(s@, scroll, frame.deep_view()),
{
    Widget::Text {
        lines: diff_lines(s),
        style: unstyled(),
        right: false,
        wrap: true,
        scroll,
        frame: Some(frame),
    }
}

fn make_listing(
    items: Vec<Item>,
    none: &str,
    selected: usize,
    highlight: Style,
    frame: Frame,
) -> (w: Widget)
    ensures
        w.deep_view() == listing(
            items.deep_view(),
            none@,
            selected,
            highlight,
            frame.deep_view(),
        ),
{
    if items.len() == 0 {
        return make_note(none, frame);
    }
    Widget::List { items, selected, highlight, symbol: "> ".to_string(), frame }
}

fn chosen() -> (s: Style)
    ensures
        s == chosen_style(),
{
    Style { fg: None, bg: Some(Color::DarkGray), bold: true }
}

// The lists

/// The line of a commit.
pub open spec fn commit_item() -> spec_fn(CommitView) -> ItemView {
    |c: CommitView|
        plain_item(
            seq![
                styled(c.short, in_color(Color::Yellow)),
                raw(" "@),
                styled(c.date, in_color(Color::DarkGray)),
                raw(" "@),
                styled(cut(c.author, 14), in_color(Color::Magenta)),
                raw(" "@),
                styled(c.subject, in_color(Color::White)),
            ],
        )
}

fn commit_items(list: &Vec<Commit>) -> (items: Vec<Item>)
    ensures
        items.deep_view() == list.deep_view().map_values(commit_item()),
{
    let ghost all = list.deep_view();
    let mut items: Vec<Item> = Vec::new();
    let mut i: usize = 0;
    while i < list.len()
        invariant
            i <= list@.len(),
            all == list.deep_view(),
            items@.len() == i,
            forall|j: int|
                0 <= j < i ==> (#[trigger] items@[j]).deep_view() == commit_item()(all[j]),
        decreases list@.len() - i,
    {
        let c = &list[i];
        let line = vec![
            style_text(c.short.as_str(), colored(Color::Yellow)),
            raw_text(" "),
            style_text(c.date.as_str(), colored(Color::DarkGray)),
            raw_text(" "),
            style_text(truncate(c.author.as_str(), 14).as_str(), colored(Color::Magenta)),
            raw_text(" "),
            style_text(c.subject.as_str(), colored(Color::White)),
        ];
        proof {
            assert(all[i as int] == c.deep_view());
            assert(line.deep_view() =~= commit_item()(all[i as int]).line);
        }
        items.push(Item { line, bg: None });
        i += 1;
    }
    assert(items.deep_view() =~= all.map_values(commit_item()));
    items
}

/// The line of a stash.
pub open spec fn stash_item() -> spec_fn(StashView) -> ItemView {
    |s: StashView|
        plain_item(
            seq![
                styled(s.reference, in_color(Color::Yellow)),
                raw("  "@),
                styled(s.subject, in_color(Color::White)),
            ],
        )
}

fn stash_items(list: &Vec<Stash>) -> (items: Vec<Item>)
    ensures
        items.deep_view() == list.deep_view().map_values(stash_item()),
{
    let ghost all = list.deep_view();
    let mut items: Vec<Item> = Vec::new();
    let mut i: usize = 0;
    while i < list.len()
        invariant
            i <= list@.len(),
            all == list.deep_view(),
            items@.len() == i,
            forall|j: int|
                0 <= j < i ==> (#[trigger] items@[j]).deep_view() == stash_item()(all[j]),
        decreases list@.len() - i,
    {
        let s = &list[i];
        let line = vec![
            style_text(s.reference.as_str(), colored(Color::Yellow)),
            raw_text("  "),
            style_text(s.subject.as_str(), colored(Color::White)),
        ];
        proof {
            assert(all[i as int] == s.deep_view());
            assert(line.deep_view() =~= stash_item()(all[i as int]).line);
        }
        items.push(Item { line, bg: None });
        i += 1;
    }
    assert(items.deep_view() =~= all.map_values(stash_item()));
    items
}

/// The line of a local branch; a star marks the current one.
pub open spec fn local_item() -> spec_fn(LocalBranchView) -> ItemView {
    |b: LocalBranchView|
        plain_item(
            seq![
                raw(if b.is_head { "* "@ } else { "  "@ }),
                styled(b.name, in_color(Color::White)),
                raw("  "@),
                styled(b.short, in_color(Color::Yellow)),
                raw(" "@),
                styled(b.subject, in_color(Color::DarkGray)),
            ],
        )
}

fn local_items(list: &Vec<LocalBranch>) -> (items: Vec<Item>)
    ensures
        items.deep_view() == list.deep_view().map_values(local_item()),
{
    let ghost all = list.deep_view();
    let mut items: Vec<Item> = Vec::new();
    let mut i: usize = 0;
    while i < list.len()
        invariant
            i <= list@.len(),
            all == list.deep_view(),
            items@.len() == i,
            forall|j: int|
                0 <= j < i ==> (#[trigger] items@[j]).deep_view() == local_item()(all[j]),
        decreases list@.len() - i,
    {
        let b = &list[i];
        let line = vec![
            raw_text(if b.is_head { "* " } else { "  " }),
            style_text(b.name.as_str(), colored(Color::White)),
            raw_text("  "),
            style_text(b.short.as_str(), colored(Color::Yellow)),
            raw_text(" "),
            style_text(b.subject.as_str(), colored(Color::DarkGray)),
        ];
        proof {
            assert(all[i as int] == b.deep_view());
            assert(line.deep_view() =~= local_item()(all[i as int]).line);
        }
        items.push(Item { line, bg: None });
        i += 1;
    }
    assert(items.deep_view() =~= all.map_values(local_item()));
    items
}

/// The line of a remote branch.
pub open spec fn remote_item() -> spec_fn(RemoteBranchView) -> ItemView {
    |b: RemoteBranchView|
        plain_item(
            seq![
                styled(b.remote + "/"@ + b.name, in_color(Color::White)),
                raw("  "@),
                styled(b.short, in_color(Color::Yellow)),
                raw(" "@),
                styled(b.subject, in_color(Color::DarkGray)),
            ],
        )
}

fn remote_items(list: &Vec<RemoteBranch>) -> (items: Vec<Item>)
    ensures
        items.deep_view() == list.deep_view().map_values(remote_item()),
{
    let ghost all = list.deep_view();
    let mut items: Vec<Item> = Vec::new();
    let mut i: usize = 0;
    while i < list.len()
        invariant
            i <= list@.len(),
            all == list.deep_view(),
            items@.len() == i,
            forall|j: int|
                0 <= j < i ==> (#[trigger] items@[j]).deep_view() == remote_item()(all[j]),
        decreases list@.len() - i,
    {
        let b = &list[i];
        let line = vec![
            style_text(concat3(b.remote.as_str(), "/", b.name.as_str()).as_str(), colored(Color::White)),
            raw_text("  "),
            style_text(b.short.as_str(), colored(Color::Yellow)),
            raw_text(" "),
            style_text(b.subject.as_str(), colored(Color::DarkGray)),
        ];
        proof {
            assert(all[i as int] == b.deep_view());
            assert(line.deep_view() =~= remote_item()(all[i as int]).line);
        }
        items.push(Item { line, bg: None });
        i += 1;
    }
    assert(items.deep_view() =~= all.map_values(remote_item()));
    items
}

/// The entry that a row stands for.
pub open spec fn entry_of(r: RowView, entries: Seq<FileEntryView>) -> Option<FileEntryView> {
    match r.entry_index {
        Some(i) => if i < entries.len() {
            Some(entries[i as int])
        } else {
            None
        },
        None => None,
    }
}

/// The line of the row at `i`.
pub open spec fn row_item(app: AppView, i: int) -> ItemView {
    ItemView {
        line: row_spans(app.rows[i], entry_of(app.rows[i], app.entries)),
        bg: row_bg(app.rows[i], i == app.cursor),
    }
}

fn row_items(app: &App) -> (items: Vec<Item>)
    ensures
        items.deep_view() == Seq::new(
            app.deep_view().rows.len(),
            |i: int| row_item(app.deep_view(), i),
        ),
{
    let ghost v = app.deep_view();
    let mut items: Vec<Item> = Vec::new();
    let mut i: usize = 0;
    while i < app.rows.len()
        invariant
            i <= app.rows@.len(),
            v == app.deep_view(),
            items@.len() == i,
            forall|j: int| 0 <= j < i ==> (#[trigger] items@[j]).deep_view() == row_item(v, j),
        decreases app.rows@.len() - i,
    {
        let r = &app.rows[i];
        let entry = match r.entry_index {
            Some(k) => if k < app.entries.len() {
                Some(&app.entries[k])
            } else {
                None
            },
            None => None,
        };
        proof {
            assert(v.rows[i as int] == r.deep_view());
            if let Some(k) = r.entry_index {
                if k < app.entries@.len() {
                    assert(v.entries[k as int] == app.entries@[k as int].deep_view());
                }
            }
        }
        items.push(Item { line: row_line(r, entry), bg: row_background(r, i == app.cursor) });
        i += 1;
    }
    assert(items.deep_view() =~= Seq::new(v.rows.len(), |i: int| row_item(v, i)));
    items
}

// ---------------------------------------------------------------------------
// The views

/// The titles of the views. The branches have none.
pub open spec fn tabs(tab: Tab) -> WidgetView {
    WidgetView::Tabs {
        titles: seq!["[1] Status"@, "[2] Stash"@, "[3] Log"@],
        selected: match tab {
            Tab::Status => Some(0),
            Tab::Stash => Some(1),
            Tab::Log => Some(2),
            Tab::Branches => None,
        },
        style: in_color(Color::DarkGray),
        highlight: bold_in(Color::Cyan),
        divider: styled("│"@, in_color(Color::DarkGray)),
        border: in_color(Color::DarkGray),
    }
}

/// The titles of the views.
pub fn render_tabs(app: &App) -> (w: Widget)
    ensures
        w.deep_view() == tabs(app.deep_view().tab),
{
    let titles = text::words(&["[1] Status", "[2] Stash", "[3] Log"]);
    assert(titles.deep_view() =~= seq!["[1] Status"@, "[2] Stash"@, "[3] Log"@]);
    Widget::Tabs {
        titles,
        selected: match app.tab {
            Tab::Status => Some(0),
            Tab::Stash => Some(1),
            Tab::Log => Some(2),
            Tab::Branches => None,
        },
        style: colored(Color::DarkGray),
        highlight: emboldened(Color::Cyan),
        divider: style_text("│", colored(Color::DarkGray)),
        border: colored(Color::DarkGray),
    }
}

/// What the header counts.
pub open spec fn header_info(app: AppView) -> Seq<char> {
    match app.tab {
        Tab::Status => "  [staged: "@ + text::decimal(model::staged_number(app.entries, false))
            + " git, "@ + text::decimal(model::staged_number(app.entries, true)) + " LFS]"@,
        Tab::Stash => "  ["@ + text::decimal(app.stash.stashes.len()) + " stashes]"@,
        Tab::Log => "  ["@ + text::decimal(app.log.commits.len()) + " commits]"@,
        Tab::Branches => "  ["@ + text::decimal(app.branches.locals.len()) + " branches]"@,
    }
}

/// The branch, its upstream and what the view holds.
pub open spec fn header(app: AppView) -> WidgetView {
    WidgetView::Text {
        lines: seq![
            seq![
                raw(" branch: "@),
                styled(app.branch, bold_in(Color::Cyan)),
                raw("  upstream: "@),
                styled(
                    match app.upstream {
                        Some(up) => up,
                        None => "(none)"@,
                    },
                    in_color(Color::Magenta),
                ),
                raw(header_info(app)),
            ],
        ],
        style: no_style(),
        right: true,
        wrap: false,
        scroll: 0,
        frame: None,
    }
}

/// A staged count in words.
fn staged_words(before: &str, app: &App, after: &str) -> (s: String)
    ensures
        s@ == before@ + text::decimal(model::staged_number(app.deep_view().entries, false))
            + " git, "@ + text::decimal(model::staged_number(app.deep_view().entries, true))
            + after@,
{
    let (git_n, lfs_n) = app.staged_counts();
    let mut s = concat3(before, number(git_n).as_str(), " git, ");
    s.append(number(lfs_n).as_str());
    s.append(after);
    s
}

/// The branch, its upstream and what the view holds.
pub fn render_header(app: &App) -> (w: Widget)
    ensures
        w.deep_view() == header(app.deep_view()),
{
    let up = match &app.upstream {
        Some(u) => u.clone(),
        None => "(none)".to_string(),
    };
    let info = match app.tab {
        Tab::Status => staged_words("  [staged: ", app, " LFS]"),
        Tab::Stash => concat3("  [", number(app.stash.stashes.len()).as_str(), " stashes]"),
        Tab::Log => concat3("  [", number(app.log.commits.len()).as_str(), " commits]"),
        Tab::Branches => concat3("  [", number(app.branches.locals.len()).as_str(), " branches]"),
    };
    let line = vec![
        raw_text(" branch: "),
        style_text(app.branch.as_str(), emboldened(Color::Cyan)),
        raw_text("  upstream: "),
        style_text(up.as_str(), colored(Color::Magenta)),
        raw_text(info.as_str()),
    ];
    let ghost spans = line.deep_view();
    let lines = vec![line];
    proof {
        let v = app.deep_view();
        assert(spans =~= header(v)->Text_lines[0]);
        assert(lines.deep_view() =~= header(v)->Text_lines);
    }
    Widget::Text {
        lines,
        style: unstyled(),
        right: true,
        wrap: false,
        scroll: 0,
        frame: None,
    }
}

/// The left half of the view.
pub open spec fn left(app: AppView) -> WidgetView {
    match app.tab {
        Tab::Status => listing(
            Seq::new(app.rows.len(), |i: int| row_item(app, i)),
            "clean — nothing to commit"@,
            app.cursor,
            Style { fg: None, bg: None, bold: true },
            focus_frame(counted(" Files ("@, app.rows.len()), app.focus == Focus::Files),
        ),
        Tab::Stash => listing(
            app.stash.stashes.map_values(stash_item()),
            "(no stashes)"@,
            app.stash.cursor,
            chosen_style(),
            focus_frame(
                counted(" Stashes ("@, app.stash.stashes.len()),
                app.stash.focus == StashFocus::List,
            ),
        ),
        Tab::Log => listing(
            app.log.commits.map_values(commit_item()),
            "(no commits)"@,
            app.log.cursor,
            chosen_style(),
            focus_frame(
                counted(" Commits ("@, app.log.commits.len()),
                app.log.focus == LogFocus::List,
            ),
        ),
        Tab::Branches => listing(
            app.branches.locals.map_values(local_item()),
            "(no branches)"@,
            app.branches.local_cursor,
            chosen_style(),
            focus_frame(
                counted(" Local ("@, app.branches.locals.len()),
                app.branches.focus == BranchFocus::Local,
            ),
        ),
    }
}

/// The right half of the view.
pub open spec fn right(app: AppView) -> WidgetView {
    match app.tab {
        Tab::Status => details(
            app.diff_text,
            app.diff_scroll,
            focus_frame(" Diff "@, app.focus == Focus::Diff),
        ),
        Tab::Stash => details(
            app.stash.details_text,
            app.stash.details_scroll,
            focus_frame(
                match app.current_stash() {
                    Some(s) => " "@ + s.reference + " "@,
                    None => " Details "@,
                },
                app.stash.focus == StashFocus::Details,
            ),
        ),
        Tab::Log => details(
            app.log.details_text,
            app.log.details_scroll,
            focus_frame(
                if app.log.cursor < app.log.commits.len() {
                    " "@ + app.log.commits[app.log.cursor as int].short + " "@
                } else {
                    " Details "@
                },
                app.log.focus == LogFocus::Details,
            ),
        ),
        Tab::Branches => listing(
            app.branches.remotes.map_values(remote_item()),
            "(no branches)"@,
            app.branches.remote_cursor,
            chosen_style(),
            focus_frame(
                counted(" Remote ("@, app.branches.remotes.len()),
                app.branches.focus == BranchFocus::Remote,
            ),
        ),
    }
}

fn render_files(app: &App) -> (w: Widget)
    requires
        app.deep_view().tab == Tab::Status,
    ensures
        w.deep_view() == left(app.deep_view()),
{
    let title = count_title(" Files (", app.rows.len());
    let frame = make_frame(title.as_str(), app.focus == Focus::Files);
    let highlight = Style { fg: None, bg: None, bold: true };
    make_listing(row_items(app), "clean — nothing to commit", app.cursor, highlight, frame)
}

fn render_diff(app: &App) -> (w: Widget)
    requires
        app.deep_view().tab == Tab::Status,
    ensures
        w.deep_view() == right(app.deep_view()),
{
    let frame = make_frame(" Diff ", app.focus == Focus::Diff);
    make_details(app.diff_text.as_str(), app.diff_scroll, frame)
}

fn render_stash_list(app: &App) -> (w: Widget)
    requires
        app.deep_view().tab == Tab::Stash,
    ensures
        w.deep_view() == left(app.deep_view()),
{
    let title = count_title(" Stashes (", app.stash.stashes.len());
    let frame = make_frame(title.as_str(), app.stash.focus == StashFocus::List);
    make_listing(
        stash_items(&app.stash.stashes),
        "(no stashes)",
        app.stash.cursor,
        chosen(),
        frame,
    )
}

fn render_stash_details(app: &App) -> (w: Widget)
    requires
        app.deep_view().tab == Tab::Stash,
    ensures
        w.deep_view() == right(app.deep_view()),
{
    let title = if app.stash.cursor < app.stash.stashes.len() {
        let s = &app.stash.stashes[app.stash.cursor];
        assert(app.deep_view().stash.stashes[app.stash.cursor as int] == s.deep_view());
        concat3(" ", s.reference.as_str(), " ")
    } else {
        " Details ".to_string()
    };
    let frame = make_frame(title.as_str(), app.stash.focus == StashFocus::Details);
    make_details(app.stash.details_text.as_str(), app.stash.details_scroll, frame)
}

fn render_log_list(app: &App) -> (w: Widget)
    requires
        app.deep_view().tab == Tab::Log,
    ensures
        w.deep_view() == left(app.deep_view()),
{
    let title = count_title(" Commits (", app.log.commits.len());
    let frame = make_frame(title.as_str(), app.log.focus == LogFocus::List);
    make_listing(commit_items(&app.log.commits), "(no commits)", app.log.cursor, chosen(), frame)
}

fn render_log_details(app: &App) -> (w: Widget)
    requires
        app.deep_view().tab == Tab::Log,
    ensures
        w.deep_view() == right(app.deep_view()),
{
    let title = if app.log.cursor < app.log.commits.len() {
        let c = &app.log.commits[app.log.cursor];
        assert(app.deep_view().log.commits[app.log.cursor as int] == c.deep_view());
        concat3(" ", c.short.as_str(), " ")
    } else {
        " Details ".to_string()
    };
    let frame = make_frame(title.as_str(), app.log.focus == LogFocus::Details);
    make_details(app.log.details_text.as_str(), app.log.details_scroll, frame)
}

fn render_locals(app: &App) -> (w: Widget)
    requires
        app.deep_view().tab == Tab::Branches,
    ensures
        w.deep_view() == left(app.deep_view()),
{
    let title = count_title(" Local (", app.branches.locals.len());
    let frame = make_frame(title.as_str(), app.branches.focus == BranchFocus::Local);
    make_listing(
        local_items(&app.branches.locals),
        "(no branches)",
        app.branches.local_cursor,
        chosen(),
        frame,
    )
}

fn render_remotes(app: &App) -> (w: Widget)
    requires
        app.deep_view().tab == Tab::Branches,
    ensures
        w.deep_view() == right(app.deep_view()),
{
    let title = count_title(" Remote (", app.branches.remotes.len());
    let frame = make_frame(title.as_str(), app.branches.focus == BranchFocus::Remote);
    make_listing(
        remote_items(&app.branches.remotes),
        "(no branches)",
        app.branches.remote_cursor,
        chosen(),
        frame,
    )
}

/// The two halves of the view.
pub fn render_main(app: &App) -> (r: (Widget, Widget))
    ensures
        r.0.deep_view() == left(app.deep_view()),
        r.1.deep_view() == right(app.deep_view()),
{
    match app.tab {
        Tab::Status => (render_files(app), render_diff(app)),
        Tab::Stash => (render_stash_list(app), render_stash_details(app)),
        Tab::Log => (render_log_list(app), render_log_details(app)),
        Tab::Branches => (render_locals(app), render_remotes(app)),
    }
}

// ---------------------------------------------------------------------------
// The footer

/// The time between two times.
pub open spec fn since(now: u64, then: u64) -> nat {
    if now >= then {
        (now - then) as nat
    } else {
        0
    }
}

/// The sign that turns while a job runs: ten of them, each for 80 milliseconds.
pub open spec fn spinner(nanoseconds: nat) -> Seq<char> {
    let i = nanoseconds / 1_000_000 / 80 % 10;
    if i == 0 {
        "⠋"@
    } else if i == 1 {
        "⠙"@
    } else if i == 2 {
        "⠹"@
    } else if i == 3 {
        "⠸"@
    } else if i == 4 {
        "⠼"@
    } else if i == 5 {
        "⠴"@
    } else if i == 6 {
        "⠦"@
    } else if i == 7 {
        "⠧"@
    } else if i == 8 {
        "⠇"@
    } else {
        "⠏"@
    }
}

fn elapsed(now: u64, then: u64) -> (r: u64)
    ensures
        r == since(now, then),
{
    if now >= then {
        now - then
    } else {
        0
    }
}

fn spin(nanoseconds: u64) -> (s: &'static str)
    ensures
        s@ == spinner(nanoseconds as nat),
{
    let i: u64 = nanoseconds / 1_000_000 / 80 % 10;
    if i == 0 {
        "⠋"
    } else if i == 1 {
        "⠙"
    } else if i == 2 {
        "⠹"
    } else if i == 3 {
        "⠸"
    } else if i == 4 {
        "⠼"
    } else if i == 5 {
        "⠴"
    } else if i == 6 {
        "⠦"
    } else if i == 7 {
        "⠧"
    } else if i == 8 {
        "⠇"
    } else {
        "⠏"
    }
}

/// The keys that can be pressed.
pub open spec fn hints(app: AppView) -> Seq<char> {
    match (app.modal, app.tab) {
        (ModalView::Commit(_), _) => " Enter/Ctrl-S commit  Ctrl-A amend  Esc cancel"@,
        (ModalView::Push(_), _) => " y/Enter confirm  ↑↓ pick  Esc cancel"@,
        (ModalView::Confirm(_), _) => " y confirm  n/Esc cancel"@,
        (ModalView::NewBranch(_), _) => " Enter create  Esc cancel"@,
        (ModalView::Nothing, Tab::Status) => match app.focus {
            Focus::Files => " 1/2/3 tab  ↑↓ nav  →/← expand/collapse  Tab diff  Space stage  a all  u unstage  d discard  c commit  P push  r refresh  q quit"@,
            Focus::Diff => " 1/2/3 tab  ↑↓ scroll  PgUp/PgDn  Home/End  ←/Esc back  r refresh  q quit"@,
        },
        (ModalView::Nothing, Tab::Stash) => match app.stash.focus {
            StashFocus::List => " 1/2/3 tab  ↑↓ nav  Home/End  Enter/→ details  a apply  p pop  d drop  r refresh  q quit"@,
            StashFocus::Details => " 1/2/3 tab  ↑↓ scroll  PgUp/PgDn  Home/End  ←/Esc back  q quit"@,
        },
        (ModalView::Nothing, Tab::Log) => match app.log.focus {
            LogFocus::List => " 1/2/3 tab  ↑↓ nav  Home/End  Enter/→ details  r refresh  q quit"@,
            LogFocus::Details => " 1/2/3 tab  ↑↓ scroll  PgUp/PgDn  Home/End  ←/Esc back  q quit"@,
        },
        (ModalView::Nothing, Tab::Branches) => " 1/2/3 tab  ↑↓ nav  Tab switch  Enter checkout  n new  d delete  D force-delete  r refresh  q quit"@,
    }
}

/// The last line: the job that runs, with the seconds it has taken; else a
/// message that is not five seconds old; else the keys.
pub open spec fn footer(app: AppView, seconds: Seq<char>) -> Seq<SpanView> {
    match app.pending {
        Some(p) => seq![
            raw(" "@),
            styled(spinner(since(app.clock, p.started)), bold_in(Color::Cyan)),
            raw(" "@),
            styled(p.label, in_color(Color::White)),
            styled("  ("@ + seconds + "s)"@, in_color(Color::DarkGray)),
        ],
        None => {
            let keys = seq![styled(hints(app), in_color(Color::DarkGray))];
            match app.status_line {
                Some((message, shown)) => if since(app.clock, shown) < 5_000_000_000 {
                    seq![styled(" "@ + message, in_color(Color::Yellow))]
                } else {
                    keys
                },
                None => keys,
            }
        },
    }
}

fn hint_text(app: &App) -> (s: &'static str)
    ensures
        s@ == hints(app.deep_view()),
{
    match (&app.modal, app.tab) {
        (Modal::Commit(_), _) => " Enter/Ctrl-S commit  Ctrl-A amend  Esc cancel",
        (Modal::Push(_), _) => " y/Enter confirm  ↑↓ pick  Esc cancel",
        (Modal::Confirm(_), _) => " y confirm  n/Esc cancel",
        (Modal::NewBranch(_), _) => " Enter create  Esc cancel",
        (Modal::Nothing, Tab::Status) => match app.focus {
            Focus::Files => " 1/2/3 tab  ↑↓ nav  →/← expand/collapse  Tab diff  Space stage  a all  u unstage  d discard  c commit  P push  r refresh  q quit",
            Focus::Diff => " 1/2/3 tab  ↑↓ scroll  PgUp/PgDn  Home/End  ←/Esc back  r refresh  q quit",
        },
        (Modal::Nothing, Tab::Stash) => match app.stash.focus {
            StashFocus::List => " 1/2/3 tab  ↑↓ nav  Home/End  Enter/→ details  a apply  p pop  d drop  r refresh  q quit",
            StashFocus::Details => " 1/2/3 tab  ↑↓ scroll  PgUp/PgDn  Home/End  ←/Esc back  q quit",
        },
        (Modal::Nothing, Tab::Log) => match app.log.focus {
            LogFocus::List => " 1/2/3 tab  ↑↓ nav  Home/End  Enter/→ details  r refresh  q quit",
            LogFocus::Details => " 1/2/3 tab  ↑↓ scroll  PgUp/PgDn  Home/End  ←/Esc back  q quit",
        },
        (Modal::Nothing, Tab::Branches) => " 1/2/3 tab  ↑↓ nav  Tab switch  Enter checkout  n new  d delete  D force-delete  r refresh  q quit",
    }
}

/// The last line. `seconds` is the time the job in the background has taken, as
/// it is to be shown.
pub fn render_footer(app: &App, seconds: &str) -> (line: Vec<Span>)
    ensures
        line.deep_view() == footer(app.deep_view(), seconds@),
{
    if let Some(pending) = &app.pending {
        let taken: u64 = elapsed(app.clock, pending.started);
        let time = concat3("  (", seconds, "s)");
        let line = vec![
            raw_text(" "),
            style_text(spin(taken), emboldened(Color::Cyan)),
            raw_text(" "),
            style_text(pending.label.as_str(), colored(Color::White)),
            style_text(time.as_str(), colored(Color::DarkGray)),
        ];
        assert(line.deep_view() =~= footer(app.deep_view(), seconds@));
        return line;
    }
    if let Some((message, shown)) = &app.status_line {
        if elapsed(app.clock, *shown) < 5_000_000_000 {
            let line = vec![
                style_text(concat(" ", message.as_str()).as_str(), colored(Color::Yellow)),
            ];
            assert(line.deep_view() =~= footer(app.deep_view(), seconds@));
            return line;
        }
    }
    let line = vec![style_text(hint_text(app), colored(Color::DarkGray))];
    assert(line.deep_view() =~= footer(app.deep_view(), seconds@));
    line
}

// ---------------------------------------------------------------------------
// The dialogs

/// The lines of a text, without a style.
pub open spec fn raw_lines(s: Seq<char>) -> Seq<Seq<SpanView>> {
    text::lines(s).map_values(|l: Seq<char>| seq![raw(l)])
}

fn raw_text_lines(s: &str) -> (r: Vec<Vec<Span>>)
    ensures
        r.deep_view() == raw_lines(s@),
{
    let list = split_lines(s);
    let ghost all = list.deep_view();
    let mut r: Vec<Vec<Span>> = Vec::new();
    let mut i: usize = 0;
    while i < list.len()
        invariant
            i <= list@.len(),
            all == list.deep_view(),
            r@.len() == i,
            forall|j: int| 0 <= j < i ==> (#[trigger] r@[j]).deep_view() == seq![raw(all[j])],
        decreases list@.len() - i,
    {
        let line = vec![raw_text(list[i].as_str())];
        assert(all[i as int] == list@[i as int]@);
        assert(line.deep_view() =~= seq![raw(all[i as int])]);
        r.push(line);
        i += 1;
    }
    assert(r.deep_view() =~= raw_lines(s@));
    r
}

/// The border of a dialog.
pub open spec fn dialog_frame(title: Seq<char>, color: Color) -> FrameView {
    FrameView { title: Some(title), border: in_color(color) }
}

fn make_dialog_frame(title: &str, color: Color) -> (f: Frame)
    ensures
        f.deep_view() == dialog_frame(title@, color),
{
    Frame { title: Some(title.to_string()), border: colored(color) }
}

/// The name of an input.
pub open spec fn input_label(name: Seq<char>) -> WidgetView {
    plain(seq![seq![styled(name, bold_in(Color::Cyan))]])
}

/// An input with a text and a cursor behind it.
pub open spec fn input(s: Seq<char>) -> WidgetView {
    WidgetView::Text {
        lines: raw_lines(s + "_"@),
        style: in_color(Color::White),
        right: false,
        wrap: false,
        scroll: 0,
        frame: Some(FrameView { title: None, border: no_style() }),
    }
}

fn make_label(name: &str) -> (w: Widget)
    ensures
        w.deep_view() == input_label(name@),
{
    let line = vec![style_text(name, emboldened(Color::Cyan))];
    assert(line.deep_view() =~= seq![styled(name@, bold_in(Color::Cyan))]);
    let lines = vec![line];
    assert(lines.deep_view() =~= seq![seq![styled(name@, bold_in(Color::Cyan))]]);
    make_plain(lines)
}

fn make_input(s: &str) -> (w: Widget)
    ensures
        w.deep_view() == input(s@),
{
    let shown = concat(s, "_");
    Widget::Text {
        lines: raw_text_lines(shown.as_str()),
        style: colored(Color::White),
        right: false,
        wrap: false,
        scroll: 0,
        frame: Some(Frame { title: None, border: unstyled() }),
    }
}

/// The title of the commit dialog.
pub open spec fn commit_title(app: AppView, amend: bool) -> Seq<char> {
    " Commit"@ + (if amend {
        " [AMEND]"@
    } else {
        ""@
    }) + "  — staged: "@ + text::decimal(model::staged_number(app.entries, false)) + " git, "@
        + text::decimal(model::staged_number(app.entries, true)) + " LFS "@
}

fn make_commit_title(app: &App, amend: bool) -> (s: String)
    ensures
        s@ == commit_title(app.deep_view(), amend),
{
    let tag = if amend { " [AMEND]" } else { "" };
    let head = concat3(" Commit", tag, "  — staged: ");
    staged_words(head.as_str(), app, " LFS ")
}

/// A line of the list of remotes.
pub open spec fn remote_line(name: Seq<char>, selected: bool) -> Seq<SpanView> {
    if selected {
        seq![styled("> "@ + name, bold_in(Color::Cyan))]
    } else {
        seq![raw("  "@ + name)]
    }
}

/// What the push dialog says.
pub open spec fn push_lines(d: PushDialogView) -> Seq<Seq<SpanView>> {
    match d {
        PushDialogView::Confirm { remote, branch } => seq![
            seq![],
            seq![raw("  Create branch '"@ + branch + "' on remote '"@ + remote + "'?"@)],
            seq![],
            seq![raw("  This runs: git push -u <remote> <branch>"@)],
            seq![],
            seq![styled("  [y] confirm   [n/Esc] cancel"@, in_color(Color::DarkGray))],
        ],
        PushDialogView::Pick { remotes, cursor, branch } => seq![
            seq![raw("  Pick remote for branch '"@ + branch + "':"@)],
            seq![],
        ] + Seq::new(remotes.len(), |i: int| remote_line(remotes[i], i == cursor)) + seq![
            seq![],
            seq![
                styled(
                    "  [↑↓] navigate  [Enter] select  [Esc] cancel"@,
                    in_color(Color::DarkGray),
                ),
            ],
        ],
        PushDialogView::Running => seq![seq![raw("  Pushing…"@)]],
    }
}

fn one_span(s: Span) -> (line: Vec<Span>)
    ensures
        line.deep_view() == seq![s.deep_view()],
{
    let line = vec![s];
    assert(line.deep_view() =~= seq![s.deep_view()]);
    line
}

fn no_spans() -> (line: Vec<Span>)
    ensures
        line.deep_view() == Seq::<SpanView>::empty(),
{
    let line: Vec<Span> = Vec::new();
    assert(line.deep_view() =~= seq![]);
    line
}

fn make_remote_line(name: &str, selected: bool) -> (line: Vec<Span>)
    ensures
        line.deep_view() == remote_line(name@, selected),
{
    if selected {
        one_span(style_text(concat("> ", name).as_str(), emboldened(Color::Cyan)))
    } else {
        one_span(raw_text(concat("  ", name).as_str()))
    }
}

fn make_push_lines(d: &PushDialog) -> (lines: Vec<Vec<Span>>)
    ensures
        lines.deep_view() == push_lines(d.deep_view()),
{
    match d {
        PushDialog::Confirm { remote, branch } => {
            let mut question = concat3("  Create branch '", branch.as_str(), "' on remote '");
            question.append(remote.as_str());
            question.append("'?");
            let lines = vec![
                no_spans(),
                one_span(raw_text(question.as_str())),
                no_spans(),
                one_span(raw_text("  This runs: git push -u <remote> <branch>")),
                no_spans(),
                one_span(
                    style_text("  [y] confirm   [n/Esc] cancel", colored(Color::DarkGray)),
                ),
            ];
            assert(lines.deep_view() =~= push_lines(d.deep_view()));
            lines
        },
        PushDialog::Pick { remotes, cursor, branch } => {
            let question = concat3("  Pick remote for branch '", branch.as_str(), "':");
            let mut lines = vec![one_span(raw_text(question.as_str())), no_spans()];
            let ghost head = lines.deep_view();
            let ghost all = remotes.deep_view();
            proof {
                assert(head =~= seq![
                    seq![raw("  Pick remote for branch '"@ + branch@ + "':"@)],
                    seq![],
                ]);
            }
            let mut i: usize = 0;
            while i < remotes.len()
                invariant
                    i <= remotes@.len(),
                    all == remotes.deep_view(),
                    head.len() == 2,
                    lines.deep_view() == head + Seq::new(
                        i as nat,
                        |k: int| remote_line(all[k], k == *cursor),
                    ),
                decreases remotes@.len() - i,
            {
                let ghost before = lines.deep_view();
                lines.push(make_remote_line(remotes[i].as_str(), i == *cursor));
                proof {
                    assert(all[i as int] == remotes@[i as int]@);
                    assert(lines.deep_view() =~= before.push(
                        remote_line(all[i as int], i == *cursor),
                    ));
                    assert(lines.deep_view() =~= head + Seq::new(
                        (i + 1) as nat,
                        |k: int| remote_line(all[k], k == *cursor),
                    ));
                }
                i += 1;
            }
            let ghost before = lines.deep_view();
            lines.push(no_spans());
            lines.push(
                one_span(
                    style_text(
                        "  [↑↓] navigate  [Enter] select  [Esc] cancel",
                        colored(Color::DarkGray),
                    ),
                ),
            );
            proof {
                assert(lines.deep_view() =~= before + seq![
                    seq![],
                    seq![
                        styled(
                            "  [↑↓] navigate  [Enter] select  [Esc] cancel"@,
                            in_color(Color::DarkGray),
                        ),
                    ],
                ]);
            }
            lines
        },
        PushDialog::Running => {
            let lines = vec![one_span(raw_text("  Pushing…"))];
            assert(lines.deep_view() =~= push_lines(d.deep_view()));
            lines
        },
    }
}

/// The question of a dialog.
pub open spec fn question(message: Seq<char>) -> WidgetView {
    WidgetView::Text {
        lines: raw_lines(message),
        style: no_style(),
        right: false,
        wrap: true,
        scroll: 0,
        frame: None,
    }
}

fn make_question(message: &str) -> (w: Widget)
    ensures
        w.deep_view() == question(message@),
{
    Widget::Text {
        lines: raw_text_lines(message),
        style: unstyled(),
        right: false,
        wrap: true,
        scroll: 0,
        frame: None,
    }
}

// ---------------------------------------------------------------------------
// Where it all goes

/// A direction in which an area is divided.
#[derive(Debug, Clone, Copy, PartialEq, Eq, Structural)]
pub enum Axis {
    Horizontal,
    Vertical,
}

/// How much room a part of an area is to have.
#[derive(Debug, Clone, Copy, PartialEq, Eq, Structural)]
pub enum Room {
    Length(u16),
    Min(u16),
    Percentage(u16),
}

/// Where an area ends on the right.
pub open spec fn right_end(a: Area) -> int {
    if a.x + a.width <= u16::MAX {
        a.x + a.width
    } else {
        u16::MAX as int
    }
}

/// Where an area ends below.
pub open spec fn lower_end(a: Area) -> int {
    if a.y + a.height <= u16::MAX {
        a.y + a.height
    } else {
        u16::MAX as int
    }
}

/// Whether an area lies within another.
pub open spec fn within(a: Area, b: Area) -> bool {
    &&& b.x <= a.x
    &&& a.x + a.width <= right_end(b)
    &&& b.y <= a.y
    &&& a.y + a.height <= lower_end(b)
}

/// Whether an area is a part of another that was divided in a direction.
pub open spec fn part_of(a: Area, b: Area, axis: Axis) -> bool {
    match axis {
        Axis::Horizontal => {
            &&& a.y == b.y
            &&& a.height == b.height
            &&& b.x <= a.x
            &&& a.x + a.width <= right_end(b)
        },
        Axis::Vertical => {
            &&& a.x == b.x
            &&& a.width == b.width
            &&& b.y <= a.y
            &&& a.y + a.height <= lower_end(b)
        },
    }
}

/// Where an area starts along a direction.
pub open spec fn start(a: Area, axis: Axis) -> int {
    match axis {
        Axis::Horizontal => a.x as int,
        Axis::Vertical => a.y as int,
    }
}

/// Where an area ends along a direction.
pub open spec fn finish(a: Area, axis: Axis) -> int {
    match axis {
        Axis::Horizontal => right_end(a),
        Axis::Vertical => lower_end(a),
    }
}

/// How long an area is along a direction.
pub open spec fn extent(a: Area, axis: Axis) -> int {
    finish(a, axis) - start(a, axis)
}

/// What a room asks for of a length, in hundredths.
pub open spec fn asked(r: Room, length: int) -> int {
    match r {
        Room::Length(n) => 100 * n,
        Room::Min(n) => 100 * n,
        Room::Percentage(p) => p * length,
    }
}

/// What rooms ask for together.
pub open spec fn all_asked(rooms: Seq<Room>, length: int) -> int
    decreases rooms.len(),
{
    if rooms.len() == 0 {
        0
    } else {
        all_asked(rooms.drop_last(), length) + asked(rooms.last(), length)
    }
}

/// Whether there is enough for rooms: they are few, they can all have what they
/// ask for, and at most one of them takes what is left.
pub open spec fn enough(rooms: Seq<Room>, length: int) -> bool {
    &&& rooms.len() <= 4
    &&& all_asked(rooms, length) <= 100 * length
    &&& forall|i: int, j: int|
        0 <= i < j < rooms.len() ==> !(#[trigger] rooms[i] is Min && #[trigger] rooms[j] is Min)
}

/// Whether a room has what it asks for of a length. A percentage is rounded at
/// both ends.
pub open spec fn given(r: Room, size: int, length: int) -> bool {
    match r {
        Room::Length(n) => size == n,
        Room::Min(n) => size >= n,
        Room::Percentage(p) => -100 <= 100 * size - p * length <= 100,
    }
}

/// Whether parts follow one another from the start of an area, each with what
/// its room asks for. Where a room takes what is left, they reach the end.
pub open spec fn in_turn(whole: Area, axis: Axis, rooms: Seq<Room>, parts: Seq<Area>) -> bool {
    &&& forall|i: int|
        0 <= i < parts.len() ==> start(#[trigger] parts[i], axis) == if i == 0 {
            start(whole, axis)
        } else {
            finish(parts[i - 1], axis)
        }
    &&& forall|i: int|
        0 <= i < parts.len() ==> given(
            rooms[i],
            extent(#[trigger] parts[i], axis),
            extent(whole, axis),
        )
    &&& (exists|i: int| 0 <= i < rooms.len() && #[trigger] rooms[i] is Min) ==> finish(
        parts.last(),
        axis,
    ) == finish(whole, axis)
}

/// Whether an area can be divided so: there is a part for each room, and where
/// there is enough for them they have it, in turn.
pub open spec fn divided(whole: Area, axis: Axis, rooms: Seq<Room>, parts: Seq<Area>) -> bool {
    &&& parts.len() == rooms.len()
    &&& forall|i: int| 0 <= i < parts.len() ==> part_of(#[trigger] parts[i], whole, axis)
    &&& enough(rooms, extent(whole, axis)) ==> in_turn(whole, axis, rooms, parts)
}

/// A number less another, or zero.
pub open spec fn less(a: u16, b: u16) -> u16 {
    if a >= b {
        (a - b) as u16
    } else {
        0
    }
}

fn minus(a: u16, b: u16) -> (r: u16)
    ensures
        r == less(a, b),
{
    if a >= b {
        a - b
    } else {
        0
    }
}

/// What a border leaves of an area.
pub open spec fn bordered(a: Area) -> Area {
    Area {
        x: if a.x + 1 <= right_end(a) {
            (a.x + 1) as u16
        } else {
            right_end(a) as u16
        },
        y: if a.y + 1 <= lower_end(a) {
            (a.y + 1) as u16
        } else {
            lower_end(a) as u16
        },
        width: less(a.width, 2),
        height: less(a.height, 2),
    }
}

/// What a border leaves of an area.
pub fn inner(a: Area) -> (r: Area)
    ensures
        r == bordered(a),
{
    Area {
        x: if a.width > 0 && a.x < u16::MAX {
            a.x + 1
        } else {
            a.x
        },
        y: if a.height > 0 && a.y < u16::MAX {
            a.y + 1
        } else {
            a.y
        },
        width: minus(a.width, 2),
        height: minus(a.height, 2),
    }
}

/// An area that starts a line and a column later and ends as much earlier.
pub open spec fn inset(a: Area) -> Area {
    Area {
        x: (a.x + 1) as u16,
        y: (a.y + 1) as u16,
        width: less(a.width, 2),
        height: less(a.height, 2),
    }
}

/// Where the widgets go.
#[derive(Debug, Clone, Copy)]
pub struct Places {
    pub tabs: Area,
    pub header: Area,
    pub left: Area,
    pub right: Area,
    pub footer: Area,
    pub dialog: Area,
    pub label: Area,
    pub input: Area,
}

/// Whether a modal has an input.
pub open spec fn has_input(m: ModalView) -> bool {
    m is Commit || m is NewBranch
}

/// How much of the screen a dialog takes, in percent.
pub open spec fn dialog_size(m: ModalView) -> (u16, u16) {
    match m {
        ModalView::Push(_) => (60, 30),
        ModalView::Confirm(_) => (60, 40),
        _ => (70, 25),
    }
}

/// The rooms of the tabs, the header, the view and the footer.
pub open spec fn screen_rooms() -> Seq<Room> {
    seq![Room::Length(2), Room::Length(1), Room::Min(1), Room::Length(1)]
}

/// The rooms of the two sides of a view.
pub open spec fn side_rooms() -> Seq<Room> {
    seq![Room::Percentage(50), Room::Percentage(50)]
}

/// A room of a given percentage between two equal ones.
pub open spec fn middle_rooms(percent: u16) -> Seq<Room> {
    let beside = Room::Percentage(((100 - percent) / 2) as u16);
    seq![beside, Room::Percentage(percent), beside]
}

/// The rooms of an input: its label, and the input in its border.
pub open spec fn input_rooms() -> Seq<Room> {
    seq![Room::Length(1), Room::Length(3)]
}

/// Whether an area is in the middle of another, of the given percentages of its
/// size.
pub open spec fn centered(r: Area, percent_x: u16, percent_y: u16, whole: Area) -> bool {
    exists|rows: Seq<Area>, columns: Seq<Area>|
        #![auto]
        {
            &&& divided(whole, Axis::Vertical, middle_rooms(percent_y), rows)
            &&& divided(rows[1], Axis::Horizontal, middle_rooms(percent_x), columns)
            &&& r == columns[1]
        }
}

impl Places {
    /// Whether the bars and the sides of the view are where the screen has room
    /// for them.
    pub open spec fn shared(self, screen: Area) -> bool {
        exists|rows: Seq<Area>, columns: Seq<Area>|
            #![auto]
            {
                &&& divided(screen, Axis::Vertical, screen_rooms(), rows)
                &&& divided(rows[2], Axis::Horizontal, side_rooms(), columns)
                &&& self.tabs == rows[0]
                &&& self.header == rows[1]
                &&& self.left == columns[0]
                &&& self.right == columns[1]
                &&& self.footer == rows[3]
            }
    }

    /// Whether a label and an input are where the border of the dialog leaves
    /// room for them.
    pub open spec fn fielded(self) -> bool {
        &&& self.dialog.x < u16::MAX
        &&& self.dialog.y < u16::MAX
        &&& exists|lines: Seq<Area>|
            #![auto]
            {
                &&& divided(inset(self.dialog), Axis::Vertical, input_rooms(), lines)
                &&& self.label == lines[0]
                &&& self.input == lines[1]
            }
    }

    /// Whether these are the places of a screen with a modal.
    pub open spec fn laid_out(self, screen: Area, m: ModalView) -> bool {
        &&& self.shared(screen)
        &&& centered(self.dialog, dialog_size(m).0, dialog_size(m).1, screen)
        &&& if has_input(m) {
            self.fielded()
        } else {
            self.label == self.dialog && self.input == self.dialog
        }
    }
}

/// An area in the middle of another, of the given percentages of its size.
pub fn centered_rect(percent_x: u16, percent_y: u16, whole: Area) -> (r: Area)
    requires
        percent_x <= 100,
        percent_y <= 100,
    ensures
        centered(r, percent_x, percent_y, whole),
        within(r, whole),
{
    let beside_y: u16 = (100 - percent_y) / 2;
    let beside_x: u16 = (100 - percent_x) / 2;
    let rows = split_area(
        whole,
        Axis::Vertical,
        &vec![Room::Percentage(beside_y), Room::Percentage(percent_y), Room::Percentage(beside_y)],
    );
    assert(divided(whole, Axis::Vertical, middle_rooms(percent_y), rows@));
    let band = rows[1];
    assert(part_of(band, whole, Axis::Vertical));
    let columns = split_area(
        band,
        Axis::Horizontal,
        &vec![Room::Percentage(beside_x), Room::Percentage(percent_x), Room::Percentage(beside_x)],
    );
    assert(divided(rows@[1], Axis::Horizontal, middle_rooms(percent_x), columns@));
    let r = columns[1];
    assert(part_of(r, band, Axis::Horizontal));
    r
}

fn dialog_percent(m: &Modal) -> (r: (u16, u16))
    ensures
        r == dialog_size(m.deep_view()),
{
    match m {
        Modal::Push(_) => (60, 30),
        Modal::Confirm(_) => (60, 40),
        _ => (70, 25),
    }
}

/// Divides the screen. There are no places where an input would start beyond the
/// last line or column that can be counted; on a screen that ends before it
/// there are.
pub fn lay_out(screen: Area, modal: &Modal) -> (r: Option<Places>)
    ensures
        r matches Some(p) ==> p.laid_out(screen, modal.deep_view()),
        r is None ==> has_input(modal.deep_view()) && exists|d: Area|
            #[trigger] centered(
                d,
                dialog_size(modal.deep_view()).0,
                dialog_size(modal.deep_view()).1,
                screen,
            ) && (d.x == u16::MAX || d.y == u16::MAX),
        right_end(screen) < u16::MAX && lower_end(screen) < u16::MAX ==> r is Some,
{
    let rows = split_area(
        screen,
        Axis::Vertical,
        &vec![Room::Length(2), Room::Length(1), Room::Min(1), Room::Length(1)],
    );
    assert(divided(screen, Axis::Vertical, screen_rooms(), rows@));
    let middle = rows[2];
    let columns = split_area(
        middle,
        Axis::Horizontal,
        &vec![Room::Percentage(50), Room::Percentage(50)],
    );
    assert(divided(rows@[2], Axis::Horizontal, side_rooms(), columns@));
    let (percent_x, percent_y) = dialog_percent(modal);
    let dialog = centered_rect(percent_x, percent_y, screen);
    let writing = match modal {
        Modal::Commit(_) | Modal::NewBranch(_) => true,
        _ => false,
    };
    let mut label = dialog;
    let mut input = dialog;
    if writing {
        if dialog.x == u16::MAX || dialog.y == u16::MAX {
            return None;
        }
        let field = Area {
            x: dialog.x + 1,
            y: dialog.y + 1,
            width: minus(dialog.width, 2),
            height: minus(dialog.height, 2),
        };
        let lines = split_area(field, Axis::Vertical, &vec![Room::Length(1), Room::Length(3)]);
        assert(divided(inset(dialog), Axis::Vertical, input_rooms(), lines@));
        label = lines[0];
        input = lines[1];
    }
    Some(
        Places {
            tabs: rows[0],
            header: rows[1],
            left: columns[0],
            right: columns[1],
            footer: rows[3],
            dialog,
            label,
            input,
        },
    )
}

// ---------------------------------------------------------------------------
// The scene

/// What a dialog is drawn as.
pub open spec fn dialog(app: AppView, p: Places) -> Seq<DrawView> {
    let clear = at(p.dialog, WidgetView::Clear);
    match app.modal {
        ModalView::Nothing => seq![],
        ModalView::Commit(c) => seq![
            clear,
            at(
                p.dialog,
                WidgetView::Border(dialog_frame(commit_title(app, c.amend), Color::Cyan)),
            ),
            at(p.label, input_label("Subject"@)),
            at(p.input, input(c.subject)),
        ],
        ModalView::Push(d) => seq![
            clear,
            at(p.dialog, WidgetView::Border(dialog_frame(" Push "@, Color::Cyan))),
            at(bordered(p.dialog), plain(push_lines(d))),
        ],
        ModalView::Confirm(c) => seq![
            clear,
            at(
                p.dialog,
                WidgetView::Border(dialog_frame(" "@ + c.title + " "@, Color::Yellow)),
            ),
            at(bordered(p.dialog), question(c.message)),
        ],
        ModalView::NewBranch(n) => seq![
            clear,
            at(p.dialog, WidgetView::Border(dialog_frame(" New branch "@, Color::Cyan))),
            at(p.label, input_label("Name"@)),
            at(p.input, input(n.name)),
        ],
    }
}

/// What is drawn, in this order.
pub open spec fn scene(app: AppView, seconds: Seq<char>, p: Places) -> Seq<DrawView> {
    seq![
        at(p.tabs, tabs(app.tab)),
        at(p.header, header(app)),
        at(p.left, left(app)),
        at(p.right, right(app)),
        at(p.footer, plain(seq![footer(app, seconds)])),
    ] + dialog(app, p)
}

fn put(area: Area, widget: Widget) -> (d: Draw)
    ensures
        d.deep_view() == at(area, widget.deep_view()),
{
    Draw { area, widget }
}

fn render_commit_modal(app: &App, c: &CommitInput, p: &Places) -> (r: Vec<Draw>)
    requires
        app.deep_view().modal == ModalView::Commit(c.deep_view()),
    ensures
        r.deep_view() == dialog(app.deep_view(), *p),
{
    let title = make_commit_title(app, c.amend);
    let r = vec![
        put(p.dialog, Widget::Clear),
        put(p.dialog, Widget::Border(make_dialog_frame(title.as_str(), Color::Cyan))),
        put(p.label, make_label("Subject")),
        put(p.input, make_input(c.subject.as_str())),
    ];
    assert(r.deep_view() =~= dialog(app.deep_view(), *p));
    r
}

fn render_push_modal(app: &App, d: &PushDialog, p: &Places) -> (r: Vec<Draw>)
    requires
        app.deep_view().modal == ModalView::Push(d.deep_view()),
    ensures
        r.deep_view() == dialog(app.deep_view(), *p),
{
    let r = vec![
        put(p.dialog, Widget::Clear),
        put(p.dialog, Widget::Border(make_dialog_frame(" Push ", Color::Cyan))),
        put(inner(p.dialog), make_plain(make_push_lines(d))),
    ];
    assert(r.deep_view() =~= dialog(app.deep_view(), *p));
    r
}

fn render_confirm_modal(app: &App, c: &ConfirmDialog, p: &Places) -> (r: Vec<Draw>)
    requires
        app.deep_view().modal == ModalView::Confirm(c.deep_view()),
    ensures
        r.deep_view() == dialog(app.deep_view(), *p),
{
    let title = concat3(" ", c.title.as_str(), " ");
    let r = vec![
        put(p.dialog, Widget::Clear),
        put(p.dialog, Widget::Border(make_dialog_frame(title.as_str(), Color::Yellow))),
        put(inner(p.dialog), make_question(c.message.as_str())),
    ];
    assert(r.deep_view() =~= dialog(app.deep_view(), *p));
    r
}

fn render_new_branch_modal(app: &App, n: &NewBranchInput, p: &Places) -> (r: Vec<Draw>)
    requires
        app.deep_view().modal == ModalView::NewBranch(n.deep_view()),
    ensures
        r.deep_view() == dialog(app.deep_view(), *p),
{
    let r = vec![
        put(p.dialog, Widget::Clear),
        put(p.dialog, Widget::Border(make_dialog_frame(" New branch ", Color::Cyan))),
        put(p.label, make_label("Name")),
        put(p.input, make_input(n.name.as_str())),
    ];
    assert(r.deep_view() =~= dialog(app.deep_view(), *p));
    r
}

/// Draws the state at the given places. `seconds` is the time the job in the
/// background has taken, as it is to be shown.
pub fn draw(app: &App, seconds: &str, p: &Places) -> (r: Vec<Draw>)
    ensures
        r.deep_view() == scene(app.deep_view(), seconds@, *p),
{
    let (left_half, right_half) = render_main(app);
    let last = vec![render_footer(app, seconds)];
    assert(last.deep_view() =~= seq![footer(app.deep_view(), seconds@)]);
    let mut r = vec![
        put(p.tabs, render_tabs(app)),
        put(p.header, render_header(app)),
        put(p.left, left_half),
        put(p.right, right_half),
        put(p.footer, make_plain(last)),
    ];
    let ghost back = r.deep_view();
    let mut front: Vec<Draw> = match &app.modal {
        Modal::Nothing => Vec::new(),
        Modal::Commit(c) => render_commit_modal(app, c, p),
        Modal::Push(d) => render_push_modal(app, d, p),
        Modal::Confirm(c) => render_confirm_modal(app, c, p),
        Modal::NewBranch(n) => render_new_branch_modal(app, n, p),
    };
    let ghost over = front.deep_view();
    r.append(&mut front);
    proof {
        let v = app.deep_view();
        assert(over =~= dialog(v, *p));
        assert(back =~= seq![
            at(p.tabs, tabs(v.tab)),
            at(p.header, header(v)),
            at(p.left, left(v)),
            at(p.right, right(v)),
            at(p.footer, plain(seq![footer(v, seconds@)])),
        ]);
        assert(r.deep_view() =~= back + over);
    }
    r
}

/// Draws the state on a screen. There is nothing where the screen cannot be laid
/// out, as `lay_out` says.
pub fn render(app: &App, seconds: &str, screen: Area) -> (r: Option<Vec<Draw>>)
    ensures
        r matches Some(list) ==> exists|p: Places|
            #![auto]
            p.laid_out(screen, app.deep_view().modal) && list.deep_view() == scene(
                app.deep_view(),
                seconds@,
                p,
            ),
        right_end(screen) < u16::MAX && lower_end(screen) < u16::MAX ==> r is Some,
        !has_input(app.deep_view().modal) ==> r is Some,
{
    match lay_out(screen, &app.modal) {
        Some(p) => Some(draw(app, seconds, &p)),
        None => None,
    }
}

/// On a screen of at least five lines whose ends can be counted, the tabs have
/// the first two lines, the header has the third and the footer the last one.
/// What is between them is shared by the two sides of the view, each of which has
/// half of it, up to a column.
pub proof fn law_bars(p: Places, m: ModalView, screen: Area)
    requires
        screen.x + screen.width <= u16::MAX,
        screen.y + screen.height <= u16::MAX,
        screen.height >= 5,
        p.laid_out(screen, m),
    ensures
        p.tabs == (Area { height: 2, ..screen }),
        p.header == (Area { y: (screen.y + 2) as u16, height: 1, ..screen }),
        p.footer == (Area { y: (screen.y + screen.height - 1) as u16, height: 1, ..screen }),
        p.left.x == screen.x,
        p.right.x == p.left.x + p.left.width,
        p.left.y == p.right.y == screen.y + 3,
        p.left.height == p.right.height == screen.height - 4,
        screen.width - 2 <= 2 * p.left.width <= screen.width + 2,
        screen.width - 2 <= 2 * p.right.width <= screen.width + 2,
{
    let (rows, columns) = choose|rows: Seq<Area>, columns: Seq<Area>|
        #![auto]
        {
            &&& divided(screen, Axis::Vertical, screen_rooms(), rows)
            &&& divided(rows[2], Axis::Horizontal, side_rooms(), columns)
            &&& p.tabs == rows[0]
            &&& p.header == rows[1]
            &&& p.left == columns[0]
            &&& p.right == columns[1]
            &&& p.footer == rows[3]
        };
    let s = screen_rooms();
    let height = screen.height as int;
    reveal_with_fuel(all_asked, 5);
    assert(all_asked(s, height) == 500) by {
        assert(s.drop_last().last() == s[2]);
        assert(s.drop_last().drop_last().last() == s[1]);
        assert(s.drop_last().drop_last().drop_last().last() == s[0]);
    }
    assert(in_turn(screen, Axis::Vertical, s, rows));
    assert(s[2] is Min);
    assert(part_of(rows[0], screen, Axis::Vertical));
    assert(part_of(rows[1], screen, Axis::Vertical));
    assert(part_of(rows[2], screen, Axis::Vertical));
    assert(part_of(rows[3], screen, Axis::Vertical));
    assert(rows.last() == rows[3]);
    let halves = side_rooms();
    let width = screen.width as int;
    assert(all_asked(halves, width) == 100 * width) by {
        assert(halves.drop_last().last() == halves[0]);
    }
    assert(in_turn(rows[2], Axis::Horizontal, halves, columns));
    assert(part_of(columns[0], rows[2], Axis::Horizontal));
    assert(part_of(columns[1], rows[2], Axis::Horizontal));
}

/// An area in the middle of another whose ends can be counted has the given
/// percentages of its size, and it leaves half of the rest before it, each up to
/// a line or column.
pub proof fn law_centered(r: Area, percent_x: u16, percent_y: u16, whole: Area)
    requires
        percent_x <= 100,
        percent_y <= 100,
        whole.x + whole.width <= u16::MAX,
        whole.y + whole.height <= u16::MAX,
        centered(r, percent_x, percent_y, whole),
    ensures
        -100 <= 100 * r.width - percent_x * whole.width <= 100,
        -100 <= 100 * r.height - percent_y * whole.height <= 100,
        -100 <= 100 * (r.x - whole.x) - (100 - percent_x) / 2 * whole.width <= 100,
        -100 <= 100 * (r.y - whole.y) - (100 - percent_y) / 2 * whole.height <= 100,
{
    let (rows, columns) = choose|rows: Seq<Area>, columns: Seq<Area>|
        #![auto]
        {
            &&& divided(whole, Axis::Vertical, middle_rooms(percent_y), rows)
            &&& divided(rows[1], Axis::Horizontal, middle_rooms(percent_x), columns)
            &&& r == columns[1]
        };
    lemma_middle(percent_y, whole.height as int);
    lemma_middle(percent_x, whole.width as int);
    assert(part_of(rows[0], whole, Axis::Vertical));
    assert(part_of(rows[1], whole, Axis::Vertical));
    assert(in_turn(whole, Axis::Vertical, middle_rooms(percent_y), rows));
    assert(part_of(columns[0], rows[1], Axis::Horizontal));
    assert(part_of(columns[1], rows[1], Axis::Horizontal));
    assert(in_turn(rows[1], Axis::Horizontal, middle_rooms(percent_x), columns));
}

proof fn lemma_middle(percent: u16, length: int)
    requires
        percent <= 100,
        0 <= length,
    ensures
        enough(middle_rooms(percent), length),
{
    let rooms = middle_rooms(percent);
    let beside = (100 - percent) / 2;
    reveal_with_fuel(all_asked, 4);
    assert(rooms.drop_last().last() == rooms[1]);
    assert(rooms.drop_last().drop_last().last() == rooms[0]);
    assert(beside * length + percent * length + beside * length <= 100 * length)
        by (nonlinear_arith)
        requires
            0 <= length,
            2 * beside + percent <= 100,
    ;
}

/// Everything is drawn within a screen whose ends can be counted, if a dialog
/// with an input is at least one column wide and one line high.
pub proof fn law_drawn_within(
    app: AppView,
    seconds: Seq<char>,
    p: Places,
    screen: Area,
)
    requires
        screen.x + screen.width <= u16::MAX,
        screen.y + screen.height <= u16::MAX,
        p.laid_out(screen, app.modal),
        has_input(app.modal) ==> p.dialog.width > 0 && p.dialog.height > 0,
    ensures
        forall|i: int|
            0 <= i < scene(app, seconds, p).len() ==> within(
                (#[trigger] scene(app, seconds, p)[i]).area,
                screen,
            ),
{
    let d = dialog(app, p);
    assert(within(bordered(p.dialog), screen));
    assert forall|i: int| 0 <= i < d.len() implies within((#[trigger] d[i]).area, screen) by {
        assert(d[i].area == p.dialog || d[i].area == bordered(p.dialog) || (has_input(app.modal)
            && (d[i].area == p.label || d[i].area == p.input)));
    }
    assert forall|i: int| 0 <= i < scene(app, seconds, p).len() implies within(
        (#[trigger] scene(app, seconds, p)[i]).area,
        screen,
    ) by {
        if i >= 5 {
            assert(scene(app, seconds, p)[i] == d[i - 5]);
        }
    }
}

} // verus!
