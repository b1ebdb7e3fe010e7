use gi::app::{App, Key, KeyCode, Modal, PushDialog, StatusSnapshot, Tab};
use gi::git::{FileEntry, LocalBranch, RemoteBranch, Stage, StorageMode};
use gi::tree::{Agg, Row};
use gi::ui::{
    centered_rect, diff_line, draw, inner, lay_out, render, render_footer, render_header,
    render_main, render_tabs, row_background, row_line, status_char_color, storage_badge_spans,
    truncate, Area, Color, Draw, Span, Widget,
};
use gi::work::StatusReport;
use ratatui::layout::Rect;
use ratatui::widgets::{Block, Borders};

fn entry(path: &str, index: Stage, worktree: Stage) -> FileEntry {
    FileEntry {
        path: path.to_string(),
        index,
        worktree,
        lfs_tracked: false,
        lfs_pointer_ok: None,
        prev_storage: None,
        next_storage: None,
    }
}

fn open(entries: Vec<FileEntry>) -> App {
    let snapshot =
        StatusSnapshot { entries, branch: "main".to_string(), upstream: None };
    App::new(0, Ok(StatusReport { snapshot, warning: None })).unwrap().0
}

fn row(is_dir: bool, agg: Agg) -> Row {
    Row {
        path: "d/n".to_string(),
        name: "n".to_string(),
        level: 1,
        is_dir,
        expanded: is_dir,
        agg,
        lfs_tracked: false,
        lfs_pointer_warn: false,
        entry_index: None,
    }
}

fn agg(staged: u32, unstaged: u32, untracked: u32, conflict: u32) -> Agg {
    Agg { staged, unstaged, untracked, conflict, added: 0, modified: 0, deleted: 0 }
}

fn texts(line: &[Span]) -> String {
    line.iter().map(|s| s.text.as_str()).collect()
}

fn colors(line: &[Span]) -> Vec<Option<Color>> {
    line.iter().map(|s| s.style.fg).collect()
}

fn title(w: &Widget) -> String {
    match w {
        Widget::Text { frame: Some(f), .. } => f.title.clone().unwrap(),
        Widget::List { frame, .. } => frame.title.clone().unwrap(),
        Widget::Border(f) => f.title.clone().unwrap(),
        other => panic!("{:?}", other),
    }
}

fn content(w: &Widget) -> Vec<String> {
    match w {
        Widget::Text { lines, .. } => lines.iter().map(|l| texts(l)).collect(),
        Widget::List { items, .. } => items.iter().map(|i| texts(&i.line)).collect(),
        other => panic!("{:?}", other),
    }
}

#[test]
fn long_texts_are_cut() {
    assert_eq!(truncate("short", 14), "short");
    assert_eq!(truncate("exactly", 7), "exactly");
    assert_eq!(truncate("a longer name here", 14), "a longer name…");
    assert_eq!(truncate("äöü", 2), "ä…");
    assert_eq!(truncate("ab", 1), "…");
    assert_eq!(truncate("ab", 0), "…");
}

#[test]
fn rows_have_letters_and_colours() {
    let of = |is_dir, a| status_char_color(&row(is_dir, a));
    assert_eq!(of(false, agg(1, 1, 0, 1)), ('U', Color::Red));
    assert_eq!(of(false, agg(0, 0, 1, 0)), ('?', Color::Red));
    assert_eq!(of(true, agg(1, 0, 1, 0)), ('M', Color::Yellow));
    assert_eq!(of(false, agg(0, 1, 0, 0)), ('M', Color::Red));
    let mut added = agg(1, 0, 0, 0);
    added.added = 1;
    assert_eq!(of(false, added), ('A', Color::Green));
    assert_eq!(of(true, added), ('M', Color::Green));
    let mut deleted = agg(0, 1, 0, 0);
    deleted.deleted = 1;
    assert_eq!(of(false, deleted), ('D', Color::Red));
}

#[test]
fn rows_have_backgrounds() {
    let of = |is_dir, a, selected| row_background(&row(is_dir, a), selected);
    assert_eq!(of(false, agg(0, 1, 0, 0), false), None);
    assert_eq!(of(false, agg(0, 1, 0, 0), true), Some(Color::DarkGray));
    assert_eq!(of(true, agg(1, 1, 0, 0), false), None);
    assert_eq!(of(true, agg(1, 0, 1, 0), true), Some(Color::DarkGray));
    assert_eq!(of(true, agg(1, 0, 0, 0), false), Some(Color::Rgb(20, 45, 25)));
    assert_eq!(of(false, agg(1, 0, 0, 0), true), Some(Color::Rgb(40, 90, 50)));
    assert_eq!(of(false, agg(1, 1, 0, 0), false), Some(Color::Rgb(55, 45, 15)));
    assert_eq!(of(false, agg(1, 0, 1, 0), true), Some(Color::Rgb(90, 75, 25)));
}

#[test]
fn lines_of_rows() {
    let mut folder = row(true, agg(0, 1, 0, 0));
    folder.lfs_pointer_warn = true;
    assert_eq!(texts(&row_line(&folder, None)), "M!   v n/");
    folder.expanded = false;
    assert_eq!(texts(&row_line(&folder, None)), "M!   > n/");
    let file = row(false, agg(0, 1, 0, 0));
    let line = row_line(&file, None);
    assert_eq!(texts(&line), "M      n [git]");
    assert!(line[0].style.bold && line[1].style.bold);
    assert_eq!(line[5].style.fg, Some(Color::White));
}

#[test]
fn badges_show_the_storage() {
    let r = row(false, agg(0, 1, 0, 0));
    let badge = |prev, next, index, lfs| {
        let mut e = entry("p", index, Stage::Unmodified);
        e.prev_storage = prev;
        e.next_storage = next;
        let mut r = r.clone();
        r.lfs_tracked = lfs;
        texts(&storage_badge_spans(&r, Some(&e)))
    };
    let git = Some(StorageMode::Git);
    let lfs = Some(StorageMode::Lfs);
    assert_eq!(badge(git, git, Stage::Modified, false), "[git]");
    assert_eq!(badge(git, lfs, Stage::Modified, false), "[git → LFS]");
    assert_eq!(badge(None, lfs, Stage::Added, false), "[+ LFS]");
    assert_eq!(badge(lfs, None, Stage::Deleted, false), "[− LFS]");
    assert_eq!(badge(lfs, None, Stage::Unmodified, false), "[LFS]");
    assert_eq!(badge(None, None, Stage::Untracked, true), "[+ LFS]");
    assert_eq!(badge(None, None, Stage::Untracked, false), "[+ git]");
    assert_eq!(badge(None, None, Stage::Modified, true), "[LFS]");
    assert_eq!(badge(None, None, Stage::Modified, false), "[git]");
    let mut large = r.clone();
    large.lfs_tracked = true;
    let spans = storage_badge_spans(&large, None);
    assert_eq!(texts(&spans), "[LFS]");
    assert_eq!(
        colors(&spans),
        vec![Some(Color::DarkGray), Some(Color::Yellow), Some(Color::DarkGray)]
    );
}

#[test]
fn lines_of_differences_are_coloured() {
    let of = |l: &str| {
        let spans = diff_line(l);
        assert_eq!(texts(&spans), l);
        (spans[0].style.fg, spans[0].style.bold)
    };
    assert_eq!(of("+++ b/x"), (Some(Color::White), true));
    assert_eq!(of("--- a/x"), (Some(Color::White), true));
    assert_eq!(of("+x"), (Some(Color::Green), false));
    assert_eq!(of("-x"), (Some(Color::Red), false));
    assert_eq!(of("@@ -1 +1 @@"), (Some(Color::Cyan), false));
    assert_eq!(of("diff --git"), (Some(Color::DarkGray), false));
    assert_eq!(of("index 12"), (Some(Color::DarkGray), false));
    assert_eq!(of(" x"), (None, false));
    assert_eq!(of(""), (None, false));
}

#[test]
fn the_header_counts() {
    let mut app = open(vec![
        entry("a", Stage::Added, Stage::Unmodified),
        entry("b", Stage::Modified, Stage::Unmodified),
    ]);
    app.entries[1].lfs_tracked = true;
    assert_eq!(
        content(&render_header(&app)),
        vec![" branch: main  upstream: (none)  [staged: 1 git, 1 LFS]"]
    );
    app.upstream = Some("o/m".to_string());
    app.tab = Tab::Stash;
    assert_eq!(
        content(&render_header(&app)),
        vec![" branch: main  upstream: o/m  [0 stashes]"]
    );
    app.tab = Tab::Log;
    assert_eq!(
        content(&render_header(&app)),
        vec![" branch: main  upstream: o/m  [0 commits]"]
    );
    for (tab, chosen) in [
        (Tab::Status, Some(0)),
        (Tab::Stash, Some(1)),
        (Tab::Log, Some(2)),
        (Tab::Branches, None),
    ] {
        app.tab = tab;
        match render_tabs(&app) {
            Widget::Tabs { titles, selected, .. } => {
                assert_eq!(titles, vec!["[1] Status", "[2] Stash", "[3] Log"]);
                assert_eq!(selected, chosen);
            }
            other => panic!("{:?}", other),
        }
    }
}

#[test]
fn the_views_list_what_there_is() {
    let mut app = open(vec![entry("a", Stage::Unmodified, Stage::Modified)]);
    app.diff_text = "+x\n-y".to_string();
    let (l, r) = render_main(&app);
    assert_eq!((title(&l).as_str(), title(&r).as_str()), (" Files (1) ", " Diff "));
    assert_eq!(content(&l), vec!["M    a [git]"]);
    assert_eq!(content(&r), vec!["+x", "-y"]);
    app.tab = Tab::Stash;
    let (l, r) = render_main(&app);
    assert_eq!((title(&l).as_str(), title(&r).as_str()), (" Stashes (0) ", " Details "));
    assert_eq!(content(&l), vec!["(no stashes)"]);
    app.tab = Tab::Log;
    let (l, _) = render_main(&app);
    assert_eq!(content(&l), vec!["(no commits)"]);
    app.tab = Tab::Branches;
    app.branches.locals.push(LocalBranch {
        name: "dev".to_string(),
        is_head: true,
        upstream: None,
        ahead: 0,
        behind: 0,
        gone: false,
        short: "abc".to_string(),
        subject: "s".to_string(),
    });
    app.branches.remotes.push(RemoteBranch {
        remote: "o".to_string(),
        name: "b".to_string(),
        short: "abc".to_string(),
        subject: "s".to_string(),
    });
    let (l, r) = render_main(&app);
    assert_eq!(content(&l), vec!["* dev  abc s"]);
    assert_eq!(content(&r), vec!["o/b  abc s"]);
    let empty = open(vec![]);
    assert_eq!(content(&render_main(&empty).0), vec!["clean — nothing to commit"]);
}

#[test]
fn the_footer_shows_jobs_messages_and_keys() {
    let mut app = open(vec![]);
    assert!(texts(&render_footer(&app, "0.0")).starts_with(" 1/2/3 tab  ↑↓ nav  →/←"));
    app.toast("hello".to_string());
    app.tick(4_999_999_999);
    assert_eq!(texts(&render_footer(&app, "0.0")), " hello");
    app.tick(5_000_000_000);
    assert!(texts(&render_footer(&app, "0.0")).starts_with(" 1/2/3"));
    app.handle_key(Key { code: KeyCode::Char('r'), ctrl: false });
    assert_eq!(texts(&render_footer(&app, "0.0")), " ⠋ refreshing  (0.0s)");
    app.tick(5_000_000_000 + 80_000_000 * 13);
    assert_eq!(texts(&render_footer(&app, "1.0")), " ⠸ refreshing  (1.0s)");
    app.tick(0);
    assert_eq!(texts(&render_footer(&app, "0.0")), " ⠋ refreshing  (0.0s)");
    app.pending = None;
    app.status_line = None;
    app.modal = Modal::Push(PushDialog::Running);
    assert_eq!(
        texts(&render_footer(&app, "")),
        " y/Enter confirm  ↑↓ pick  Esc cancel"
    );
}

#[test]
fn borders_leave_what_ratatui_says() {
    let block = Block::default().borders(Borders::ALL);
    let values = [0u16, 1, 2, 3, 79, 65533, 65534, 65535];
    for x in values {
        for y in values {
            for width in values {
                for height in [0u16, 1, 2, 40, 65535] {
                    let want = block.inner(Rect { x, y, width, height });
                    let got = inner(Area { x, y, width, height });
                    assert_eq!(
                        (got.x, got.y, got.width, got.height),
                        (want.x, want.y, want.width, want.height)
                    );
                }
            }
        }
    }
}

#[test]
fn the_screen_is_divided() {
    let screen = Area { x: 0, y: 0, width: 80, height: 24 };
    let p = lay_out(screen, &Modal::Nothing).unwrap();
    assert_eq!(p.tabs, Area { x: 0, y: 0, width: 80, height: 2 });
    assert_eq!(p.header, Area { x: 0, y: 2, width: 80, height: 1 });
    assert_eq!(p.left, Area { x: 0, y: 3, width: 40, height: 20 });
    assert_eq!(p.right, Area { x: 40, y: 3, width: 40, height: 20 });
    assert_eq!(p.footer, Area { x: 0, y: 23, width: 80, height: 1 });
    let middle = centered_rect(50, 50, Area { x: 0, y: 0, width: 100, height: 40 });
    assert_eq!(middle, Area { x: 25, y: 10, width: 50, height: 20 });
}

#[test]
fn the_bars_keep_their_lines() {
    for height in 5..=120 {
        for width in [0, 1, 2, 3, 79, 80, 81, 255, 1000] {
            let screen = Area { x: 3, y: 7, width, height };
            let p = lay_out(screen, &Modal::Nothing).unwrap();
            assert_eq!(p.tabs, Area { x: 3, y: 7, width, height: 2 });
            assert_eq!(p.header, Area { x: 3, y: 9, width, height: 1 });
            assert_eq!(p.footer, Area { x: 3, y: 6 + height, width, height: 1 });
            assert_eq!((p.left.x, p.left.y, p.left.height), (3, 10, height - 4));
            assert_eq!((p.right.x, p.right.y), (3 + p.left.width, 10));
            assert_eq!(p.right.height, height - 4);
            assert!((2 * p.left.width).abs_diff(width) <= 2);
            assert!((2 * p.right.width).abs_diff(width) <= 2);
        }
    }
}

#[test]
fn the_bars_keep_their_lines_at_the_far_end() {
    let screen = Area { x: 100, y: 200, width: u16::MAX - 100, height: u16::MAX - 200 };
    let p = lay_out(screen, &Modal::Nothing).unwrap();
    assert_eq!(p.tabs, Area { height: 2, ..screen });
    assert_eq!(p.header, Area { y: 202, height: 1, ..screen });
    assert_eq!(p.footer, Area { y: u16::MAX - 1, height: 1, ..screen });
    assert_eq!(p.left.height, screen.height - 4);
}

#[test]
fn an_area_is_centered() {
    for size in (0..=130u16).chain([999, 20001]) {
        for percent in [0, 1, 25, 33, 50, 60, 70, 99, 100] {
            let whole = Area { x: 11, y: 2, width: size, height: size };
            let r = centered_rect(percent, 100 - percent, whole);
            let near = |a: u16, p: u16| {
                (100 * i64::from(a) - i64::from(p) * i64::from(size)).abs() <= 100
            };
            assert!(near(r.width, percent));
            assert!(near(r.height, 100 - percent));
            assert!(near(r.x - 11, (100 - percent) / 2));
            assert!(near(r.y - 2, percent / 2));
        }
    }
}

#[test]
fn an_input_has_its_lines() {
    let screen = Area { x: 0, y: 0, width: 80, height: 40 };
    let mut app = open(vec![entry("a", Stage::Added, Stage::Unmodified)]);
    app.handle_key(Key { code: KeyCode::Char('c'), ctrl: false });
    let p = lay_out(screen, &app.modal).unwrap();
    assert_eq!(p.dialog, Area { x: 12, y: 15, width: 56, height: 10 });
    assert_eq!(p.label, Area { x: 13, y: 16, width: 54, height: 1 });
    assert_eq!(p.input, Area { x: 13, y: 17, width: 54, height: 3 });
    let last = Area { x: u16::MAX, y: 0, width: 80, height: 40 };
    assert!(lay_out(last, &app.modal).is_none());
    assert!(lay_out(last, &Modal::Nothing).is_some());
}

#[test]
fn everything_is_drawn_within_the_screen() {
    for (width, height) in [(0, 0), (1, 1), (5, 3), (80, 24), (300, 100)] {
        let screen = Area { x: 0, y: 0, width, height };
        let mut app = open(vec![entry("a", Stage::Unmodified, Stage::Modified)]);
        for tab in [Tab::Status, Tab::Stash, Tab::Log, Tab::Branches] {
            app.tab = tab;
            for d in render(&app, "0.0", screen).unwrap() {
                assert!(d.area.x + d.area.width <= width);
                assert!(d.area.y + d.area.height <= height);
            }
        }
    }
}

#[test]
fn dialogs_are_drawn_over_the_view() {
    let screen = Area { x: 0, y: 0, width: 80, height: 40 };
    let mut app = open(vec![entry("a", Stage::Added, Stage::Unmodified)]);
    app.handle_key(Key { code: KeyCode::Char('c'), ctrl: false });
    app.handle_key(Key { code: KeyCode::Char('h'), ctrl: false });
    app.handle_key(Key { code: KeyCode::Char('i'), ctrl: false });
    let p = lay_out(screen, &app.modal).unwrap();
    let d = draw(&app, "0.0", &p);
    assert_eq!(d.len(), 9);
    assert!(matches!(d[5].widget, Widget::Clear));
    assert_eq!(title(&d[6].widget), " Commit  — staged: 1 git, 0 LFS ");
    assert_eq!(content(&d[7].widget), vec!["Subject"]);
    assert_eq!(content(&d[8].widget), vec!["hi_"]);
    app.handle_key(Key { code: KeyCode::Char('a'), ctrl: true });
    let d = draw(&app, "0.0", &p);
    assert_eq!(title(&d[6].widget), " Commit [AMEND]  — staged: 1 git, 0 LFS ");
    app.modal = Modal::Push(PushDialog::Pick {
        remotes: vec!["a".to_string(), "b".to_string()],
        cursor: 1,
        branch: "main".to_string(),
    });
    let d = render(&app, "0.0", screen).unwrap();
    assert_eq!(d[7].area, inner(d[6].area));
    assert_eq!(
        content(&d[7].widget),
        vec![
            "  Pick remote for branch 'main':",
            "",
            "  a",
            "> b",
            "",
            "  [↑↓] navigate  [Enter] select  [Esc] cancel"
        ]
    );
    app.modal = Modal::Push(PushDialog::Confirm {
        remote: "origin".to_string(),
        branch: "main".to_string(),
    });
    let d = render(&app, "0.0", screen).unwrap();
    assert_eq!(content(&d[7].widget)[1], "  Create branch 'main' on remote 'origin'?");
    let mut app = open(vec![entry("a", Stage::Unmodified, Stage::Modified)]);
    app.handle_key(Key { code: KeyCode::Char('d'), ctrl: false });
    let d = render(&app, "0.0", screen).unwrap();
    assert_eq!(title(&d[6].widget), " Discard changes? ");
    assert_eq!(border_color(&d[6]), Some(Color::Yellow));
}

fn border_color(d: &Draw) -> Option<Color> {
    match &d.widget {
        Widget::Border(f) => f.border.fg,
        _ => None,
    }
}

#[test]
fn an_input_beyond_the_last_column_has_no_place() {
    let screen = Area { x: 65535, y: 0, width: 0, height: 10 };
    let mut app = open(vec![]);
    assert!(render(&app, "", screen).is_some());
    app.handle_key(Key { code: KeyCode::Char('c'), ctrl: false });
    assert!(render(&app, "", screen).is_none());
    assert!(render(&app, "", Area { x: 0, y: 0, width: 65534, height: 10 }).is_some());
}
