use gi::git::{FileEntry, Stage};
use gi::tree::{build_rows, Agg, PathSet, Row, Side};

fn entry(path: &str, index: Stage, worktree: Stage) -> FileEntry {
    FileEntry {
        path: path.to_string(),
        index,
        worktree,
        lfs_tracked: false,
        lfs_pointer_ok: None,
        prev_storage: None,
        next_storage: None,
    }
}

fn changed(path: &str) -> FileEntry {
    entry(path, Stage::Unmodified, Stage::Modified)
}

fn untracked(path: &str) -> FileEntry {
    entry(path, Stage::Untracked, Stage::Untracked)
}

fn outline(rows: &[Row]) -> Vec<String> {
    rows.iter()
        .map(|r| {
            let sign = if !r.is_dir {
                ""
            } else if r.expanded {
                "/"
            } else {
                "+"
            };
            format!("{}{}{}", " ".repeat(r.level), r.name, sign)
        })
        .collect()
}

#[test]
fn folders_come_first_and_names_are_sorted_without_case() {
    let list = vec![
        changed("b.txt"),
        changed("A.txt"),
        changed("Zoo/x"),
        changed("apple/y"),
        changed("apple/B"),
        changed("apple/a"),
    ];
    let rows = build_rows(&list, &PathSet::new(), Side::Unstaged);
    assert_eq!(
        outline(&rows),
        vec!["apple/", " a", " B", " y", "Zoo/", " x", "A.txt", "b.txt"]
    );
    assert!(build_rows(&list, &PathSet::new(), Side::Staged).is_empty());
}

#[test]
fn names_that_differ_in_case_only_keep_their_order() {
    let list = vec![changed("B"), changed("b"), changed("a")];
    let rows = build_rows(&list, &PathSet::new(), Side::Unstaged);
    assert_eq!(outline(&rows), vec!["a", "B", "b"]);
}

#[test]
fn letters_beyond_ascii_are_lowered_too() {
    let list = vec![changed("Ö"), changed("ä"), changed("ö")];
    let rows = build_rows(&list, &PathSet::new(), Side::Unstaged);
    assert_eq!(outline(&rows), vec!["ä", "Ö", "ö"]);
}

#[test]
fn single_folders_share_a_row() {
    let list = vec![changed("a/b/c/x"), changed("a/b/c/d/y")];
    let rows = build_rows(&list, &PathSet::new(), Side::Unstaged);
    assert_eq!(outline(&rows), vec!["a/b/c/", " d/", "  y", " x"]);
    assert_eq!(rows[0].path, "a/b/c");
    assert_eq!(rows[1].path, "a/b/c/d");
    assert_eq!(rows[0].agg.unstaged, 2);
}

#[test]
fn a_collapsed_folder_hides_what_it_holds() {
    let list = vec![changed("a/b/x"), changed("c/y")];
    let mut collapsed = PathSet::new();
    collapsed.insert("a/b".to_string());
    collapsed.insert("c/y".to_string());
    let rows = build_rows(&list, &collapsed, Side::Unstaged);
    assert_eq!(outline(&rows), vec!["a/b+", "c/", " y"]);
    assert!(collapsed.contains("a/b"));
    collapsed.remove("a/b");
    assert!(!collapsed.contains("a/b"));
    let rows = build_rows(&list, &collapsed, Side::Unstaged);
    assert_eq!(outline(&rows), vec!["a/b/", " x", "c/", " y"]);
}

#[test]
fn every_file_of_a_side_is_shown_once_with_its_path() {
    let list = vec![
        changed("d/a"),
        entry("d/b", Stage::Added, Stage::Modified),
        entry("d/c", Stage::Deleted, Stage::Unmodified),
        untracked("e"),
        entry("f", Stage::Conflicted, Stage::Conflicted),
    ];
    for side in [Side::Unstaged, Side::Staged] {
        let rows = build_rows(&list, &PathSet::new(), side);
        for (i, e) in list.iter().enumerate() {
            let shown: Vec<&Row> = rows.iter().filter(|r| r.entry_index == Some(i)).collect();
            let belongs = match side {
                Side::Unstaged => e.in_unstaged(),
                Side::Staged => e.in_staged(),
            };
            assert_eq!(shown.len(), if belongs { 1 } else { 0 });
            for r in shown {
                assert_eq!(r.path, e.path);
            }
        }
    }
}

#[test]
fn rows_count_the_files_below_them() {
    let list = vec![
        entry("d/a", Stage::Unmodified, Stage::Modified),
        entry("d/s/b", Stage::Unmodified, Stage::Deleted),
        untracked("d/s/c"),
        entry("d/e", Stage::Conflicted, Stage::Conflicted),
        entry("d/f", Stage::Added, Stage::TypeChange),
    ];
    let rows = build_rows(&list, &PathSet::new(), Side::Unstaged);
    let top = &rows[0].agg;
    assert_eq!(rows[0].path, "d");
    assert_eq!(
        (top.staged, top.unstaged, top.untracked, top.conflict),
        (0, 3, 1, 1)
    );
    assert_eq!((top.added, top.modified, top.deleted), (0, 1, 1));
    let sub = &rows[1].agg;
    assert_eq!(rows[1].path, "d/s");
    assert_eq!((sub.unstaged, sub.untracked, sub.deleted), (1, 1, 1));
    let staged = build_rows(&list, &PathSet::new(), Side::Staged);
    assert_eq!((staged[0].agg.staged, staged[0].agg.added), (1, 1));
    assert!(staged[0].agg.has_staged() && !staged[0].agg.has_unstaged_or_untracked());
    assert!(rows[0].agg.has_unstaged_or_untracked());
}

#[test]
fn large_files_mark_their_folders() {
    let mut big = entry("d/s/big", Stage::Modified, Stage::Unmodified);
    big.lfs_tracked = true;
    big.lfs_pointer_ok = Some(false);
    let list = vec![big, entry("d/x", Stage::Modified, Stage::Unmodified)];
    let rows = build_rows(&list, &PathSet::new(), Side::Staged);
    assert_eq!(outline(&rows), vec!["d/", " s/", "  big", " x"]);
    let marks: Vec<(bool, bool)> =
        rows.iter().map(|r| (r.lfs_tracked, r.lfs_pointer_warn)).collect();
    assert_eq!(marks, vec![(true, true), (true, true), (true, true), (false, false)]);
}

#[test]
fn a_folder_and_a_file_can_have_one_name() {
    let list = vec![changed("a"), changed("a/b")];
    let rows = build_rows(&list, &PathSet::new(), Side::Unstaged);
    assert_eq!(outline(&rows), vec!["a/", " b", "a"]);
}

#[test]
fn counts_are_added() {
    let mut a = Agg::default();
    let mut b = Agg::default();
    b.staged = 2;
    b.deleted = 1;
    a.merge(&b);
    a.merge(&b);
    assert_eq!((a.staged, a.deleted, a.added), (4, 2, 0));
}

#[test]
fn nothing_is_shown_of_nothing() {
    assert!(build_rows(&[], &PathSet::new(), Side::Unstaged).is_empty());
}

#[test]
fn collapsing_hides_what_lies_below_and_nothing_else() {
    let list = vec![
        changed("d/a/x"),
        changed("d/a/y"),
        changed("d/b"),
        changed("d.txt"),
        changed("da/z"),
        changed("one/two/f"),
        changed("one/two/three/g"),
        changed("q"),
    ];
    let all = build_rows(&list, &PathSet::new(), Side::Unstaged);
    for folders in [
        vec![],
        vec!["d"],
        vec!["d/a"],
        vec!["d", "d/a", "da"],
        vec!["one"],
        vec!["one/two"],
        vec!["one/two/three", "q", "d.txt", "nowhere"],
    ] {
        let mut collapsed = PathSet::new();
        for f in &folders {
            collapsed.insert(f.to_string());
        }
        let closed: Vec<&str> = all
            .iter()
            .filter(|r| r.is_dir && folders.contains(&r.path.as_str()))
            .map(|r| r.path.as_str())
            .collect();
        let expected: Vec<String> = all
            .iter()
            .filter(|r| !closed.iter().any(|d| r.path.starts_with(&format!("{}/", d))))
            .map(|r| {
                let mut r = r.clone();
                r.expanded = r.expanded && !closed.contains(&r.path.as_str());
                format!("{:?}", r)
            })
            .collect();
        let rows = build_rows(&list, &collapsed, Side::Unstaged);
        let shown: Vec<String> = rows.iter().map(|r| format!("{:?}", r)).collect();
        assert_eq!(shown, expected);
    }
}

#[test]
fn rows_stand_in_order_below_their_folders() {
    let mut raw = changed("one/two/f");
    raw.lfs_tracked = true;
    raw.lfs_pointer_ok = Some(false);
    let mut large = changed("Zoo/x");
    large.lfs_tracked = true;
    large.lfs_pointer_ok = Some(true);
    let list = vec![
        changed("b.txt"),
        raw,
        changed("one/two/three/four/g"),
        large,
        changed("apple/core/y"),
        changed("apple/B"),
        changed("A.txt"),
    ];
    let rows = build_rows(&list, &PathSet::new(), Side::Unstaged);
    assert_eq!(
        outline(&rows),
        vec![
            "apple/",
            " core/",
            "  y",
            " B",
            "one/two/",
            " three/four/",
            "  g",
            " f",
            "Zoo/",
            " x",
            "A.txt",
            "b.txt"
        ]
    );
    for (i, r) in rows.iter().enumerate() {
        match rows[..i].iter().rev().find(|f| f.level < r.level) {
            Some(f) => {
                assert!(f.is_dir && f.expanded && f.level + 1 == r.level);
                assert_eq!(r.path, format!("{}/{}", f.path, r.name));
            }
            None => assert_eq!((r.level, &r.path), (0, &r.name)),
        }
    }
    let flags = |path: &str| {
        let r = rows.iter().find(|r| r.path == path).unwrap();
        (r.lfs_tracked, r.lfs_pointer_warn)
    };
    assert_eq!(flags("one/two"), (true, true));
    assert_eq!(flags("one/two/three/four"), (false, false));
    assert_eq!(flags("Zoo"), (true, false));
    assert_eq!(flags("apple"), (false, false));
}
