use gi::app::{
    breaks_off, App, BranchFocus, BranchesSnapshot, CommitInput, ConfirmKind, DiffView, Focus, Key,
    KeyCode, LogFocus, Modal, NewBranchInput, OpDone, Polled, PushDialog, StashFocus,
    StatusSnapshot, Tab,
};
use gi::git::{Commit, FileEntry, LocalBranch, RemoteBranch, Stage, Stash};
use gi::work::{Answer, Job, PushTarget, StatusReport};

fn entry(path: &str, index: Stage, worktree: Stage) -> FileEntry {
    FileEntry {
        path: path.to_string(),
        index,
        worktree,
        lfs_tracked: false,
        lfs_pointer_ok: None,
        prev_storage: None,
        next_storage: None,
    }
}

fn changed(path: &str) -> FileEntry {
    entry(path, Stage::Unmodified, Stage::Modified)
}

fn staged(path: &str) -> FileEntry {
    entry(path, Stage::Modified, Stage::Unmodified)
}

fn untracked(path: &str) -> FileEntry {
    entry(path, Stage::Untracked, Stage::Untracked)
}

fn snapshot(entries: Vec<FileEntry>) -> StatusSnapshot {
    StatusSnapshot { entries, branch: "main".to_string(), upstream: None }
}

fn open(entries: Vec<FileEntry>) -> App {
    let report = StatusReport { snapshot: snapshot(entries), warning: None };
    App::new(7, Ok(report)).unwrap().0
}

fn press(app: &mut App, code: KeyCode) -> Option<Job> {
    app.handle_key(Key { code, ctrl: false })
}

fn typed(app: &mut App, c: char) -> Option<Job> {
    press(app, KeyCode::Char(c))
}

fn ctrl(app: &mut App, code: KeyCode) -> Option<Job> {
    app.handle_key(Key { code, ctrl: true })
}

fn pending(app: &App) -> (String, Job) {
    let p = app.pending.as_ref().unwrap();
    (p.label.clone(), p.job.clone())
}

fn message(app: &App) -> &str {
    &app.status_line.as_ref().unwrap().0
}

fn nothing() -> OpDone {
    OpDone::default()
}

fn finish(app: &mut App, done: OpDone) -> Vec<Job> {
    app.poll(Polled::Done(Ok(done)))
}

fn commit(sha: &str) -> Commit {
    Commit {
        sha: sha.to_string(),
        short: sha.to_string(),
        author: "Me".to_string(),
        date: "2024-01-01".to_string(),
        subject: "s".to_string(),
    }
}

fn stash(reference: &str) -> Stash {
    Stash { reference: reference.to_string(), subject: "wip".to_string() }
}

fn local(name: &str, is_head: bool) -> LocalBranch {
    LocalBranch {
        name: name.to_string(),
        is_head,
        upstream: None,
        ahead: 0,
        behind: 0,
        gone: false,
        short: "abc".to_string(),
        subject: "s".to_string(),
    }
}

fn remote(name: &str) -> RemoteBranch {
    RemoteBranch {
        remote: "origin".to_string(),
        name: name.to_string(),
        short: "abc".to_string(),
        subject: "s".to_string(),
    }
}

#[test]
fn starts_with_the_rows_of_both_sides() {
    let report = StatusReport {
        snapshot: StatusSnapshot {
            entries: vec![staged("s"), changed("c")],
            branch: "dev".to_string(),
            upstream: Some("origin/dev".to_string()),
        },
        warning: None,
    };
    let (app, ask) = App::new(7, Ok(report)).unwrap();
    let paths: Vec<&str> = app.rows.iter().map(|r| r.path.as_str()).collect();
    assert_eq!(paths, vec!["c", "s"]);
    assert_eq!((app.branch.as_str(), app.cursor), ("dev", 0));
    assert_eq!(app.upstream, Some("origin/dev".to_string()));
    assert!(matches!(ask, Some(Job::Diff { entry }) if entry.path == "c"));
    assert!(app.status_line.is_none() && app.pending.is_none() && !app.quit);
    assert_eq!(App::new(7, Err("no".to_string())).err(), Some("no".to_string()));
}

#[test]
fn a_warning_is_shown() {
    let report = StatusReport {
        snapshot: snapshot(vec![]),
        warning: Some("git check-attr failed: x".to_string()),
    };
    let (app, ask) = App::new(7, Ok(report)).unwrap();
    assert_eq!(
        app.status_line,
        Some(("LFS annotate failed: git check-attr failed: x".to_string(), 7))
    );
    assert!(ask.is_none());
    assert_eq!(app.diff_text, "");
}

#[test]
fn the_cursor_moves_within_the_rows() {
    let mut app = open(vec![changed("a"), changed("b"), changed("c")]);
    assert!(press(&mut app, KeyCode::Up).is_none());
    app.diff_scroll = 5;
    assert!(matches!(typed(&mut app, 'j'), Some(Job::Diff { entry }) if entry.path == "b"));
    assert_eq!((app.cursor, app.diff_scroll), (1, 0));
    assert!(press(&mut app, KeyCode::End).is_some());
    assert_eq!(app.cursor, 2);
    assert!(press(&mut app, KeyCode::Down).is_none());
    assert!(typed(&mut app, 'k').is_some());
    assert!(press(&mut app, KeyCode::Home).is_some());
    assert_eq!(app.cursor, 0);
    let mut empty = open(vec![]);
    for code in [KeyCode::Up, KeyCode::Down, KeyCode::Home, KeyCode::End, KeyCode::Tab] {
        assert!(press(&mut empty, code).is_none());
    }
    assert_eq!((empty.cursor, empty.focus), (0, Focus::Files));
}

#[test]
fn answers_are_shown() {
    let mut app = open(vec![changed("a")]);
    let ask = app.refresh_diff().unwrap();
    app.answer(&ask, Ok(Answer::Text("+x".to_string())));
    assert_eq!(app.diff_text, "+x");
    app.answer(&Job::ShowCommit { sha: "s".to_string() }, Ok(Answer::Text("c".to_string())));
    app.answer(
        &Job::ShowStash { reference: "s".to_string() },
        Ok(Answer::Text("t".to_string())),
    );
    assert_eq!((app.log.details_text.as_str(), app.stash.details_text.as_str()), ("c", "t"));
}

#[test]
fn folders_are_folded_and_described() {
    let mut app = open(vec![changed("d/a"), changed("d/b"), untracked("d/c")]);
    assert_eq!(app.diff_text, "(folder d — 3 changed file(s))");
    assert!(press(&mut app, KeyCode::Left).is_none());
    assert_eq!(app.rows.len(), 1);
    assert!(!app.rows[0].expanded && app.collapsed.contains("d"));
    typed(&mut app, 'l');
    assert_eq!(app.rows.len(), 4);
    app.enter_action();
    assert_eq!(app.rows.len(), 1);
    app.enter_action();
    assert_eq!(app.rows.len(), 4);
    press(&mut app, KeyCode::End);
    typed(&mut app, 'h');
    assert_eq!(app.cursor, 0);
}

#[test]
fn the_difference_opens_and_closes() {
    let mut app = open(vec![changed("a")]);
    press(&mut app, KeyCode::Tab);
    assert_eq!((app.diff_view, app.focus), (DiffView::Split, Focus::Diff));
    press(&mut app, KeyCode::Enter);
    assert_eq!(app.diff_view, DiffView::Full);
    press(&mut app, KeyCode::Enter);
    assert_eq!(app.diff_view, DiffView::Split);
    press(&mut app, KeyCode::Esc);
    assert_eq!((app.diff_view, app.focus), (DiffView::Hidden, Focus::Files));
    app.enter_action();
    assert_eq!((app.diff_view, app.focus), (DiffView::Split, Focus::Files));
    app.enter_action();
    assert_eq!(app.diff_view, DiffView::Hidden);
    press(&mut app, KeyCode::Right);
    assert_eq!(app.focus, Focus::Diff);
}

#[test]
fn the_difference_scrolls() {
    let mut app = open(vec![changed("a")]);
    press(&mut app, KeyCode::Tab);
    app.diff_text = "1\n2\n3".to_string();
    press(&mut app, KeyCode::Up);
    assert_eq!(app.diff_scroll, 0);
    press(&mut app, KeyCode::PageDown);
    press(&mut app, KeyCode::Down);
    assert_eq!(app.diff_scroll, 11);
    press(&mut app, KeyCode::PageUp);
    assert_eq!(app.diff_scroll, 1);
    press(&mut app, KeyCode::End);
    assert_eq!(app.diff_scroll, 2);
    app.diff_scroll = u16::MAX;
    press(&mut app, KeyCode::Down);
    assert_eq!(app.diff_scroll, u16::MAX);
    press(&mut app, KeyCode::Home);
    assert_eq!(app.diff_scroll, 0);
    app.diff_text = "x\n".repeat(65536 + 5);
    press(&mut app, KeyCode::End);
    assert_eq!(app.diff_scroll, 4);
    app.diff_text = String::new();
    press(&mut app, KeyCode::End);
    assert_eq!(app.diff_scroll, 0);
}

#[test]
fn stages_what_is_not_staged_and_unstages_the_rest() {
    for code in [KeyCode::Char(' '), KeyCode::Enter] {
        let mut app = open(vec![changed("a")]);
        press(&mut app, code);
        let (label, job) = pending(&app);
        assert_eq!(label, "staging a");
        assert!(matches!(job, Job::Stage { path } if path == "a"));
        assert_eq!(app.pending.as_ref().unwrap().started, 7);
        let mut app = open(vec![staged("a")]);
        press(&mut app, code);
        let (label, job) = pending(&app);
        assert_eq!(label, "unstaging a");
        assert!(matches!(job, Job::Unstage { path } if path == "a"));
        let mut app = open(vec![changed("d/a"), changed("d/b")]);
        press(&mut app, code);
        assert!(matches!(pending(&app), (_, Job::Stage { path }) if path == "d"));
        assert_eq!(app.rows.len(), 3);
    }
    let mut app = open(vec![changed("a")]);
    typed(&mut app, 'u');
    assert!(app.pending.is_none());
    typed(&mut app, 'a');
    assert!(matches!(pending(&app), (l, Job::StageAll) if l == "staging all"));
    let mut app = open(vec![changed("a")]);
    typed(&mut app, 'r');
    assert!(matches!(pending(&app), (l, Job::Refresh) if l == "refreshing"));
}

#[test]
fn while_a_job_runs_only_quitting_works() {
    let mut app = open(vec![changed("a"), changed("b")]);
    typed(&mut app, 'r');
    assert!(press(&mut app, KeyCode::Down).is_none());
    typed(&mut app, 'a');
    assert_eq!(app.cursor, 0);
    assert!(matches!(pending(&app).1, Job::Refresh));
    app.start("other".to_string(), Job::StageAll);
    assert!(matches!(pending(&app).1, Job::Refresh));
    app.modal = Modal::Commit(CommitInput::new());
    typed(&mut app, 'q');
    assert!(!app.quit);
    app.modal = Modal::NewBranch(NewBranchInput::new());
    typed(&mut app, 'q');
    assert!(!app.quit);
    app.modal = Modal::Nothing;
    typed(&mut app, 'q');
    assert!(app.quit);
}

#[test]
fn jobs_in_the_background_end() {
    let mut app = open(vec![changed("a")]);
    assert!(app.poll(Polled::Disconnected).is_empty());
    assert!(app.status_line.is_none());
    typed(&mut app, 'r');
    app.poll(Polled::Running);
    assert!(app.pending.is_some());
    app.tick(9);
    app.poll(Polled::Done(Err("boom".to_string())));
    assert!(app.pending.is_none());
    assert_eq!(app.status_line, Some(("error: boom".to_string(), 9)));
    typed(&mut app, 'r');
    app.poll(Polled::Disconnected);
    assert_eq!(message(&app), "worker disconnected");
}

#[test]
fn the_cursor_follows_its_path() {
    let mut app = open(vec![changed("a"), changed("b"), changed("c")]);
    press(&mut app, KeyCode::End);
    app.log.loaded = true;
    typed(&mut app, 'r');
    app.modal = Modal::Commit(CommitInput::new());
    let asks = finish(
        &mut app,
        OpDone {
            toast: Some("done".to_string()),
            status: Some(snapshot(vec![changed("c")])),
            ..nothing()
        },
    );
    assert_eq!((app.cursor, app.rows.len()), (0, 1));
    assert_eq!(asks.len(), 1);
    assert!(matches!(app.modal, Modal::Nothing));
    assert!(!app.log.loaded && !app.branches.loaded);
    assert_eq!(message(&app), "done");
    let mut app = open(vec![changed("a"), changed("b"), changed("c")]);
    press(&mut app, KeyCode::End);
    app.refresh(Ok(StatusReport {
        snapshot: snapshot(vec![changed("a"), changed("b")]),
        warning: None,
    }))
    .unwrap();
    assert_eq!(app.cursor, 1);
    assert_eq!(app.refresh(Err("x".to_string())).err(), Some("x".to_string()));
    assert_eq!(app.rows.len(), 2);
}

#[test]
fn a_job_can_ask_for_three_things() {
    let mut app = open(vec![]);
    typed(&mut app, 'r');
    app.log.cursor = 0;
    let asks = finish(
        &mut app,
        OpDone {
            toast: None,
            status: Some(snapshot(vec![changed("a")])),
            log: Some(vec![commit("aa")]),
            stashes: Some(vec![stash("s0")]),
            branches: Some(BranchesSnapshot {
                locals: vec![local("main", true)],
                remotes: vec![],
            }),
        },
    );
    assert_eq!(asks.len(), 3);
    assert!(matches!(&asks[0], Job::Diff { .. }));
    assert!(matches!(&asks[1], Job::ShowCommit { sha } if sha == "aa"));
    assert!(matches!(&asks[2], Job::ShowStash { reference } if reference == "s0"));
    assert!(app.log.loaded && app.stash.loaded && app.branches.loaded);
}

#[test]
fn switching_fetches_what_is_missing() {
    let mut app = open(vec![changed("a")]);
    typed(&mut app, '1');
    assert!(app.pending.is_none());
    typed(&mut app, '2');
    assert_eq!(app.tab, Tab::Stash);
    assert!(matches!(pending(&app), (l, Job::FetchStashes) if l == "fetching stash list"));
    finish(&mut app, OpDone { stashes: Some(vec![]), ..nothing() });
    typed(&mut app, '3');
    assert!(matches!(pending(&app), (l, Job::FetchLog) if l == "fetching log"));
    finish(&mut app, OpDone { log: Some(vec![]), ..nothing() });
    typed(&mut app, '4');
    assert!(matches!(pending(&app), (l, Job::FetchBranches) if l == "fetching branches"));
    let none = BranchesSnapshot { locals: vec![], remotes: vec![] };
    finish(&mut app, OpDone { branches: Some(none), ..nothing() });
    typed(&mut app, '2');
    assert!(app.pending.is_none());
    app.diff_view = DiffView::Full;
    app.focus = Focus::Diff;
    assert!(matches!(typed(&mut app, '1'), Some(Job::Diff { .. })));
    assert_eq!((app.diff_view, app.focus, app.cursor), (DiffView::Hidden, Focus::Files, 0));
}

#[test]
fn the_log_is_walked() {
    let mut app = open(vec![]);
    app.tab = Tab::Log;
    press(&mut app, KeyCode::Enter);
    assert_eq!(app.log.focus, LogFocus::List);
    app.refresh_log();
    finish(&mut app, OpDone { log: Some(vec![commit("a"), commit("b")]), ..nothing() });
    app.log.details_scroll = 3;
    assert!(matches!(typed(&mut app, 'j'), Some(Job::ShowCommit { sha }) if sha == "b"));
    assert_eq!((app.log.cursor, app.log.details_scroll), (1, 0));
    press(&mut app, KeyCode::Enter);
    assert_eq!(app.log.focus, LogFocus::Details);
    press(&mut app, KeyCode::PageDown);
    assert_eq!(app.log.details_scroll, 10);
    typed(&mut app, 'h');
    assert_eq!(app.log.focus, LogFocus::List);
    typed(&mut app, 'r');
    finish(&mut app, OpDone { log: Some(vec![commit("a")]), ..nothing() });
    assert_eq!(app.log.cursor, 0);
    app.refresh_log();
    finish(&mut app, OpDone { log: Some(vec![]), ..nothing() });
    assert_eq!((app.log.cursor, app.log.details_text.as_str()), (0, ""));
}

#[test]
fn stashes_are_applied_popped_and_dropped() {
    let mut app = open(vec![]);
    app.tab = Tab::Stash;
    typed(&mut app, 'a');
    typed(&mut app, 'p');
    assert!(app.pending.is_none() && matches!(app.modal, Modal::Nothing));
    app.refresh_stash();
    finish(&mut app, OpDone { stashes: Some(vec![stash("stash@{0}")]), ..nothing() });
    typed(&mut app, 'p');
    match &app.modal {
        Modal::Confirm(c) => {
            assert_eq!(c.title, "Pop stash?");
            assert_eq!(
                c.message,
                "Pop stash@{0} into working tree? Stash will be removed. [y/N]"
            );
        }
        other => panic!("{:?}", other),
    }
    typed(&mut app, 'x');
    assert!(matches!(app.modal, Modal::Confirm(_)));
    typed(&mut app, 'n');
    assert!(matches!(app.modal, Modal::Nothing) && app.pending.is_none());
    typed(&mut app, 'p');
    typed(&mut app, 'y');
    assert!(matches!(pending(&app), (l, Job::StashPop { .. }) if l == "popping stash@{0}"));
    app.poll(Polled::Running);
    app.pending = None;
    typed(&mut app, 'd');
    typed(&mut app, 'Y');
    assert!(matches!(pending(&app), (l, Job::StashDrop { .. }) if l == "dropping stash@{0}"));
    app.pending = None;
    typed(&mut app, 'a');
    assert!(matches!(pending(&app), (l, Job::StashApply { .. }) if l == "applying stash@{0}"));
    app.pending = None;
    typed(&mut app, 'l');
    assert_eq!(app.stash.focus, StashFocus::Details);
    press(&mut app, KeyCode::Tab);
    assert_eq!(app.stash.focus, StashFocus::List);
}

#[test]
fn branches_are_checked_out_and_deleted() {
    let mut app = open(vec![]);
    app.tab = Tab::Branches;
    press(&mut app, KeyCode::Enter);
    assert!(app.pending.is_none());
    app.refresh_branches();
    let lists = BranchesSnapshot {
        locals: vec![local("main", true), local("dev", false)],
        remotes: vec![remote("x")],
    };
    finish(&mut app, OpDone { branches: Some(lists), ..nothing() });
    typed(&mut app, 'd');
    assert_eq!(message(&app), "cannot delete current branch");
    press(&mut app, KeyCode::End);
    assert_eq!(app.branches.local_cursor, 1);
    typed(&mut app, 'd');
    match &app.modal {
        Modal::Confirm(c) => {
            assert_eq!((c.title.as_str(), c.message.as_str()), (
                "Delete branch?",
                "Delete branch 'dev'? [y/N]"
            ));
        }
        other => panic!("{:?}", other),
    }
    press(&mut app, KeyCode::Esc);
    typed(&mut app, 'D');
    match &app.modal {
        Modal::Confirm(c) => assert_eq!(
            c.message,
            "Force-delete 'dev' (git branch -D)? Unmerged work will be lost. [y/N]"
        ),
        other => panic!("{:?}", other),
    }
    typed(&mut app, 'y');
    assert!(matches!(
        pending(&app),
        (l, Job::DeleteBranch { force: true, .. }) if l == "deleting dev"
    ));
    app.pending = None;
    press(&mut app, KeyCode::Enter);
    assert!(matches!(pending(&app), (_, Job::Checkout { name }) if name == "dev"));
    app.pending = None;
    press(&mut app, KeyCode::Tab);
    assert_eq!(app.branches.focus, BranchFocus::Remote);
    typed(&mut app, 'd');
    assert_eq!(message(&app), "delete only for local branches");
    press(&mut app, KeyCode::Enter);
    assert_eq!(pending(&app).0, "checking out x");
    app.pending = None;
    typed(&mut app, 'h');
    press(&mut app, KeyCode::Home);
    assert_eq!(app.branches.local_cursor, 0);
}

#[test]
fn a_branch_is_named() {
    let mut app = open(vec![]);
    app.tab = Tab::Branches;
    typed(&mut app, 'n');
    press(&mut app, KeyCode::Enter);
    assert_eq!(message(&app), "branch name required");
    for c in " my q".chars() {
        typed(&mut app, c);
    }
    ctrl(&mut app, KeyCode::Char('x'));
    assert!(matches!(&app.modal, Modal::NewBranch(n) if n.name == " my q"));
    press(&mut app, KeyCode::Backspace);
    press(&mut app, KeyCode::Backspace);
    press(&mut app, KeyCode::Enter);
    assert!(matches!(app.modal, Modal::Nothing));
    assert!(matches!(
        pending(&app),
        (l, Job::CreateBranch { name }) if l == "creating my" && name == "my"
    ));
}

#[test]
fn words_are_taken_off() {
    let mut app = open(vec![]);
    typed(&mut app, 'c');
    for c in "one two  ".chars() {
        typed(&mut app, c);
    }
    ctrl(&mut app, KeyCode::Backspace);
    assert!(matches!(&app.modal, Modal::Commit(c) if c.subject == "one "));
    ctrl(&mut app, KeyCode::Backspace);
    ctrl(&mut app, KeyCode::Backspace);
    press(&mut app, KeyCode::Backspace);
    assert!(matches!(&app.modal, Modal::Commit(c) if c.subject.is_empty()));
}

#[test]
fn a_commit_needs_a_subject() {
    let mut app = open(vec![staged("a")]);
    typed(&mut app, 'c');
    typed(&mut app, ' ');
    press(&mut app, KeyCode::Enter);
    assert_eq!(message(&app), "commit subject required");
    typed(&mut app, 'F');
    ctrl(&mut app, KeyCode::Char('s'));
    assert!(matches!(&app.modal, Modal::Commit(c) if c.subject == " F"));
    assert!(matches!(
        pending(&app),
        (l, Job::Commit { subject, amend: false }) if l == "committing" && subject == " F"
    ));
}

#[test]
fn amending_fetches_the_subject() {
    let mut app = open(vec![]);
    typed(&mut app, 'c');
    let ask = ctrl(&mut app, KeyCode::Char('a')).unwrap();
    assert!(matches!(ask, Job::LastSubject));
    app.answer(&ask, Ok(Answer::Text("Last".to_string())));
    assert!(matches!(&app.modal, Modal::Commit(c) if c.subject == "Last" && c.amend));
    assert!(ctrl(&mut app, KeyCode::Char('a')).is_none());
    assert!(ctrl(&mut app, KeyCode::Char('a')).is_none());
    press(&mut app, KeyCode::Esc);
    assert!(matches!(app.modal, Modal::Nothing));
    app.answer(&Job::LastSubject, Ok(Answer::Text("x".to_string())));
    assert!(matches!(app.modal, Modal::Nothing));
}

#[test]
fn raw_large_files_are_asked_about() {
    let mut big = staged("big");
    big.lfs_tracked = true;
    big.lfs_pointer_ok = Some(false);
    let mut gone = entry("gone", Stage::Deleted, Stage::Unmodified);
    gone.lfs_tracked = true;
    gone.lfs_pointer_ok = Some(false);
    let mut second = staged("second");
    second.lfs_tracked = true;
    second.lfs_pointer_ok = Some(false);
    let mut app = open(vec![big, gone, second, staged("x")]);
    assert_eq!(app.staged_counts(), (1, 3));
    typed(&mut app, 'c');
    typed(&mut app, 'm');
    press(&mut app, KeyCode::Enter);
    assert!(app.pending.is_none());
    match &app.modal {
        Modal::Confirm(c) => {
            assert_eq!(c.title, "LFS pointer mismatch");
            assert_eq!(
                c.message,
                "Files match LFS pattern but staged as raw blobs:\n  big\n  second\nCommit anyway? [y/N]"
            );
            assert!(matches!(&c.kind, ConfirmKind::CommitDespiteLfs { pending } if pending.subject == "m"));
        }
        other => panic!("{:?}", other),
    }
    typed(&mut app, 'y');
    assert!(matches!(pending(&app).1, Job::Commit { subject, .. } if subject == "m"));
    assert!(matches!(app.modal, Modal::Commit(_)));
}

#[test]
fn discarding_asks_first() {
    let mut app = open(vec![untracked("n")]);
    typed(&mut app, 'd');
    match &app.modal {
        Modal::Confirm(c) => assert_eq!(
            (c.title.as_str(), c.message.as_str()),
            ("Delete untracked file?", "Permanently delete n from disk? [y/N]")
        ),
        other => panic!("{:?}", other),
    }
    typed(&mut app, 'y');
    assert!(matches!(pending(&app), (l, Job::DeleteUntracked { .. }) if l == "deleting n"));
    let mut app = open(vec![changed("c")]);
    typed(&mut app, 'd');
    match &app.modal {
        Modal::Confirm(c) => assert_eq!(
            (c.title.as_str(), c.message.as_str()),
            (
                "Discard changes?",
                "Restore c from index/HEAD? Working tree changes will be lost. [y/N]"
            )
        ),
        other => panic!("{:?}", other),
    }
    typed(&mut app, 'y');
    assert!(matches!(pending(&app), (l, Job::Restore { .. }) if l == "restoring c"));
    let mut app = open(vec![staged("s")]);
    typed(&mut app, 'd');
    assert_eq!(message(&app), "nothing to discard");
    let mut app = open(vec![entry("d/x", Stage::Conflicted, Stage::Conflicted)]);
    typed(&mut app, 'd');
    assert_eq!(message(&app), "nothing to discard");
}

#[test]
fn the_tracked_files_of_a_folder_are_restored() {
    let mut app = open(vec![
        changed("d/a"),
        untracked("d/n"),
        staged("d/s"),
        entry("d/sub/b", Stage::Added, Stage::Deleted),
        changed("dx/c"),
    ]);
    typed(&mut app, 'd');
    match &app.modal {
        Modal::Confirm(c) => {
            assert_eq!(c.title, "Discard changes in folder?");
            assert_eq!(
                c.message,
                "Restore tracked files under 'd' to HEAD/index?\nUntracked files in this folder remain. [y/N]"
            );
        }
        other => panic!("{:?}", other),
    }
    typed(&mut app, 'y');
    match pending(&app) {
        (label, Job::RestoreFolder { path, restore }) => {
            assert_eq!((label.as_str(), path.as_str()), ("restoring d", "d"));
            assert_eq!(restore, vec!["d/a", "d/sub/b"]);
        }
        other => panic!("{:?}", other),
    }
}

#[test]
fn untracked_files_of_a_folder_remain() {
    let mut app = open(vec![untracked("d/f")]);
    typed(&mut app, 'd');
    typed(&mut app, 'y');
    assert!(matches!(
        pending(&app),
        (l, Job::RestoreFolder { path, restore })
            if l == "restoring d" && path == "d" && restore.is_empty()
    ));
}

#[test]
fn a_branch_with_an_upstream_is_pushed_there() {
    let mut app = open(vec![]);
    let ask = typed(&mut app, 'P').unwrap();
    assert!(matches!(ask, Job::FindPushTarget));
    let found = PushTarget::Upstream {
        upstream: "fork/main".to_string(),
        branch: "main".to_string(),
    };
    app.answer(&ask, Ok(Answer::Push(found)));
    match pending(&app) {
        (label, Job::Push { remote, branch, set_upstream }) => {
            assert_eq!(label, "pushing main → fork");
            assert_eq!((remote.as_str(), branch.as_str(), set_upstream), ("fork", "main", false));
        }
        other => panic!("{:?}", other),
    }
}

#[test]
fn a_remote_is_proposed_or_picked() {
    let remotes = |list: &[&str]| PushTarget::Remotes {
        remotes: list.iter().map(|s| s.to_string()).collect(),
        branch: "main".to_string(),
    };
    let mut app = open(vec![]);
    app.push_target_found(Ok(remotes(&[])));
    assert_eq!(message(&app), "no remotes configured");
    app.push_target_found(Ok(PushTarget::NoBranch { message: "m".to_string() }));
    assert_eq!(message(&app), "no branch: m");
    app.push_target_found(Err("e".to_string()));
    assert_eq!(message(&app), "error: e");
    app.push_target_found(Ok(remotes(&["a", "origin"])));
    assert!(matches!(
        &app.modal,
        Modal::Push(PushDialog::Confirm { remote, .. }) if remote == "origin"
    ));
    typed(&mut app, 'n');
    assert!(matches!(app.modal, Modal::Nothing));
    app.push_target_found(Ok(remotes(&["a", "b"])));
    typed(&mut app, 'k');
    typed(&mut app, 'j');
    press(&mut app, KeyCode::Down);
    assert!(matches!(app.modal, Modal::Push(PushDialog::Pick { cursor: 1, .. })));
    press(&mut app, KeyCode::Enter);
    assert!(matches!(
        &app.modal,
        Modal::Push(PushDialog::Confirm { remote, .. }) if remote == "b"
    ));
    press(&mut app, KeyCode::Enter);
    assert!(matches!(app.modal, Modal::Nothing));
    assert!(matches!(pending(&app).1, Job::Push { set_upstream: true, .. }));
}

#[test]
fn lists_are_replaced_and_their_cursors_stay_near() {
    let mut app = open(vec![]);
    app.refresh_log();
    finish(
        &mut app,
        OpDone { log: Some(vec![commit("a"), commit("b"), commit("c")]), ..nothing() },
    );
    app.log.cursor = 2;
    app.stash.cursor = 0;
    app.refresh_log();
    finish(&mut app, OpDone { log: Some(vec![commit("d"), commit("e")]), ..nothing() });
    assert_eq!((app.log.cursor, app.log.commits.len(), app.log.loaded), (1, 2, true));
    app.refresh_stash();
    finish(&mut app, OpDone { stashes: Some(vec![stash("s")]), ..nothing() });
    assert_eq!((app.log.cursor, app.log.commits.len()), (1, 2));
    assert_eq!((app.stash.cursor, app.stash.stashes.len(), app.stash.loaded), (0, 1, true));
    let asks = app.apply_op(OpDone { log: Some(vec![]), ..nothing() });
    assert!(asks.is_empty());
    assert_eq!((app.log.cursor, app.log.commits.len()), (0, 0));
    assert_eq!(app.stash.stashes.len(), 1);
}

#[test]
fn waits_for_keys_and_breaks_off() {
    let mut app = open(vec![]);
    assert_eq!(app.wait(), 200);
    typed(&mut app, 'r');
    assert_eq!(app.wait(), 80);
    assert!(breaks_off(Key { code: KeyCode::Char('c'), ctrl: true }));
    assert!(!breaks_off(Key { code: KeyCode::Char('c'), ctrl: false }));
    assert!(!breaks_off(Key { code: KeyCode::Char('C'), ctrl: true }));
    assert!(!breaks_off(Key { code: KeyCode::Enter, ctrl: true }));
}
