use gi::git::{FileEntry, Reply, Stage, StorageMode};
use gi::work::{Action, Answer, Job, OpDone, PushTarget, StatusReport, Worker};

fn says(stdout: &str) -> Reply {
    Reply::Exited { success: true, stdout: stdout.as_bytes().to_vec(), stderr: Vec::new() }
}

fn fails(stderr: &str) -> Reply {
    Reply::Exited { success: false, stdout: Vec::new(), stderr: stderr.as_bytes().to_vec() }
}

fn entry(path: &str, index: Stage, worktree: Stage) -> FileEntry {
    FileEntry {
        path: path.to_string(),
        index,
        worktree,
        lfs_tracked: false,
        lfs_pointer_ok: None,
        prev_storage: None,
        next_storage: None,
    }
}

/// Runs a job against a script: each call is named by its arguments, and the
/// answer to each is given.
fn run(job: Job, script: &[(&str, Reply)]) -> Result<Answer, String> {
    let mut w = Worker::new(job);
    for (call, reply) in script {
        match w.action() {
            Action::Git { args, .. } => {
                assert_eq!(&args.join(" "), call);
                w.git_replied(reply);
            }
            Action::Read { root, path } => {
                assert_eq!(&format!("read {} {}", root, path), call);
                match reply {
                    Reply::Exited { success: true, stdout, .. } => {
                        let text = String::from_utf8(stdout.clone()).unwrap();
                        w.file_read(&Some(text));
                    }
                    _ => w.file_read(&None),
                }
            }
            Action::Remove { root, path } => {
                assert_eq!(&format!("remove {} {}", root, path), call);
                w.file_removed(matches!(reply, Reply::Exited { success: true, .. }));
            }
            other => panic!("{:?} in place of {}", other, call),
        }
    }
    assert!(matches!(w.action(), Action::Finished), "{:?}", w.action());
    w.result().unwrap()
}

const STATUS: &str = "status --porcelain=v2 -z --untracked-files=all";
const BRANCH: &str = "symbolic-ref --short HEAD";
const UPSTREAM: &str = "rev-parse --abbrev-ref --symbolic-full-name @{u}";
const ROOT: &str = "rev-parse --show-toplevel";
const LOCALS: &str = "for-each-ref --sort=-committerdate refs/heads --format=%(HEAD)\x1f%(refname:short)\x1f%(upstream:short)\x1f%(upstream:track)\x1f%(objectname:short)\x1f%(contents:subject)";
const REMOTES: &str = "for-each-ref --sort=refname refs/remotes --format=%(refname:short)\x1f%(objectname:short)\x1f%(contents:subject)";
const STASHES: &str = "stash list --format=%gd%x1f%s";

fn clean() -> Vec<(&'static str, Reply)> {
    vec![(STATUS, says("")), (BRANCH, says("main\n")), (UPSTREAM, says("origin/main\n"))]
}

fn with<'a>(
    first: Vec<(&'a str, Reply)>,
    then: Vec<(&'a str, Reply)>,
) -> Vec<(&'a str, Reply)> {
    let mut all = first;
    all.extend(then);
    all
}

fn op(r: Result<Answer, String>) -> OpDone {
    match r {
        Ok(Answer::Op(done)) => done,
        other => panic!("{:?}", other),
    }
}

fn text(r: Result<Answer, String>) -> String {
    match r {
        Ok(Answer::Text(t)) => t,
        other => panic!("{:?}", other),
    }
}

fn report(r: Result<Answer, String>) -> StatusReport {
    match r {
        Ok(Answer::Status(s)) => s,
        other => panic!("{:?}", other),
    }
}

#[test]
fn tells_the_state_of_a_clean_tree() {
    let s = report(run(Job::Status, &clean()));
    assert!(s.snapshot.entries.is_empty());
    assert_eq!(s.snapshot.branch, "main");
    assert_eq!(s.snapshot.upstream, Some("origin/main".to_string()));
    assert!(s.warning.is_none());
}

#[test]
fn a_detached_head_has_no_upstream() {
    let script = vec![
        (STATUS, says("")),
        (BRANCH, fails("fatal")),
        (UPSTREAM, Reply::NotStarted),
    ];
    let s = report(run(Job::Status, &script));
    assert_eq!(s.snapshot.branch, "(detached)");
    assert_eq!(s.snapshot.upstream, None);
}

#[test]
fn asks_for_the_storage_of_every_file() {
    let status = "1 M. N... 1 1 1 a b big.bin\x001 .M N... 1 1 1 a b plain\x00? new\x00";
    let pointer = "version https://git-lfs.github.com/spec/v1\n";
    let script = vec![
        (STATUS, says(status)),
        (
            "check-attr -z --stdin filter",
            says("big.bin\0filter\0lfs\0plain\0filter\0unspecified\0new\0filter\0unset\0"),
        ),
        ("show HEAD:big.bin", says(pointer)),
        ("show :big.bin", says("raw")),
        ("show HEAD:plain", says("text")),
        (BRANCH, says("main")),
        (UPSTREAM, fails("none")),
    ];
    let s = report(run(Job::Status, &script));
    let big = &s.snapshot.entries[0];
    assert!(big.lfs_tracked);
    assert_eq!(big.prev_storage, Some(StorageMode::Lfs));
    assert_eq!(big.next_storage, Some(StorageMode::Git));
    assert_eq!(big.lfs_pointer_ok, Some(false));
    assert_eq!(s.snapshot.entries[1].prev_storage, Some(StorageMode::Git));
    assert_eq!(s.snapshot.entries[1].next_storage, None);
    assert_eq!(s.snapshot.entries[2].prev_storage, None);
}

#[test]
fn hands_the_paths_to_the_filter_call() {
    let mut w = Worker::new(Job::Status);
    assert!(matches!(w.action(), Action::Git { input: None, .. }));
    w.git_replied(&says("? a\0? b\0"));
    match w.action() {
        Action::Git { input, .. } => assert_eq!(input, Some(b"a\0b\0".to_vec())),
        other => panic!("{:?}", other),
    }
}

#[test]
fn a_failing_filter_call_leaves_a_warning() {
    let script = vec![
        (STATUS, says("? a\0")),
        ("check-attr -z --stdin filter", fails("no\n")),
        (BRANCH, says("main")),
        (UPSTREAM, fails("")),
    ];
    let s = report(run(Job::Status, &script));
    assert_eq!(s.warning, Some("git check-attr failed: no".to_string()));
    assert_eq!(s.snapshot.entries.len(), 1);
}

#[test]
fn an_unreadable_status_stops_the_worker() {
    let mut w = Worker::new(Job::Refresh);
    w.git_replied(&says("?"));
    assert!(matches!(w.action(), Action::Stopped));
    assert!(w.result().is_none());
}

#[test]
fn a_failing_status_fails_the_job() {
    let r = run(Job::Refresh, &[(STATUS, fails("broken\n"))]);
    assert_eq!(
        r.unwrap_err(),
        "git [\"status\", \"--porcelain=v2\", \"-z\", \"--untracked-files=all\"] failed: broken"
    );
}

#[test]
fn stages_and_shows_the_state() {
    let done = op(run(
        Job::Stage { path: "a b".to_string() },
        &with(vec![("add -A -- a b", says(""))], clean()),
    ));
    assert_eq!(done.toast, Some("staged a b".to_string()));
    assert!(done.status.is_some() && done.log.is_none() && done.stashes.is_none());
    let done = op(run(Job::StageAll, &with(vec![("add -A", says(""))], clean())));
    assert_eq!(done.toast, Some("staged all".to_string()));
    let r = run(Job::StageAll, &[("add -A", fails("locked\n"))]);
    assert_eq!(r.unwrap_err(), "git [\"add\", \"-A\"] failed: locked");
    let done = op(run(Job::Refresh, &clean()));
    assert_eq!(done.toast, Some("refreshed".to_string()));
}

#[test]
fn unstages_with_and_without_a_commit() {
    let job = || Job::Unstage { path: "p".to_string() };
    let head = "rev-parse --verify HEAD";
    let done = op(run(
        job(),
        &with(vec![(head, says("x")), ("restore --staged -- p", says(""))], clean()),
    ));
    assert_eq!(done.toast, Some("unstaged p".to_string()));
    op(run(
        job(),
        &with(vec![(head, fails("x")), ("rm --cached -- p", says(""))], clean()),
    ));
    let r = run(job(), &[(head, Reply::NotStarted)]);
    assert_eq!(r.unwrap_err(), "spawning git [\"rev-parse\", \"--verify\", \"HEAD\"]");
}

#[test]
fn fetches_lists() {
    let log = "log -n200 --date=short --pretty=format:%H%x1f%h%x1f%an%x1f%ad%x1f%s";
    let done = op(run(Job::FetchLog, &[(log, says("a\x1fb\x1fc\x1fd\x1fe"))]));
    assert_eq!(done.log.unwrap().len(), 1);
    let done = op(run(Job::FetchLog, &[(log, Reply::NotStarted)]));
    assert!(done.log.unwrap().is_empty());
    let done = op(run(Job::FetchStashes, &[(STASHES, says("s\x1ft"))]));
    assert_eq!(done.stashes.unwrap().len(), 1);
    let done = op(run(
        Job::FetchBranches,
        &[(LOCALS, fails("x")), (REMOTES, says("o/b\x1fc\x1fd"))],
    ));
    let b = done.branches.unwrap();
    assert_eq!((b.locals.len(), b.remotes.len()), (0, 1));
    assert!(done.toast.is_none());
}

#[test]
fn works_on_branches() {
    let lists = || vec![(LOCALS, says("")), (REMOTES, says(""))];
    let done = op(run(
        Job::Checkout { name: "dev".to_string() },
        &with(with(vec![("checkout dev", says(""))], clean()), lists()),
    ));
    assert_eq!(done.toast, Some("checked out dev".to_string()));
    assert!(done.status.is_some() && done.branches.is_some());
    let done = op(run(
        Job::CreateBranch { name: "x".to_string() },
        &with(vec![("branch x", says(""))], lists()),
    ));
    assert_eq!(done.toast, Some("created x".to_string()));
    assert!(done.status.is_none());
    let done = op(run(
        Job::DeleteBranch { name: "x".to_string(), force: true },
        &with(vec![("branch -D x", says(""))], lists()),
    ));
    assert_eq!(done.toast, Some("deleted x".to_string()));
}

#[test]
fn works_on_stashes() {
    let r = || "stash@{1}".to_string();
    let list = || vec![(STASHES, says("stash@{0}\x1fs"))];
    let done = op(run(
        Job::StashApply { reference: r() },
        &with(with(vec![("stash apply stash@{1}", says(""))], clean()), list()),
    ));
    assert_eq!(done.toast, Some("applied stash@{1}".to_string()));
    let done = op(run(
        Job::StashPop { reference: r() },
        &with(with(vec![("stash pop stash@{1}", says(""))], clean()), list()),
    ));
    assert_eq!(done.toast, Some("popped stash@{1}".to_string()));
    let done = op(run(
        Job::StashDrop { reference: r() },
        &with(vec![("stash drop stash@{1}", says(""))], list()),
    ));
    assert_eq!(done.toast, Some("dropped stash@{1}".to_string()));
    assert!(done.status.is_none());
    assert_eq!(done.stashes.unwrap().len(), 1);
}

#[test]
fn restores_and_deletes() {
    let job = || Job::RestoreFolder {
        path: "d".to_string(),
        restore: vec!["d/a".to_string(), "d/b".to_string()],
    };
    let all = vec![("restore -- d/a", says("")), ("restore -- d/b", says(""))];
    let done = op(run(job(), &with(all, clean())));
    assert_eq!(done.toast, Some("restored folder d".to_string()));
    let none = Job::RestoreFolder { path: "d".to_string(), restore: Vec::new() };
    let done = op(run(none, &clean()));
    assert_eq!(done.toast, Some("restored folder d".to_string()));
    let r = run(
        Job::DeleteUntracked { path: "n".to_string() },
        &[(ROOT, says("/r\n")), ("remove /r n", fails(""))],
    );
    assert_eq!(r.unwrap_err(), "removing n");
    let r = run(job(), &[("restore -- d/a", fails("x"))]);
    assert_eq!(r.unwrap_err(), "git [\"restore\", \"--\", \"d/a\"] failed: x");
    let done = op(run(
        Job::Restore { path: "a".to_string() },
        &with(vec![("restore -- a", says(""))], clean()),
    ));
    assert_eq!(done.toast, Some("restored a".to_string()));
    let done = op(run(
        Job::DeleteUntracked { path: "n".to_string() },
        &with(vec![(ROOT, says("/r")), ("remove /r n", says(""))], clean()),
    ));
    assert_eq!(done.toast, Some("deleted n".to_string()));
}

#[test]
fn commits_and_names_the_commit() {
    let done = op(run(
        Job::Commit { subject: "Fix".to_string(), amend: true },
        &with(
            vec![
                ("commit --amend -m Fix", says("")),
                ("rev-parse --short HEAD", says("abc1\n")),
            ],
            clean(),
        ),
    ));
    assert_eq!(done.toast, Some("committed abc1".to_string()));
}

#[test]
fn pushes_and_shows_the_first_line() {
    let push = Reply::Exited {
        success: true,
        stdout: Vec::new(),
        stderr: b"To origin\n  main -> main\n".to_vec(),
    };
    let job = |up| Job::Push {
        remote: "origin".to_string(),
        branch: "main".to_string(),
        set_upstream: up,
    };
    let done = op(run(job(true), &with(vec![("push -u origin main", push)], clean())));
    assert_eq!(done.toast, Some("pushed: To origin".to_string()));
    let done = op(run(job(false), &with(vec![("push origin main", says(""))], clean())));
    assert_eq!(done.toast, Some("pushed: ".to_string()));
    let r = run(job(false), &[("push origin main", fails("rejected\n"))]);
    assert_eq!(r.unwrap_err(), "push failed: rejected");
}

#[test]
fn shows_how_files_differ() {
    let job = |index, worktree| Job::Diff { entry: entry("p", index, worktree) };
    let tree = "diff -- p";
    let index = "diff --cached -- p";
    let new = || job(Stage::Untracked, Stage::Untracked);
    let t = text(run(new(), &[(ROOT, says("/r\n")), ("read /r p", says("x\n"))]));
    assert_eq!(t, "--- /dev/null\n+++ b/p\n+x\n");
    let t = text(run(new(), &[(ROOT, says("/r\n")), ("read /r p", fails(""))]));
    assert_eq!(t, "(binary or unreadable: p)");
    let t = text(run(new(), &[(ROOT, fails("x"))]));
    assert_eq!(t, "error: git [\"rev-parse\", \"--show-toplevel\"] failed: x");
    let t = text(run(job(Stage::Modified, Stage::Modified), &[(tree, says("+a\n"))]));
    assert_eq!(t, "+a\n");
    let t = text(run(
        job(Stage::Modified, Stage::Modified),
        &[(tree, says(" \n")), (index, says("+b"))],
    ));
    assert_eq!(t, "+b");
    let t = text(run(
        job(Stage::Modified, Stage::Modified),
        &[(tree, fails("e")), (index, fails("no"))],
    ));
    assert_eq!(t, "error: git [\"diff\", \"--cached\", \"--\", \"p\"] failed: no");
    let t = text(run(job(Stage::Unmodified, Stage::Modified), &[(tree, says(""))]));
    assert_eq!(t, "");
    let t = text(run(job(Stage::Unmodified, Stage::Unmodified), &[]));
    assert_eq!(t, "");
}

#[test]
fn shows_commits_stashes_and_subjects() {
    let t = text(run(
        Job::ShowCommit { sha: "aa".to_string() },
        &[("show --color=never --stat -p aa", says("body"))],
    ));
    assert_eq!(t, "body");
    let t = text(run(
        Job::ShowStash { reference: "s".to_string() },
        &[("stash show --color=never -p s", Reply::NotStarted)],
    ));
    assert_eq!(
        t,
        "error: spawning git [\"stash\", \"show\", \"--color=never\", \"-p\", \"s\"]"
    );
    assert_eq!(text(run(Job::LastSubject, &[("log -1 --pretty=%s", says("Sub\n"))])), "Sub");
    assert_eq!(text(run(Job::LastSubject, &[("log -1 --pretty=%s", fails("x"))])), "");
}

#[test]
fn finds_where_to_push() {
    let target = |script: &[(&str, Reply)]| match run(Job::FindPushTarget, script) {
        Ok(Answer::Push(t)) => Ok(t),
        Ok(other) => panic!("{:?}", other),
        Err(e) => Err(e),
    };
    match target(&[(BRANCH, fails("fatal: x"))]) {
        Ok(PushTarget::NoBranch { message }) => assert_eq!(
            message,
            "git [\"symbolic-ref\", \"--short\", \"HEAD\"] failed: fatal: x"
        ),
        other => panic!("{:?}", other),
    }
    match target(&[(BRANCH, says("main")), (UPSTREAM, says("origin/main"))]) {
        Ok(PushTarget::Upstream { upstream, branch }) => {
            assert_eq!((upstream.as_str(), branch.as_str()), ("origin/main", "main"))
        }
        other => panic!("{:?}", other),
    }
    match target(&[(BRANCH, says("main")), (UPSTREAM, fails("")), ("remote", says("a\nb\n"))]) {
        Ok(PushTarget::Remotes { remotes, branch }) => {
            assert_eq!(remotes, vec!["a", "b"]);
            assert_eq!(branch, "main");
        }
        other => panic!("{:?}", other),
    }
    assert!(target(&[(BRANCH, says("main")), (UPSTREAM, Reply::NotStarted)]).is_err());
    assert!(target(&[
        (BRANCH, says("main")),
        (UPSTREAM, fails("")),
        ("remote", fails("x"))
    ])
    .is_err());
}
