use gi::git::{
    annotate_lfs, attr_filter, attr_filter_args, attr_filter_input, blob_args,
    blob_is_lfs_pointer, branch_create, branch_create_args, branch_delete, branch_delete_args,
    checkout_branch, checkout_branch_args, commit, commit_args, current_branch,
    current_branch_args, delete_untracked, diff_cached, diff_cached_args, diff_untracked,
    diff_worktree, diff_worktree_args, has_head, head_args, last_commit_subject,
    last_commit_subject_args, local_branches, local_branches_args, log, log_args,
    parse_porcelain_v2, parse_track, push, push_args, read_status, remote_branches,
    remote_branches_args, remotes, remotes_args, repo_root, repo_root_args, restore_worktree,
    restore_worktree_args, short_head, short_head_args, show_commit, show_commit_args, stage,
    stage_all, stage_all_args, stage_args, stash_apply, stash_apply_args, stash_drop,
    stash_drop_args, stash_list, stash_list_args, stash_pop, stash_pop_args, stash_show,
    stash_show_args, status, status_args, storage_of, unstage, unstage_args, upstream,
    upstream_args, FileEntry, GitError, Reply, Stage, StorageMode,
};

fn says(stdout: &str) -> Reply {
    Reply::Exited { success: true, stdout: stdout.as_bytes().to_vec(), stderr: Vec::new() }
}

fn fails(stderr: &str) -> Reply {
    Reply::Exited { success: false, stdout: Vec::new(), stderr: stderr.as_bytes().to_vec() }
}

fn entry(path: &str, index: Stage, worktree: Stage) -> FileEntry {
    FileEntry {
        path: path.to_string(),
        index,
        worktree,
        lfs_tracked: false,
        lfs_pointer_ok: None,
        prev_storage: None,
        next_storage: None,
    }
}

fn listed(data: &[u8]) -> Vec<FileEntry> {
    parse_porcelain_v2(data).unwrap().unwrap()
}

fn message(r: Result<Vec<FileEntry>, GitError>) -> String {
    r.unwrap_err().message()
}

#[test]
fn letters_stand_for_stages() {
    assert_eq!(Stage::from_xy('.'), Stage::Unmodified);
    assert_eq!(Stage::from_xy(' '), Stage::Unmodified);
    assert_eq!(Stage::from_xy('M'), Stage::Modified);
    assert_eq!(Stage::from_xy('A'), Stage::Added);
    assert_eq!(Stage::from_xy('D'), Stage::Deleted);
    assert_eq!(Stage::from_xy('R'), Stage::Renamed);
    assert_eq!(Stage::from_xy('C'), Stage::Copied);
    assert_eq!(Stage::from_xy('T'), Stage::TypeChange);
    assert_eq!(Stage::from_xy('U'), Stage::Conflicted);
    assert_eq!(Stage::from_xy('?'), Stage::Untracked);
    assert_eq!(Stage::from_xy('!'), Stage::Ignored);
    assert_eq!(Stage::from_xy('x'), Stage::Unmodified);
    assert!(!Stage::Unmodified.is_changed());
    assert!(Stage::Ignored.is_changed());
}

#[test]
fn files_belong_to_sides() {
    let untracked = entry("a", Stage::Untracked, Stage::Untracked);
    assert!(untracked.in_unstaged() && !untracked.in_staged() && !untracked.has_staged());
    let conflict = entry("a", Stage::Conflicted, Stage::Conflicted);
    assert!(conflict.in_unstaged() && !conflict.in_staged() && conflict.has_staged());
    let both = entry("a", Stage::Added, Stage::Modified);
    assert!(both.in_unstaged() && both.in_staged() && both.has_staged());
    let staged = entry("a", Stage::Renamed, Stage::Unmodified);
    assert!(!staged.in_unstaged() && staged.in_staged());
}

#[test]
fn reads_every_kind_of_record() {
    let data = b"# branch.oid 1\x001 .M N... 100644 100644 100644 aa bb src/a b.rs\0\
2 R. N... 100644 100644 100644 aa bb R100 new name\0old name\0\
? new file\0! ignored\0u UU N... 1 2 3 4 h1 h2 h3 both.txt\0x other\0\0";
    let list = listed(data);
    let paths: Vec<&str> = list.iter().map(|e| e.path.as_str()).collect();
    assert_eq!(paths, vec!["src/a b.rs", "new name", "new file", "both.txt"]);
    assert_eq!((list[0].index, list[0].worktree), (Stage::Unmodified, Stage::Modified));
    assert_eq!((list[1].index, list[1].worktree), (Stage::Renamed, Stage::Unmodified));
    assert_eq!((list[2].index, list[2].worktree), (Stage::Untracked, Stage::Untracked));
    assert_eq!((list[3].index, list[3].worktree), (Stage::Conflicted, Stage::Conflicted));
    assert!(list.iter().all(|e| !e.lfs_tracked && e.lfs_pointer_ok.is_none()));
}

#[test]
fn reads_a_record_without_its_zero_byte() {
    assert_eq!(listed(b"? a")[0].path, "a");
    assert_eq!(listed(b"1 M x x x x x x p").len(), 1);
    assert_eq!(listed(b"1 M x x x x x x p")[0].worktree, Stage::Unmodified);
    assert!(listed(b"").is_empty());
    assert!(listed(b"\0\0").is_empty());
    assert_eq!(listed(b"2 R. a b c d e f g new\0").len(), 1);
}

#[test]
fn statuses_can_be_joined() {
    let whole: [&[u8]; 4] = [
        b"",
        b"? n\0",
        b"2 R. a b c d e f R100 new\0old\0",
        b"1 .M a b c d e f p q\0! i\0\0u UU a b c d e f g h c\0",
    ];
    for a in whole {
        for b in whole {
            let both: Vec<FileEntry> = listed(a).into_iter().chain(listed(b)).collect();
            let joined = listed(&[a, b].concat());
            assert_eq!(format!("{:?}", joined), format!("{:?}", both));
        }
    }
    let broken: &[u8] = b"2 R. a b c d e f R100 new\0";
    assert_eq!(listed(&[broken, b"? n\0"].concat()).len(), 1);
}

#[test]
fn refuses_malformed_records() {
    let bad = |d: &[u8]| message(parse_porcelain_v2(d).unwrap());
    assert_eq!(bad(b"1 .M N...\0"), "malformed v2 record: 1 .M N...");
    assert_eq!(bad(b"2 R. N...\0"), "malformed v2 rename record: 2 R. N...");
    assert_eq!(bad(b"u UU N...\0"), "malformed v2 unmerged record: u UU N...");
    assert_eq!(bad(b"? a\0? \xff\0"), "non-utf8 status record");
}

#[test]
fn gives_up_where_a_record_breaks_off() {
    assert!(parse_porcelain_v2(b"?").is_none());
    assert!(parse_porcelain_v2("?ä".as_bytes()).is_none());
    assert!(parse_porcelain_v2(b"2 R. a b c d e f g new").is_none());
    assert!(read_status(&Reply::Exited {
        success: true,
        stdout: b"?".to_vec(),
        stderr: Vec::new()
    })
    .is_none());
}

#[test]
fn reads_the_status() {
    assert_eq!(status_args(), vec!["status", "--porcelain=v2", "-z", "--untracked-files=all"]);
    assert_eq!(status(&says("? a\0")).unwrap()[0].path, "a");
    assert_eq!(
        message(status(&fails(" no repo \n"))),
        "git [\"status\", \"--porcelain=v2\", \"-z\", \"--untracked-files=all\"] failed: no repo"
    );
    assert_eq!(
        message(status(&Reply::NotStarted)),
        "spawning git [\"status\", \"--porcelain=v2\", \"-z\", \"--untracked-files=all\"]"
    );
}

#[test]
fn reads_the_repository() {
    assert_eq!(repo_root_args(), vec!["rev-parse", "--show-toplevel"]);
    assert_eq!(repo_root(&says("/home/x\n")).unwrap(), "/home/x");
    assert_eq!(current_branch_args(), vec!["symbolic-ref", "--short", "HEAD"]);
    assert_eq!(current_branch(&says("main\n")).unwrap(), "main");
    assert_eq!(
        current_branch(&fails("fatal: x\n")).unwrap_err().message(),
        "git [\"symbolic-ref\", \"--short\", \"HEAD\"] failed: fatal: x"
    );
    assert_eq!(
        upstream_args(),
        vec!["rev-parse", "--abbrev-ref", "--symbolic-full-name", "@{u}"]
    );
    assert_eq!(upstream(&says(" origin/main \n")).unwrap(), Some("origin/main".to_string()));
    assert_eq!(upstream(&fails("none")).unwrap(), None);
    assert!(upstream(&Reply::NotStarted).is_err());
    assert_eq!(remotes_args(), vec!["remote"]);
    assert_eq!(remotes(&says("origin\n  \n fork \n")).unwrap(), vec!["origin", "fork"]);
    assert!(remotes(&fails("x")).is_err());
}

#[test]
fn replaces_what_is_not_text() {
    let reply = Reply::Exited { success: true, stdout: b"a\xffb".to_vec(), stderr: Vec::new() };
    assert_eq!(show_commit("x", &reply).unwrap(), "a\u{fffd}b");
}

#[test]
fn asks_for_filters_and_marks_large_files() {
    assert_eq!(attr_filter_args(), vec!["check-attr", "-z", "--stdin", "filter"]);
    let mut list = vec![
        entry("big.bin", Stage::Added, Stage::Unmodified),
        entry("ä.txt", Stage::Modified, Stage::Unmodified),
    ];
    assert_eq!(attr_filter_input(&list), "big.bin\0ä.txt\0".as_bytes());
    let reply = says("big.bin\0filter\0lfs\0ä.txt\0filter\0unspecified\0");
    let none: Vec<Option<StorageMode>> = Vec::new();
    let filters = attr_filter(&list, &reply);
    assert!(annotate_lfs(&mut list, filters, &none).is_ok());
    assert_eq!((list[0].lfs_tracked, list[1].lfs_tracked), (true, false));
    assert_eq!((list[0].lfs_pointer_ok, list[1].lfs_pointer_ok), (Some(false), None));
    for (reply, message) in [
        (fails("oh\n"), "git check-attr failed: oh"),
        (Reply::NotStarted, "spawning git check-attr"),
        (Reply::Broken("broken pipe".to_string()), "broken pipe"),
    ] {
        let filters = attr_filter(&list, &reply);
        let found = vec![Some(StorageMode::Lfs); 4];
        let r = annotate_lfs(&mut list, filters, &found);
        assert_eq!(r.unwrap_err().message(), message);
        assert!(list[0].lfs_tracked && list[0].prev_storage.is_none());
    }
    assert!(attr_filter(&list, &says("a\0filter\0lfs\0")).is_ok());
    assert!(attr_filter(&list, &fails("oh\n")).is_err());
}

#[test]
fn notes_the_storage_of_each_file() {
    let mut list = vec![
        entry("new", Stage::Untracked, Stage::Untracked),
        entry("a", Stage::Modified, Stage::Unmodified),
        entry("gone", Stage::Deleted, Stage::Unmodified),
        entry("b", Stage::Unmodified, Stage::Modified),
        entry("c", Stage::Added, Stage::Modified),
    ];
    let lfs = "new\0filter\0lfs\0a\0filter\0lfs\0gone\0filter\0lfs\0b\0filter\0x\0";
    let filters = attr_filter(&list, &says(lfs));
    let (git, lfs) = (Some(StorageMode::Git), Some(StorageMode::Lfs));
    let found = vec![git, lfs, lfs, git, None, git];
    assert!(annotate_lfs(&mut list, filters, &found).is_ok());
    let seen: Vec<_> = list
        .iter()
        .map(|e| (e.lfs_tracked, e.prev_storage, e.next_storage, e.lfs_pointer_ok))
        .collect();
    assert_eq!(
        seen,
        vec![
            (true, None, None, None),
            (true, git, lfs, Some(true)),
            (true, lfs, None, None),
            (false, git, None, None),
            (false, None, git, None),
        ]
    );
    assert!(!list[0].asks_former() && !list[0].asks_next());
    assert!(list[1].asks_former() && list[1].asks_next());
    assert!(list[2].asks_former() && !list[2].asks_next());
    assert!(list[3].asks_former() && !list[3].asks_next());
}

#[test]
fn without_files_the_filters_do_not_matter() {
    let mut none: Vec<FileEntry> = Vec::new();
    for reply in [
        fails("oh\n"),
        Reply::NotStarted,
        Reply::Broken("broken pipe".to_string()),
        says("a\0filter\0lfs\0"),
    ] {
        assert!(attr_filter(&none, &reply).unwrap().get("a").is_none());
        let failed = Err(GitError::SpawnAttr);
        assert!(annotate_lfs(&mut none, failed, &vec![Some(StorageMode::Git)]).is_ok());
        assert!(none.is_empty());
    }
}

#[test]
fn tells_pointers_from_contents() {
    assert_eq!(blob_args("HEAD:", "a b"), vec!["show", "HEAD:a b"]);
    assert_eq!(blob_args(":", "a"), vec!["show", ":a"]);
    let pointer = says("version https://git-lfs.github.com/spec/v1\noid x\n");
    assert_eq!(blob_is_lfs_pointer(&pointer), Some(true));
    assert_eq!(storage_of(&pointer), Some(StorageMode::Lfs));
    assert_eq!(storage_of(&says("hello")), Some(StorageMode::Git));
    assert_eq!(storage_of(&fails("x")), None);
    assert_eq!(storage_of(&Reply::NotStarted), None);
    let late = format!("{}version https://git-lfs.github.com/spec/", " ".repeat(300));
    assert_eq!(storage_of(&says(&late)), Some(StorageMode::Git));
}

#[test]
fn shows_differences() {
    assert_eq!(diff_worktree_args("p"), vec!["diff", "--", "p"]);
    assert_eq!(diff_cached_args("p"), vec!["diff", "--cached", "--", "p"]);
    assert_eq!(diff_worktree("p", &says("+x\n")).unwrap(), "+x\n");
    assert_eq!(
        diff_cached("p", &fails("bad\n")).unwrap_err().message(),
        "git [\"diff\", \"--cached\", \"--\", \"p\"] failed: bad"
    );
    assert_eq!(
        diff_untracked("a/b", &Some("x\ny\r\n".to_string())),
        "--- /dev/null\n+++ b/a/b\n+x\n+y\n"
    );
    assert_eq!(diff_untracked("a", &None), "(binary or unreadable: a)");
}

#[test]
fn stages_and_unstages() {
    assert_eq!(stage_args("p"), vec!["add", "-A", "--", "p"]);
    assert_eq!(stage_all_args(), vec!["add", "-A"]);
    assert_eq!(head_args(), vec!["rev-parse", "--verify", "HEAD"]);
    assert_eq!(unstage_args("p", true), vec!["restore", "--staged", "--", "p"]);
    assert_eq!(unstage_args("p", false), vec!["rm", "--cached", "--", "p"]);
    assert!(stage("p", &says("")).is_ok());
    assert!(stage("p", &fails("x")).is_err());
    assert!(stage_all(&says("")).is_ok());
    assert!(unstage("p", true, &says("")).is_ok());
    assert!(has_head(&says("abc")).unwrap());
    assert!(!has_head(&fails("x")).unwrap());
    assert!(has_head(&Reply::NotStarted).is_err());
    assert_eq!(restore_worktree_args("p"), vec!["restore", "--", "p"]);
    assert!(restore_worktree("p", &fails("x")).is_err());
    assert!(delete_untracked("p", true).is_ok());
    assert_eq!(delete_untracked("a/p", false).unwrap_err().message(), "removing a/p");
}

#[test]
fn commits() {
    assert_eq!(commit_args("s", " ", false), vec!["commit", "-m", "s"]);
    assert_eq!(
        commit_args("s", "body", true),
        vec!["commit", "--amend", "-m", "s", "-m", "body"]
    );
    assert!(commit("s", "", false, &says("")).is_ok());
    assert_eq!(
        commit("s", "", false, &fails("nothing\n")).unwrap_err().message(),
        "git [\"commit\", \"-m\", \"s\"] failed: nothing"
    );
    assert_eq!(short_head_args(), vec!["rev-parse", "--short", "HEAD"]);
    assert_eq!(short_head(&says("abc1234\n")).unwrap(), "abc1234");
    assert_eq!(last_commit_subject_args(), vec!["log", "-1", "--pretty=%s"]);
    assert_eq!(last_commit_subject(&says("Fix it\n")).unwrap(), "Fix it");
}

#[test]
fn reads_the_log() {
    assert_eq!(
        log_args(200),
        vec!["log", "-n200", "--date=short", "--pretty=format:%H%x1f%h%x1f%an%x1f%ad%x1f%s"]
    );
    let list = log(200, &says("aa\x1fa\x1fMe\x1f2024-01-02\x1fOne\x1ftwo\nbroken\n")).unwrap();
    assert_eq!(list.len(), 1);
    assert_eq!(list[0].sha, "aa");
    assert_eq!(list[0].short, "a");
    assert_eq!(list[0].author, "Me");
    assert_eq!(list[0].date, "2024-01-02");
    assert_eq!(list[0].subject, "One\x1ftwo");
    assert!(log(200, &fails("empty")).unwrap().is_empty());
    assert!(log(200, &Reply::NotStarted).is_err());
    assert_eq!(show_commit_args("aa"), vec!["show", "--color=never", "--stat", "-p", "aa"]);
}

#[test]
fn reads_the_stashes() {
    assert_eq!(stash_list_args(), vec!["stash", "list", "--format=%gd%x1f%s"]);
    let list = stash_list(&says("stash@{0}\x1fWIP on main\nodd\n")).unwrap();
    assert_eq!(list.len(), 1);
    assert_eq!(list[0].reference, "stash@{0}");
    assert_eq!(list[0].subject, "WIP on main");
    assert!(stash_list(&fails("x")).unwrap().is_empty());
    assert_eq!(stash_show_args("s"), vec!["stash", "show", "--color=never", "-p", "s"]);
    assert_eq!(stash_show("s", &says("d")).unwrap(), "d");
    assert_eq!(stash_apply_args("s"), vec!["stash", "apply", "s"]);
    assert_eq!(stash_pop_args("s"), vec!["stash", "pop", "s"]);
    assert_eq!(stash_drop_args("s"), vec!["stash", "drop", "s"]);
    assert!(stash_apply("s", &fails("x")).is_err());
    assert!(stash_pop("s", &says("")).is_ok());
    assert!(stash_drop("s", &says("")).is_ok());
}

#[test]
fn reads_how_far_a_branch_is() {
    assert_eq!(parse_track(""), (0, 0, false));
    assert_eq!(parse_track("[ahead 3]"), (3, 0, false));
    assert_eq!(parse_track("[behind 12]"), (0, 12, false));
    assert_eq!(parse_track(" [ahead 1, behind 2] "), (1, 2, false));
    assert_eq!(parse_track("[gone]"), (0, 0, true));
    assert_eq!(parse_track("[ahead x]"), (0, 0, false));
}

#[test]
fn reads_the_branches() {
    assert_eq!(
        local_branches_args(),
        vec![
            "for-each-ref",
            "--sort=-committerdate",
            "refs/heads",
            "--format=%(HEAD)\x1f%(refname:short)\x1f%(upstream:short)\x1f%(upstream:track)\x1f%(objectname:short)\x1f%(contents:subject)"
        ]
    );
    let list = local_branches(&says(
        "*\x1fmain\x1forigin/main\x1f[ahead 1]\x1fabc\x1fSubject\n \x1fdev\x1f\x1f\x1fdef\x1fS2\nbad\n",
    ))
    .unwrap();
    assert_eq!(list.len(), 2);
    assert!(list[0].is_head && !list[1].is_head);
    assert_eq!(list[0].upstream, Some("origin/main".to_string()));
    assert_eq!((list[0].ahead, list[0].behind, list[0].gone), (1, 0, false));
    assert_eq!((list[1].name.as_str(), list[1].upstream.clone()), ("dev", None));
    assert_eq!((list[1].short.as_str(), list[1].subject.as_str()), ("def", "S2"));
    assert_eq!(
        remote_branches_args(),
        vec![
            "for-each-ref",
            "--sort=refname",
            "refs/remotes",
            "--format=%(refname:short)\x1f%(objectname:short)\x1f%(contents:subject)"
        ]
    );
    let list = remote_branches(&says(
        "origin/HEAD\x1fa\x1fx\norigin\x1fa\x1fx\norigin/a/b\x1fc\x1fSub\n",
    ))
    .unwrap();
    assert_eq!(list.len(), 1);
    assert_eq!((list[0].remote.as_str(), list[0].name.as_str()), ("origin", "a/b"));
    assert!(remote_branches(&fails("x")).is_err());
    assert_eq!(checkout_branch_args("b"), vec!["checkout", "b"]);
    assert!(checkout_branch("b", &says("")).is_ok());
    assert_eq!(branch_create_args("b"), vec!["branch", "b"]);
    assert!(branch_create("b", &fails("x")).is_err());
    assert_eq!(branch_delete_args("b", false), vec!["branch", "-d", "b"]);
    assert_eq!(branch_delete_args("b", true), vec!["branch", "-D", "b"]);
    assert!(branch_delete("b", true, &says("")).is_ok());
}

#[test]
fn pushes() {
    assert_eq!(push_args("o", "b", true), vec!["push", "-u", "o", "b"]);
    assert_eq!(push_args("o", "b", false), vec!["push", "o", "b"]);
    let both = Reply::Exited { success: true, stdout: b"out".to_vec(), stderr: b" err\n".to_vec() };
    assert_eq!(push(&both).unwrap(), "err");
    assert_eq!(push(&says(" out\n")).unwrap(), "out");
    assert_eq!(push(&fails("denied\n")).unwrap_err().message(), "push failed: denied");
    assert_eq!(push(&Reply::NotStarted).unwrap_err().message(), "spawning git push");
}
