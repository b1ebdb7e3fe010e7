//! What the output of git means.

use crate::git::{
    self, CommitView, FileEntryView, GitErrorView, LocalBranchView, RecordKind, RemoteBranchView,
    ReplyView, Stage, StashView,
};
use crate::laws;
use crate::outside;
use crate::runs;
use crate::text;
use crate::work;
use vstd::prelude::*;
use vstd::utf8;

verus! {

// ---------------------------------------------------------------------------
// Lines and fields

/// Lines one below the other.
pub open spec fn below_each_other(lines: Seq<Seq<char>>) -> Seq<char>
    decreases lines.len(),
{
    if lines.len() == 0 {
        seq![]
    } else {
        lines[0] + seq!['\n'] + below_each_other(lines.skip(1))
    }
}

/// Whether a text can be told apart as a line.
pub open spec fn is_line(s: Seq<char>) -> bool {
    !s.contains('\n') && (s.len() > 0 ==> s.last() != '\r')
}

/// Lines that were put one below the other are told apart again.
pub proof fn law_lines_back(lines: Seq<Seq<char>>)
    requires
        forall|i: int| 0 <= i < lines.len() ==> is_line(#[trigger] lines[i]),
    ensures
        text::lines(below_each_other(lines)) == lines,
    decreases lines.len(),
{
    if lines.len() > 0 {
        let rest = lines.skip(1);
        let s = below_each_other(lines);
        let tail = below_each_other(rest);
        assert forall|i: int| 0 <= i < rest.len() implies is_line(#[trigger] rest[i]) by {
            assert(rest[i] == lines[i + 1]);
        }
        law_lines_back(rest);
        assert(is_line(lines[0]));
        lemma_first_is(s, '\n', lines[0].len() as int);
        assert(s.take(lines[0].len() as int) =~= lines[0]);
        assert(s.skip(lines[0].len() as int + 1) =~= tail);
        assert(text::lines(s) =~= seq![lines[0]] + rest);
        assert(seq![lines[0]] + rest =~= lines);
    } else {
        assert(text::lines(below_each_other(lines)) =~= lines);
    }
}

proof fn lemma_first_is(s: Seq<char>, c: char, i: int)
    requires
        0 <= i < s.len(),
        s[i] == c,
        forall|k: int| 0 <= k < i ==> s[k] != c,
    ensures
        text::first(s, c) == i,
{
    text::lemma_first(s, c);
}

/// A text and what follows it behind a separator.
pub open spec fn sep(a: Seq<char>, c: char, b: Seq<char>) -> Seq<char> {
    a + seq![c] + b
}

/// The first of several fields is what stands before the first separator; the last field
/// takes all that is left.
pub proof fn law_fields(a: Seq<char>, b: Seq<char>, c: char, n: nat)
    requires
        !a.contains(c),
    ensures
        n >= 2 ==> text::first_parts(sep(a, c, b), c, n) == seq![a] + text::first_parts(
            b,
            c,
            (n - 1) as nat,
        ),
        text::first_parts(b, c, 1) == seq![b],
        n >= 1 ==> text::first_parts(a, c, n) == seq![a],
{
    let s = sep(a, c, b);
    let i = a.len() as int;
    assert(s[i] == c);
    assert forall|k: int| 0 <= k < i implies s[k] != c by {
        assert(a.contains(a[k]));
    }
    lemma_first_is(s, c, i);
    assert(s.take(i) =~= a);
    assert(s.skip(i + 1) =~= b);
    text::lemma_first(a, c);
    if n >= 1 {
        assert(text::first(a, c) >= a.len()) by {
            if text::first(a, c) < a.len() {
                assert(a.contains(a[text::first(a, c)]));
            }
        }
    }
}

/// What is read of lines that all can be read.
pub proof fn law_all_read<S, T>(lines: Seq<S>, read: spec_fn(S) -> Option<T>, items: Seq<T>)
    requires
        lines.len() == items.len(),
        forall|i: int| 0 <= i < lines.len() ==> read(#[trigger] lines[i]) == Some(items[i]),
    ensures
        git::kept(lines, read) == items,
    decreases lines.len(),
{
    if lines.len() > 0 {
        let d = lines.drop_last();
        let e = items.drop_last();
        assert forall|i: int| 0 <= i < d.len() implies read(#[trigger] d[i]) == Some(e[i]) by {
            assert(d[i] == lines[i]);
        }
        law_all_read(d, read, e);
        assert(read(lines[lines.len() - 1]) == Some(items[items.len() - 1]));
        assert(e.push(items.last()) =~= items);
    } else {
        assert(git::kept(lines, read) =~= items);
    }
}

/// What cannot be read is passed over, and what can be read keeps its order.
pub proof fn law_some_read<S, T>(a: Seq<S>, x: S, b: Seq<S>, read: spec_fn(S) -> Option<T>)
    ensures
        git::kept(a + seq![x] + b, read) == match read(x) {
            Some(t) => git::kept(a, read) + seq![t] + git::kept(b, read),
            None => git::kept(a, read) + git::kept(b, read),
        },
    decreases b.len(),
{
    if b.len() == 0 {
        let all = a + seq![x] + b;
        assert(all.drop_last() =~= a);
        assert(all.last() == x);
        assert(git::kept(b, read) =~= seq![]);
        if let Some(t) = read(x) {
            assert(git::kept(all, read) =~= git::kept(a, read) + seq![t] + git::kept(b, read));
        } else {
            assert(git::kept(all, read) =~= git::kept(a, read) + git::kept(b, read));
        }
    } else {
        let d = b.drop_last();
        let all = a + seq![x] + b;
        law_some_read(a, x, d, read);
        assert(all.drop_last() =~= a + seq![x] + d);
        assert(all.last() == b.last());
        if let Some(t) = read(x) {
            assert(git::kept(all, read) =~= git::kept(a, read) + seq![t] + git::kept(b, read));
        } else {
            assert(git::kept(all, read) =~= git::kept(a, read) + git::kept(b, read));
        }
    }
}

// ---------------------------------------------------------------------------
// The log

/// The separator of fields.
pub open spec fn unit() -> char {
    '\u{1f}'
}

/// A line of the log.
pub open spec fn log_line(c: CommitView) -> Seq<char> {
    sep(
        c.sha,
        unit(),
        sep(c.short, unit(), sep(c.author, unit(), sep(c.date, unit(), c.subject))),
    )
}

/// A line of the log is read back, and one without a separator is no commit.
pub proof fn law_log_line(c: CommitView, s: Seq<char>)
    requires
        !c.sha.contains(unit()),
        !c.short.contains(unit()),
        !c.author.contains(unit()),
        !c.date.contains(unit()),
    ensures
        git::commit_line()(log_line(c)) == Some(c),
        !s.contains(unit()) ==> git::commit_line()(s) is None,
{
    let d = sep(c.date, unit(), c.subject);
    let e = sep(c.author, unit(), d);
    let f = sep(c.short, unit(), e);
    law_fields(c.sha, f, unit(), 5);
    law_fields(c.short, e, unit(), 4);
    law_fields(c.author, d, unit(), 3);
    law_fields(c.date, c.subject, unit(), 2);
    assert(text::first_parts(log_line(c), unit(), 5) =~= seq![
        c.sha,
        c.short,
        c.author,
        c.date,
        c.subject,
    ]);
    if !s.contains(unit()) {
        law_fields(s, s, unit(), 5);
    }
}

/// The commits that git prints are those of the log, in their order; where it prints none,
/// or fails, there are none.
pub proof fn law_log_read(r: ReplyView, list: Seq<CommitView>, err: Seq<char>)
    requires
        forall|i: int|
            0 <= i < list.len() ==> {
                let c = #[trigger] list[i];
                &&& !c.sha.contains(unit())
                &&& !c.short.contains(unit())
                &&& !c.author.contains(unit())
                &&& !c.date.contains(unit())
                &&& is_line(log_line(c))
            },
    ensures
        runs::worked(r, below_each_other(Seq::new(list.len(), |i: int| log_line(list[i]))))
            ==> work::commits_in(r) == list,
        runs::failed(r, err) || runs::not_made(r) ==> work::commits_in(r)
            == Seq::<CommitView>::empty(),
{
    let lines = Seq::new(list.len(), |i: int| log_line(list[i]));
    assert forall|i: int| 0 <= i < lines.len() implies is_line(#[trigger] lines[i]) by {
        assert(is_line(log_line(list[i])));
    }
    law_lines_back(lines);
    assert forall|i: int| 0 <= i < lines.len() implies git::commit_line()(#[trigger] lines[i])
        == Some(list[i]) by {
        law_log_line(list[i], seq![]);
    }
    law_all_read(lines, git::commit_line(), list);
    assert(text::lines(Seq::<char>::empty()) =~= seq![]);
    assert(git::kept(Seq::<Seq<char>>::empty(), git::commit_line()) =~= seq![]);
}

// ---------------------------------------------------------------------------
// The stashes

/// A line of the list of stashes.
pub open spec fn stash_text(s: StashView) -> Seq<char> {
    sep(s.reference, unit(), s.subject)
}

/// A line of the list of stashes is read back, and one without a separator is no stash.
pub proof fn law_stash_line(x: StashView, s: Seq<char>)
    requires
        !x.reference.contains(unit()),
    ensures
        git::stash_line()(stash_text(x)) == Some(x),
        !s.contains(unit()) ==> git::stash_line()(s) is None,
{
    law_fields(x.reference, x.subject, unit(), 2);
    assert(text::first_parts(stash_text(x), unit(), 2) =~= seq![x.reference, x.subject]);
    if !s.contains(unit()) {
        law_fields(s, s, unit(), 2);
    }
}

/// The stashes that git prints are those of the list, in their order; where it prints none,
/// or fails, there are none.
pub proof fn law_stashes_read(r: ReplyView, list: Seq<StashView>, err: Seq<char>)
    requires
        forall|i: int|
            0 <= i < list.len() ==> {
                let x = #[trigger] list[i];
                &&& !x.reference.contains(unit())
                &&& is_line(stash_text(x))
            },
    ensures
        runs::worked(r, below_each_other(Seq::new(list.len(), |i: int| stash_text(list[i]))))
            ==> work::stashes_in(r) == list,
        runs::failed(r, err) || runs::not_made(r) ==> work::stashes_in(r)
            == Seq::<StashView>::empty(),
{
    let lines = Seq::new(list.len(), |i: int| stash_text(list[i]));
    assert forall|i: int| 0 <= i < lines.len() implies is_line(#[trigger] lines[i]) by {
        assert(is_line(stash_text(list[i])));
    }
    law_lines_back(lines);
    assert forall|i: int| 0 <= i < lines.len() implies git::stash_line()(#[trigger] lines[i])
        == Some(list[i]) by {
        law_stash_line(list[i], seq![]);
    }
    law_all_read(lines, git::stash_line(), list);
    assert(text::lines(Seq::<char>::empty()) =~= seq![]);
    assert(git::kept(Seq::<Seq<char>>::empty(), git::stash_line()) =~= seq![]);
}

// ---------------------------------------------------------------------------
// The branches

/// A line of the list of local branches: a mark, the name, the upstream, how they differ,
/// the commit and its subject.
pub open spec fn local_text(
    mark: Seq<char>,
    name: Seq<char>,
    upstream: Seq<char>,
    differs: Seq<char>,
    short: Seq<char>,
    subject: Seq<char>,
) -> Seq<char> {
    sep(
        mark,
        unit(),
        sep(
            name,
            unit(),
            sep(upstream, unit(), sep(differs, unit(), sep(short, unit(), subject))),
        ),
    )
}

proof fn lemma_mark(mark: Seq<char>)
    ensures
        mark == "*"@ ==> text::trimmed(mark) == "*"@,
        mark == " "@ ==> text::trimmed(mark) != "*"@,
{
    reveal_strlit("*");
    reveal_strlit(" ");
    text::law_trimmed(mark);
    text::law_white('*');
    text::law_white(' ');
    let t = text::trimmed(mark);
    if mark == "*"@ {
        let i = choose|i: int| #[trigger] text::lone_at(mark, t, i);
        assert(mark[0] == '*');
        assert(t =~= "*"@);
    }
    if mark == " "@ {
        assert(mark[0] == ' ');
    }
}

/// A line of the list of local branches is read back. The current branch has a star for its
/// mark, and a branch without an upstream has an empty one.
pub proof fn law_local_line(
    mark: Seq<char>,
    name: Seq<char>,
    upstream: Seq<char>,
    differs: Seq<char>,
    short: Seq<char>,
    subject: Seq<char>,
    s: Seq<char>,
)
    requires
        !mark.contains(unit()),
        !name.contains(unit()),
        !upstream.contains(unit()),
        !differs.contains(unit()),
        !short.contains(unit()),
    ensures
        ({
            let b = git::local_line()(local_text(mark, name, upstream, differs, short, subject));
            &&& b is Some
            &&& b->0.name == name
            &&& mark == "*"@ ==> b->0.is_head
            &&& mark == " "@ ==> !b->0.is_head
            &&& upstream.len() == 0 ==> b->0.upstream is None
            &&& upstream.len() > 0 ==> b->0.upstream == Some(upstream)
            &&& b->0.ahead == git::track(differs).0 as usize
            &&& b->0.behind == git::track(differs).1 as usize
            &&& b->0.gone == git::track(differs).2
            &&& b->0.short == short
            &&& b->0.subject == subject
        }),
        !s.contains(unit()) ==> git::local_line()(s) is None,
{
    let e = sep(short, unit(), subject);
    let d = sep(differs, unit(), e);
    let c = sep(upstream, unit(), d);
    let b = sep(name, unit(), c);
    law_fields(mark, b, unit(), 6);
    law_fields(name, c, unit(), 5);
    law_fields(upstream, d, unit(), 4);
    law_fields(differs, e, unit(), 3);
    law_fields(short, subject, unit(), 2);
    assert(text::first_parts(
        local_text(mark, name, upstream, differs, short, subject),
        unit(),
        6,
    ) =~= seq![mark, name, upstream, differs, short, subject]);
    lemma_mark(mark);
    if !s.contains(unit()) {
        law_fields(s, s, unit(), 6);
    }
}

/// A line of the list of remote branches: a remote and a branch with a slash between them,
/// the commit and its subject.
pub open spec fn remote_text(b: RemoteBranchView) -> Seq<char> {
    sep(sep(b.remote, '/', b.name), unit(), sep(b.short, unit(), b.subject))
}

/// A line of the list of remote branches is read back; what the `HEAD` of a remote points to
/// is no branch.
pub proof fn law_remote_line(b: RemoteBranchView, s: Seq<char>)
    requires
        !b.remote.contains('/'),
        !b.remote.contains(unit()),
        !b.name.contains(unit()),
        !b.short.contains(unit()),
    ensures
        !text::ends(sep(b.remote, '/', b.name), "/HEAD"@) ==> git::remote_line()(remote_text(b))
            == Some(b),
        b.name == "HEAD"@ ==> git::remote_line()(remote_text(b)) is None,
        !s.contains(unit()) ==> git::remote_line()(s) is None,
{
    let full = sep(b.remote, '/', b.name);
    let tail = sep(b.short, unit(), b.subject);
    assert(!full.contains(unit())) by {
        assert forall|k: int| 0 <= k < full.len() implies full[k] != unit() by {
            if k < b.remote.len() {
                assert(b.remote.contains(b.remote[k]));
            } else if k > b.remote.len() {
                assert(b.name.contains(b.name[k - b.remote.len() - 1]));
            }
        }
    }
    law_fields(full, tail, unit(), 3);
    law_fields(b.short, b.subject, unit(), 2);
    assert(text::first_parts(remote_text(b), unit(), 3) =~= seq![full, b.short, b.subject]);
    let i = b.remote.len() as int;
    assert forall|k: int| 0 <= k < i implies full[k] != '/' by {
        assert(b.remote.contains(b.remote[k]));
    }
    lemma_first_is(full, '/', i);
    assert(full.take(i) =~= b.remote);
    assert(full.skip(i + 1) =~= b.name);
    reveal_strlit("/HEAD");
    reveal_strlit("HEAD");
    if b.name == "HEAD"@ {
        assert(full.skip(full.len() - 5) =~= "/HEAD"@);
    }
    if !s.contains(unit()) {
        law_fields(s, s, unit(), 3);
    }
}

/// The branches are those of the lines that git prints, in their order; where it fails there
/// are none.
pub proof fn law_branches_read(r: ReplyView, out: Seq<char>, err: Seq<char>)
    ensures
        runs::worked(r, out) ==> {
            &&& work::locals_in(r) == git::kept(text::lines(out), git::local_line())
            &&& work::remotes_in(r) == git::kept(text::lines(out), git::remote_line())
        },
        runs::failed(r, err) || runs::not_made(r) ==> {
            &&& work::locals_in(r) == Seq::<LocalBranchView>::empty()
            &&& work::remotes_in(r) == Seq::<RemoteBranchView>::empty()
        },
{
}

// ---------------------------------------------------------------------------
// The status

/// The letter that git prints for a stage.
pub open spec fn letter_for(s: Stage) -> char {
    match s {
        Stage::Modified => 'M',
        Stage::Added => 'A',
        Stage::Deleted => 'D',
        Stage::Renamed => 'R',
        Stage::Copied => 'C',
        Stage::TypeChange => 'T',
        Stage::Conflicted => 'U',
        Stage::Untracked => '?',
        Stage::Ignored => '!',
        Stage::Unmodified => '.',
    }
}

/// Each stage is read back from its letter, and a letter that stands for no other stage is
/// read as unmodified.
pub proof fn law_letters(s: Stage, c: char)
    ensures
        Stage::of_letter(letter_for(s)) == s,
        letter_for(Stage::of_letter(c)) == c || Stage::of_letter(c) == Stage::Unmodified,
{
}

/// Of the two letters of a record the first is for the index and the second for the working
/// tree.
pub proof fn law_two_letters(x: Stage, y: Stage)
    ensures
        Stage::of_letter(git::letter(seq![letter_for(x), letter_for(y)], 0)) == x,
        Stage::of_letter(git::letter(seq![letter_for(x), letter_for(y)], 1)) == y,
{
    law_letters(x, '.');
    law_letters(y, '.');
}

/// The status is what git printed; where git failed that is told.
pub proof fn law_status_replied(r: ReplyView)
    ensures
        r matches ReplyView::Exited { success, stdout, stderr } ==> {
            &&& success ==> git::status_of(r) == git::porcelain(stdout)
            &&& !success ==> git::status_of(r) is Some && git::status_of(r)->0 is Err
        },
        !(r is Exited) ==> git::status_of(r) is Some && git::status_of(r)->0 is Err,
{
}

/// The filters that a reply gives are read from triples of a path, an attribute and a value
/// with a zero behind each; of a path that comes again the last value counts.
pub proof fn law_filters_read(r: ReplyView, s: ReplyView, path: Seq<char>, value: Seq<char>, out: Seq<char>)
    requires
        path.len() > 0,
        !path.contains('\0'),
        !value.contains('\0'),
        runs::worked(s, out),
        runs::worked(
            r,
            sep(path, '\0', sep("filter"@, '\0', sep(value, '\0', out))),
        ),
    ensures
        git::filters_of(s) is Ok,
        git::filters_of(r) is Ok,
        ({
            let before = git::filters_of(s)->Ok_0;
            let after = git::filters_of(r)->Ok_0;
            &&& after.contains_key(path)
            &&& !before.contains_key(path) ==> after[path] == value
            &&& forall|p: Seq<char>| #[trigger]
                before.contains_key(p) ==> after.contains_key(p) && after[p] == before[p]
            &&& forall|p: Seq<char>| #[trigger]
                after.contains_key(p) ==> before.contains_key(p) || p == path
        }),
{
    reveal_strlit("filter");
    let fields = text::parts(out, '\0');
    let c = sep(value, '\0', out);
    let b = sep("filter"@, '\0', c);
    let a = sep(path, '\0', b);
    lemma_parts_sep(path, b, '\0');
    lemma_parts_sep("filter"@, c, '\0');
    lemma_parts_sep(value, out, '\0');
    let all = text::parts(a, '\0');
    assert(all =~= seq![path, "filter"@, value] + fields);
    let n = fields.len() as int / 3;
    assert(all.len() as int / 3 == n + 1);
    lemma_filters_shift(fields, path, "filter"@, value, n);
}

/// Without output there are no filters.
pub proof fn law_no_filters(r: ReplyView)
    requires
        runs::worked(r, Seq::<char>::empty()),
    ensures
        git::filters_of(r) == Ok::<Map<Seq<char>, Seq<char>>, git::GitErrorView>(Map::empty()),
{
    let none = Seq::<char>::empty();
    assert(text::parts(none, '\0') =~= seq![none]);
}

proof fn lemma_parts_sep(a: Seq<char>, b: Seq<char>, c: char)
    requires
        !a.contains(c),
    ensures
        text::parts(sep(a, c, b), c) == seq![a] + text::parts(b, c),
{
    let s = sep(a, c, b);
    let i = a.len() as int;
    assert(s[i] == c);
    assert forall|k: int| 0 <= k < i implies s[k] != c by {
        assert(a.contains(a[k]));
    }
    lemma_first_is(s, c, i);
    assert(s.take(i) =~= a);
    assert(s.skip(i + 1) =~= b);
}

proof fn lemma_filters_shift(
    fields: Seq<Seq<char>>,
    path: Seq<char>,
    attribute: Seq<char>,
    value: Seq<char>,
    n: int,
)
    requires
        0 <= n,
        3 * n <= fields.len(),
        path.len() > 0,
    ensures
        git::filters(seq![path, attribute, value] + fields, n + 1) == Map::<
            Seq<char>,
            Seq<char>,
        >::empty().insert(path, value).union_prefer_right(git::filters(fields, n)),
    decreases n,
{
    let all = seq![path, attribute, value] + fields;
    let one = Map::<Seq<char>, Seq<char>>::empty().insert(path, value);
    if n == 0 {
        assert(git::filters(all, 0) =~= Map::empty());
        assert(git::filters(fields, 0) =~= Map::empty());
        assert(git::filters(all, 1) =~= one);
        assert(one.union_prefer_right(git::filters(fields, 0)) =~= one);
    } else {
        lemma_filters_shift(fields, path, attribute, value, n - 1);
        assert(all[3 * n] == fields[3 * (n - 1)]);
        assert(all[3 * n + 2] == fields[3 * (n - 1) + 2]);
        assert(git::filters(all, n + 1) =~= one.union_prefer_right(git::filters(fields, n)));
    }
}

// ---------------------------------------------------------------------------
// Replies

/// A call that worked gives what it printed; one that failed, or that was not made, is an
/// error with the arguments, and for calls that may fail nothing.
pub proof fn law_replies(args: Seq<Seq<char>>, r: ReplyView, s: Seq<char>)
    ensures
        runs::worked(r, s) ==> {
            &&& git::ran(args, r) == Ok::<_, GitErrorView>(s)
            &&& git::tried(args, r) == Ok::<_, GitErrorView>(Some(s))
            &&& git::done(git::ran(args, r)) == Ok::<_, GitErrorView>(())
            &&& git::tidy(git::ran(args, r)) == Ok::<_, GitErrorView>(text::trimmed(s))
            &&& git::or_empty(git::tried(args, r)) == Ok::<_, GitErrorView>(s)
        },
        runs::failed(r, s) ==> {
            let e = GitErrorView::Failed { args, stderr: s };
            &&& git::ran(args, r) == Err::<Seq<char>, _>(e)
            &&& git::tried(args, r) == Ok::<Option<Seq<char>>, GitErrorView>(None)
            &&& git::done(git::ran(args, r)) == Err::<(), _>(e)
            &&& git::tidy(git::ran(args, r)) == Err::<Seq<char>, _>(e)
            &&& git::or_empty(git::tried(args, r)) == Ok::<Seq<char>, GitErrorView>(seq![])
        },
        runs::not_made(r) ==> {
            let e = GitErrorView::Spawn { args };
            &&& git::ran(args, r) == Err::<Seq<char>, _>(e)
            &&& git::tried(args, r) == Err::<Option<Seq<char>>, _>(e)
            &&& git::done(git::ran(args, r)) == Err::<(), _>(e)
            &&& git::tidy(git::ran(args, r)) == Err::<Seq<char>, _>(e)
            &&& git::or_empty(git::tried(args, r)) == Err::<Seq<char>, _>(e)
        },
{
}

/// There is a commit to go back to where git finds one; an upstream is told without the white
/// space around it.
pub proof fn law_found_out(r: ReplyView, s: Seq<char>)
    ensures
        runs::worked(r, s) ==> git::head_of(r) == Ok::<_, GitErrorView>(true) && git::upstream_of(r)
            == Ok::<_, GitErrorView>(Some(text::trimmed(s))),
        runs::failed(r, s) ==> git::head_of(r) == Ok::<_, GitErrorView>(false) && git::upstream_of(r)
            == Ok::<Option<Seq<char>>, GitErrorView>(None),
        runs::not_made(r) ==> git::head_of(r) is Err && git::upstream_of(r) is Err,
{
}

/// The words of each error.
pub proof fn law_messages(args: Seq<Seq<char>>, s: Seq<char>)
    ensures
        (GitErrorView::Spawn { args }).text() == "spawning git "@ + outside::debug_list(args),
        (GitErrorView::Failed { args, stderr: s }).text() == "git "@ + outside::debug_list(args)
            + " failed: "@ + text::trimmed(s),
        GitErrorView::NotUtf8.text() == "non-utf8 status record"@,
        (GitErrorView::Malformed { kind: RecordKind::Ordinary, record: s }).text()
            == "malformed v2 record: "@ + s,
        (GitErrorView::Malformed { kind: RecordKind::Rename, record: s }).text()
            == "malformed v2 rename record: "@ + s,
        (GitErrorView::Malformed { kind: RecordKind::Unmerged, record: s }).text()
            == "malformed v2 unmerged record: "@ + s,
        GitErrorView::SpawnAttr.text() == "spawning git check-attr"@,
        GitErrorView::AttrBroken(s).text() == s,
        GitErrorView::AttrFailed(s).text() == "git check-attr failed: "@ + text::trimmed(s),
        GitErrorView::SpawnPush.text() == "spawning git push"@,
        GitErrorView::PushFailed(s).text() == "push failed: "@ + text::trimmed(s),
        (GitErrorView::Remove { path: s }).text() == "removing "@ + s,
{
}

/// Where the filters could not be told, that is the error.
pub proof fn law_filters_failed(r: ReplyView, s: Seq<char>)
    ensures
        runs::failed(r, s) ==> git::filters_of(r) == Err::<Map<Seq<char>, Seq<char>>, _>(
            GitErrorView::AttrFailed(s),
        ),
        r is NotStarted ==> git::filters_of(r) == Err::<Map<Seq<char>, Seq<char>>, _>(
            GitErrorView::SpawnAttr,
        ),
        r == ReplyView::Broken(s) ==> git::filters_of(r) == Err::<Map<Seq<char>, Seq<char>>, _>(
            GitErrorView::AttrBroken(s),
        ),
{
}

/// What git says of a push is what it printed as its errors, and else what it printed.
pub proof fn law_pushed(r: ReplyView)
    ensures
        !(r is Exited) ==> git::pushed(r) == Err::<Seq<char>, _>(GitErrorView::SpawnPush),
        r matches ReplyView::Exited { success, stdout, stderr } ==> {
            let out = outside::lossy(stdout);
            let err = outside::lossy(stderr);
            &&& !success ==> git::pushed(r) == Err::<Seq<char>, _>(GitErrorView::PushFailed(err))
            &&& success && err.len() > 0 ==> git::pushed(r) == Ok::<_, GitErrorView>(
                text::trimmed(err),
            )
            &&& success && err.len() == 0 ==> git::pushed(r) == Ok::<_, GitErrorView>(
                text::trimmed(out),
            )
        },
{
}

// ---------------------------------------------------------------------------
// Records

/// A file of the status has its path and its two stages, and nothing is known yet of where
/// its content is kept.
pub proof fn law_plain(path: Seq<char>, index: Stage, worktree: Stage)
    ensures
        ({
            let e = FileEntryView::plain(path, index, worktree);
            &&& e.path == path
            &&& e.index == index
            &&& e.worktree == worktree
            &&& !e.lfs_tracked
            &&& e.lfs_pointer_ok is None
            &&& e.prev_storage is None
            &&& e.next_storage is None
        }),
{
}

/// What is read first comes first, and what is wrong further on makes all of it wrong.
pub proof fn law_entries_listed(
    list: Seq<FileEntryView>,
    more: Seq<FileEntryView>,
    e: GitErrorView,
)
    ensures
        git::ahead_of(list, Some(Ok(more))) == Some(Ok::<_, GitErrorView>(list + more)),
        git::ahead_of(list, Some(Err(e))) == Some(Err::<Seq<FileEntryView>, _>(e)),
        git::ahead_of(list, None) is None,
{
}

proof fn lemma_few_parts(s: Seq<char>, c: char, n: nat)
    ensures
        text::parts(s, c).len() < n ==> text::first_parts(s, c, n).len() < n,
    decreases n,
{
    text::lemma_first(s, c);
    let i = text::first(s, c);
    if n > 1 && i < s.len() {
        lemma_few_parts(s.skip(i + 1), c, (n - 1) as nat);
    }
}

/// A record with too few fields makes the status wrong, and the error holds the record.
pub proof fn law_malformed(record: Seq<char>, rest: Seq<u8>)
    requires
        record.len() > 0,
        !record.contains('\0'),
    ensures
        ({
            let n = text::parts(record, ' ').len();
            let found = git::porcelain(laws::status_bytes(record, rest));
            &&& record[0] == '1' && n < 9 ==> found == Some(
                Err::<Seq<FileEntryView>, _>(
                    GitErrorView::Malformed { kind: RecordKind::Ordinary, record },
                ),
            )
            &&& record[0] == '2' && n < 10 ==> found == Some(
                Err::<Seq<FileEntryView>, _>(
                    GitErrorView::Malformed { kind: RecordKind::Rename, record },
                ),
            )
            &&& record[0] == 'u' && n < 11 ==> found == Some(
                Err::<Seq<FileEntryView>, _>(
                    GitErrorView::Malformed { kind: RecordKind::Unmerged, record },
                ),
            )
        }),
{
    laws::lemma_record_found(record, rest);
    lemma_few_parts(record, ' ', 9);
    lemma_few_parts(record, ' ', 10);
    lemma_few_parts(record, ' ', 11);
}

/// Records of other kinds are passed over: ignored files, and headers.
pub proof fn law_skipped(record: Seq<char>, rest: Seq<u8>)
    requires
        record.len() > 0,
        !record.contains('\0'),
        record[0] as u32 <= 0x7f,
        record[0] != '1' && record[0] != '2' && record[0] != 'u' && record[0] != '?',
    ensures
        git::porcelain(laws::status_bytes(record, rest)) == git::porcelain(rest),
{
    laws::lemma_record_found(record, rest);
}

/// A record that is no text makes the status wrong.
pub proof fn law_no_text(bytes: Seq<u8>, rest: Seq<u8>)
    requires
        bytes.len() > 0,
        !bytes.contains(0),
        !utf8::valid_utf8(bytes),
    ensures
        git::porcelain(bytes + seq![0u8] + rest) == Some(
            Err::<Seq<FileEntryView>, _>(GitErrorView::NotUtf8),
        ),
{
    let data = bytes + seq![0u8] + rest;
    git::lemma_first_zero(data);
    let z = git::first_zero(data);
    assert(data[bytes.len() as int] == 0);
    if z < bytes.len() {
        assert(data[z] == bytes[z]);
        assert(bytes.contains(bytes[z]));
    }
    assert(data.take(z) =~= bytes);
}

/// A number of commits that cannot be read counts as none.
pub proof fn law_count(s: Seq<char>)
    ensures
        s.len() == 0 ==> git::count(s) == 0,
        (exists|i: int| 1 <= i < s.len() && !text::is_digit(#[trigger] s[i])) ==> git::count(s)
            == 0,
        s.len() > 0 && s[0] != '+' && !text::is_digit(s[0]) ==> git::count(s) == 0,
        git::track(Seq::<char>::empty()) == (0nat, 0nat, false),
{
    if exists|i: int| 1 <= i < s.len() && !text::is_digit(#[trigger] s[i]) {
        let i = choose|i: int| 1 <= i < s.len() && !text::is_digit(#[trigger] s[i]);
        let u = text::unsigned(s);
        if s[0] == '+' {
            assert(u[i - 1] == s[i]);
        } else {
            assert(u[i] == s[i]);
        }
    }
    if s.len() > 0 && s[0] != '+' {
        assert(text::unsigned(s)[0] == s[0]);
    }
    text::law_trimmed(Seq::<char>::empty());
}

/// A line with too few fields is passed over, and so is a remote branch without a remote.
pub proof fn law_short_lines(s: Seq<char>, full: Seq<char>, short: Seq<char>, subject: Seq<char>)
    requires
        !full.contains(unit()),
        !full.contains('/'),
        !short.contains(unit()),
    ensures
        text::parts(s, unit()).len() < 5 ==> git::commit_line()(s) is None,
        text::parts(s, unit()).len() < 2 ==> git::stash_line()(s) is None,
        text::parts(s, unit()).len() < 6 ==> git::local_line()(s) is None,
        text::parts(s, unit()).len() < 3 ==> git::remote_line()(s) is None,
        git::remote_line()(sep(full, unit(), sep(short, unit(), subject))) is None,
{
    lemma_few_parts(s, unit(), 5);
    lemma_few_parts(s, unit(), 2);
    lemma_few_parts(s, unit(), 6);
    lemma_few_parts(s, unit(), 3);
    let tail = sep(short, unit(), subject);
    law_fields(full, tail, unit(), 3);
    law_fields(short, subject, unit(), 2);
    assert(text::first_parts(sep(full, unit(), tail), unit(), 3) =~= seq![full, short, subject]);
    text::lemma_first(full, '/');
    if text::first(full, '/') < full.len() {
        assert(full.contains(full[text::first(full, '/')]));
    }
}

} // verus!
