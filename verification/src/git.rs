//! What `branch` asks git and how it reads git's answers: the argument lists
//! of the git commands it runs, and parsers for the output of
//! `git branch --format=...`, `git branch -r --format=...` and
//! `git worktree list --porcelain`.

use vstd::prelude::*;
use crate::text::{
    is_ws, strip_cr,
    chars_of, ends_with_chars, has_prefix, has_suffix, lines, seqs_of, split_lines, starts_with_chars,
    string_from, string_of, sub_chars, trim, trim_chars, trim_start, trim_start_chars,
};

verus! {

broadcast use vstd::string::group_string_axioms;

/// A linked worktree: the branch checked out in it and its directory.
pub struct Worktree {
    pub name: String,
    pub path: String,
}

/// The views of a list of strings.
pub open spec fn strings_of(v: Seq<String>) -> Seq<Seq<char>> {
    v.map_values(|s: String| s@)
}

/// The views of a list of (branch name, is current) pairs.
pub open spec fn branch_pairs(v: Seq<(String, bool)>) -> Seq<(Seq<char>, bool)> {
    v.map_values(|p: (String, bool)| (p.0@, p.1))
}

/// The views of a list of worktrees, as (branch name, path) pairs.
pub open spec fn worktree_pairs(v: Seq<Worktree>) -> Seq<(Seq<char>, Seq<char>)> {
    v.map_values(|w: Worktree| (w.name@, w.path@))
}

// ---------------------------------------------------------------------------
// The outcome of running git
// ---------------------------------------------------------------------------

/// What a git run amounts to: its standard output when it succeeded, else its
/// standard error without surrounding whitespace.
pub fn git_outcome(success: bool, stdout: String, stderr: &str) -> (r: Result<String, String>)
    ensures
        success ==> (r matches Ok(out) && out@ == stdout@),
        !success ==> (r matches Err(e) && e@ == trim(stderr@)),
{
    if success {
        Ok(stdout)
    } else {
        let t = trim_chars(&chars_of(stderr));
        Err(string_of(&t))
    }
}

// ---------------------------------------------------------------------------
// Local branches
// ---------------------------------------------------------------------------

/// The arguments of the git command that lists local branches, each line
/// holding `*` for the current branch (a space otherwise) and the name.
pub fn list_local_branches_args() -> (r: Vec<String>)
    ensures
        strings_of(r@) == seq!["branch"@, "--format=%(HEAD)%(refname:short)"@],
{
    let r = vec![string_from("branch"), string_from("--format=%(HEAD)%(refname:short)")];
    assert(strings_of(r@) =~= seq!["branch"@, "--format=%(HEAD)%(refname:short)"@]);
    r
}

/// One line of the local branch listing: a leading `*` marks the current
/// branch and is dropped; otherwise the leading whitespace is dropped.
pub open spec fn branch_entry(line: Seq<char>) -> (Seq<char>, bool) {
    if line.len() > 0 && line[0] == '*' {
        (line.drop_first(), true)
    } else {
        (trim_start(line), false)
    }
}

/// The branches of a listing, one per non-empty line, in order.
pub open spec fn local_branches(ls: Seq<Seq<char>>) -> Seq<(Seq<char>, bool)>
    decreases ls.len(),
{
    if ls.len() == 0 {
        seq![]
    } else {
        let rest = local_branches(ls.drop_last());
        if ls.last().len() == 0 {
            rest
        } else {
            rest.push(branch_entry(ls.last()))
        }
    }
}

/// The local branches in the output of the command of
/// [`list_local_branches_args`]: (name, is current) for each non-empty line.
pub fn list_local_branches(output: &str) -> (r: Vec<(String, bool)>)
    ensures
        branch_pairs(r@) == local_branches(lines(output@)),
{
    let ls = split_lines(&chars_of(output));
    let ghost lv = seqs_of(ls@);
    let mut r: Vec<(String, bool)> = Vec::new();
    for i in 0..ls.len()
        invariant
            lv == seqs_of(ls@),
            branch_pairs(r@) == local_branches(lv.take(i as int)),
    {
        let line = &ls[i];
        proof {
            assert(lv.take(i + 1).drop_last() == lv.take(i as int));
            assert(lv.take(i + 1).last() == line@);
        }
        if line.len() > 0 {
            let is_current = line[0] == '*';
            let name = if is_current {
                sub_chars(line, 1, line.len())
            } else {
                trim_start_chars(line)
            };
            proof {
                if is_current {
                    assert(line@.subrange(1, line@.len() as int) == line@.drop_first());
                }
            }
            let ghost old_r = r@;
            r.push((string_of(&name), is_current));
            assert(branch_pairs(r@) =~= branch_pairs(old_r).push(branch_entry(line@)));
        }
    }
    assert(lv.take(ls.len() as int) == lv);
    r
}

// ---------------------------------------------------------------------------
// Remote branches
// ---------------------------------------------------------------------------

/// The arguments of the git command that lists remote-tracking branches.
pub fn list_remote_branches_args() -> (r: Vec<String>)
    ensures
        strings_of(r@) == seq!["branch"@, "-r"@, "--format=%(refname:short)"@],
{
    let r = vec![string_from("branch"), string_from("-r"), string_from("--format=%(refname:short)")];
    assert(strings_of(r@) =~= seq!["branch"@, "-r"@, "--format=%(refname:short)"@]);
    r
}

/// Whether a trimmed line of the remote listing names a branch: it is not
/// empty and is not a remote's `HEAD` pointer.
pub open spec fn is_remote_branch(t: Seq<char>) -> bool {
    t.len() > 0 && !has_suffix(t, "/HEAD"@)
}

/// The remote branches of a listing: each line trimmed, empty lines and
/// `.../HEAD` lines left out, in order.
pub open spec fn remote_branches(ls: Seq<Seq<char>>) -> Seq<Seq<char>>
    decreases ls.len(),
{
    if ls.len() == 0 {
        seq![]
    } else {
        let rest = remote_branches(ls.drop_last());
        let t = trim(ls.last());
        if is_remote_branch(t) {
            rest.push(t)
        } else {
            rest
        }
    }
}

/// The remote-tracking branches in the output of the command of
/// [`list_remote_branches_args`].
pub fn list_remote_branches(output: &str) -> (r: Vec<String>)
    ensures
        strings_of(r@) == remote_branches(lines(output@)),
{
    let ls = split_lines(&chars_of(output));
    let ghost lv = seqs_of(ls@);
    let head = chars_of("/HEAD");
    let mut r: Vec<String> = Vec::new();
    for i in 0..ls.len()
        invariant
            lv == seqs_of(ls@),
            head@ == "/HEAD"@,
            strings_of(r@) == remote_branches(lv.take(i as int)),
    {
        proof {
            assert(lv.take(i + 1).drop_last() == lv.take(i as int));
            assert(lv.take(i + 1).last() == ls@[i as int]@);
        }
        let t = trim_chars(&ls[i]);
        if t.len() > 0 && !ends_with_chars(&t, &head) {
            let ghost old_r = r@;
            r.push(string_of(&t));
            assert(strings_of(r@) =~= strings_of(old_r).push(t@));
        }
    }
    assert(lv.take(ls.len() as int) == lv);
    r
}

// ---------------------------------------------------------------------------
// Worktrees
// ---------------------------------------------------------------------------

/// The arguments of the git command that lists worktrees.
pub fn list_worktrees_args() -> (r: Vec<String>)
    ensures
        strings_of(r@) == seq!["worktree"@, "list"@, "--porcelain"@],
{
    let r = vec![string_from("worktree"), string_from("list"), string_from("--porcelain")];
    assert(strings_of(r@) =~= seq!["worktree"@, "list"@, "--porcelain"@]);
    r
}

/// The index of the first `"\n\n"` in `s`, or `s.len()` when there is none.
pub open spec fn block_break(s: Seq<char>) -> nat
    decreases s.len(),
{
    if s.len() < 2 {
        s.len()
    } else if s[0] == '\n' && s[1] == '\n' {
        0
    } else {
        1 + block_break(s.drop_first())
    }
}

/// `s` cut at each `"\n\n"`, left to right, as `str::split("\n\n")` does;
/// there is always at least one piece.
pub open spec fn blocks(s: Seq<char>) -> Seq<Seq<char>>
    decreases s.len(),
{
    let k = block_break(s);
    if k + 2 > s.len() {
        seq![s]
    } else {
        seq![s.take(k as int)] + blocks(s.skip(k + 2 as int))
    }
}

proof fn lemma_block_break_bound(s: Seq<char>)
    ensures
        block_break(s) <= s.len(),
        block_break(s) < s.len() ==> block_break(s) + 2 <= s.len(),
    decreases s.len(),
{
    if s.len() >= 2 && !(s[0] == '\n' && s[1] == '\n') {
        lemma_block_break_bound(s.drop_first());
    }
}

proof fn lemma_block_break(s: Seq<char>, k: int)
    requires
        0 <= k,
        k + 2 <= s.len(),
        forall|j: int| 0 <= j < k ==> !(#[trigger] s[j] == '\n' && s[j + 1] == '\n'),
        s[k] == '\n' && s[k + 1] == '\n',
    ensures
        block_break(s) == k,
    decreases k,
{
    if k > 0 {
        assert forall|j: int| 0 <= j < k - 1 implies !(#[trigger] s.drop_first()[j] == '\n'
            && s.drop_first()[j + 1] == '\n') by {
            assert(!(s[j + 1] == '\n' && s[j + 2] == '\n'));
        }
        lemma_block_break(s.drop_first(), k - 1);
    }
}

proof fn lemma_no_block_break(s: Seq<char>)
    requires
        forall|j: int| 0 <= j < s.len() - 1 ==> !(#[trigger] s[j] == '\n' && s[j + 1] == '\n'),
    ensures
        block_break(s) == s.len(),
    decreases s.len(),
{
    if s.len() >= 2 {
        assert(!(s[0] == '\n' && s[1] == '\n'));
        assert forall|j: int| 0 <= j < s.drop_first().len() - 1 implies !(
        #[trigger] s.drop_first()[j] == '\n' && s.drop_first()[j + 1] == '\n') by {
            assert(!(s[j + 1] == '\n' && s[j + 2] == '\n'));
        }
        lemma_no_block_break(s.drop_first());
    }
}

/// The pieces of `v` between occurrences of `"\n\n"` (see [`blocks`]).
pub fn split_blocks(v: &Vec<char>) -> (r: Vec<Vec<char>>)
    ensures
        seqs_of(r@) == blocks(v@),
{
    let mut r: Vec<Vec<char>> = Vec::new();
    let mut start: usize = 0;
    let mut i: usize = 0;
    assert(v@.skip(0) == v@);
    assert(seqs_of(r@) + blocks(v@) =~= blocks(v@));
    while v.len() - i > 1
        invariant
            start <= i <= v.len(),
            forall|j: int|
                start <= j < i && j + 1 < v.len() ==> !(#[trigger] v@[j] == '\n' && v@[j + 1]
                    == '\n'),
            blocks(v@) == seqs_of(r@) + blocks(v@.skip(start as int)),
        decreases v.len() - i,
    {
        if v[i] == '\n' && v[i + 1] == '\n' {
            let piece = sub_chars(v, start, i);
            proof {
                let t = v@.skip(start as int);
                assert forall|j: int| 0 <= j < i - start implies !(#[trigger] t[j] == '\n' && t[j
                    + 1] == '\n') by {
                    assert(t[j] == v@[start + j]);
                    assert(t[j + 1] == v@[start + j + 1]);
                }
                lemma_block_break(t, i - start);
                assert(t.take(i - start) == v@.subrange(start as int, i as int));
                assert(t.skip(i - start + 2) == v@.skip(i + 2));
            }
            let ghost old_r = r@;
            r.push(piece);
            assert(seqs_of(r@) == seqs_of(old_r) + seq![v@.subrange(start as int, i as int)]);
            start = i + 2;
            i = i + 2;
        } else {
            i = i + 1;
        }
    }
    let piece = sub_chars(v, start, v.len());
    proof {
        let t = v@.skip(start as int);
        assert forall|j: int| 0 <= j < t.len() - 1 implies !(#[trigger] t[j] == '\n' && t[j + 1]
            == '\n') by {
            assert(t[j] == v@[start + j]);
            assert(t[j + 1] == v@[start + j + 1]);
        }
        lemma_no_block_break(t);
        assert(t == v@.subrange(start as int, v.len() as int));
    }
    let ghost old_r = r@;
    r.push(piece);
    assert(seqs_of(r@) == seqs_of(old_r) + seq![v@.skip(start as int)]);
    r
}

/// The text after `prefix` on the last line of `ls` that starts with it.
pub open spec fn last_field(ls: Seq<Seq<char>>, prefix: Seq<char>) -> Option<Seq<char>>
    decreases ls.len(),
{
    if ls.len() == 0 {
        None
    } else if has_prefix(ls.last(), prefix) {
        Some(ls.last().skip(prefix.len() as int))
    } else {
        last_field(ls.drop_last(), prefix)
    }
}

/// The worktree a porcelain record describes, when it names both a path
/// (`worktree <path>`) and a local branch (`branch refs/heads/<name>`).
pub open spec fn worktree_entry(block: Seq<char>) -> Option<(Seq<char>, Seq<char>)> {
    let ls = lines(block);
    match (last_field(ls, "worktree "@), last_field(ls, "branch refs/heads/"@)) {
        (Some(p), Some(b)) => Some((b, p)),
        _ => None,
    }
}

/// The worktrees of a list of porcelain records, in order.
pub open spec fn worktree_entries(bs: Seq<Seq<char>>) -> Seq<(Seq<char>, Seq<char>)>
    decreases bs.len(),
{
    if bs.len() == 0 {
        seq![]
    } else {
        let rest = worktree_entries(bs.drop_last());
        match worktree_entry(bs.last()) {
            Some(e) => rest.push(e),
            None => rest,
        }
    }
}

/// The worktrees in the output of the command of [`list_worktrees_args`]:
/// the records after the first (which is the main worktree) that name both a
/// path and a branch, as (branch name, path).
pub fn list_worktrees(output: &str) -> (r: Vec<Worktree>)
    ensures
        worktree_pairs(r@) == worktree_entries(blocks(output@).skip(1)),
{
    let bs = split_blocks(&chars_of(output));
    let ghost bv = seqs_of(bs@);
    let ghost rest = bv.skip(1);
    let wt_prefix = chars_of("worktree ");
    let br_prefix = chars_of("branch refs/heads/");
    let mut r: Vec<Worktree> = Vec::new();
    assert(rest.take(0) =~= Seq::<Seq<char>>::empty());
    let mut k: usize = 1;
    while k < bs.len()
        invariant
            1 <= k <= bs.len() || bs.len() == 0,
            bv == seqs_of(bs@),
            rest == bv.skip(1),
            wt_prefix@ == "worktree "@,
            br_prefix@ == "branch refs/heads/"@,
            k <= bs.len() ==> worktree_pairs(r@) == worktree_entries(rest.take(k - 1)),
            bs.len() == 0 ==> r@.len() == 0,
        decreases bs.len() - k,
    {
        proof {
            assert(rest.take(k as int).drop_last() == rest.take(k - 1));
            assert(rest.take(k as int).last() == bs@[k as int]@);
        }
        let ls = split_lines(&bs[k]);
        let ghost lv = seqs_of(ls@);
        let mut path: Option<Vec<char>> = None;
        let mut name: Option<Vec<char>> = None;
        for j in 0..ls.len()
            invariant
                lv == seqs_of(ls@),
                wt_prefix@ == "worktree "@,
                br_prefix@ == "branch refs/heads/"@,
                match path {
                    Some(p) => last_field(lv.take(j as int), "worktree "@) == Some(p@),
                    None => last_field(lv.take(j as int), "worktree "@) is None,
                },
                match name {
                    Some(b) => last_field(lv.take(j as int), "branch refs/heads/"@) == Some(b@),
                    None => last_field(lv.take(j as int), "branch refs/heads/"@) is None,
                },
        {
            proof {
                assert(lv.take(j + 1).drop_last() == lv.take(j as int));
                assert(lv.take(j + 1).last() == ls@[j as int]@);
            }
            let line = &ls[j];
            if starts_with_chars(line, &wt_prefix) {
                path = Some(sub_chars(line, wt_prefix.len(), line.len()));
                proof {
                    reveal_strlit("branch refs/heads/");
                    reveal_strlit("worktree ");
                    assert(!has_prefix(line@, "branch refs/heads/"@)) by {
                        if has_prefix(line@, "branch refs/heads/"@) {
                            assert(line@.take(18)[0] == 'b');
                            assert(line@.take(9)[0] == 'w');
                            assert(line@.take(18)[0] == line@[0]);
                            assert(line@.take(9)[0] == line@[0]);
                        }
                    }
                }
            } else if starts_with_chars(line, &br_prefix) {
                name = Some(sub_chars(line, br_prefix.len(), line.len()));
            }
        }
        assert(lv.take(ls.len() as int) == lv);
        match (path, name) {
            (Some(p), Some(b)) => {
                let ghost old_r = r@;
                r.push(Worktree { name: string_of(&b), path: string_of(&p) });
                assert(worktree_pairs(r@) =~= worktree_pairs(old_r).push((b@, p@)));
            },
            _ => {},
        }
        k = k + 1;
    }
    proof {
        if bs.len() > 0 {
            assert(rest.take(bs.len() - 1) == rest);
        } else {
            assert(rest =~= Seq::<Seq<char>>::empty());
        }
    }
    r
}

// ---------------------------------------------------------------------------
// Commands that change the repository
// ---------------------------------------------------------------------------

/// The arguments of `git checkout <name>`.
pub fn checkout_branch(name: &str) -> (r: Vec<String>)
    ensures
        strings_of(r@) == seq!["checkout"@, name@],
{
    let r = vec![string_from("checkout"), string_from(name)];
    assert(strings_of(r@) =~= seq!["checkout"@, name@]);
    r
}

/// The flag of `git branch` that deletes a branch: `-D` (even when not merged)
/// when forced, `-d` otherwise.
pub open spec fn delete_flag(force: bool) -> Seq<char> {
    if force {
        "-D"@
    } else {
        "-d"@
    }
}

/// The arguments of `git branch -d <name>`, or `-D` when forced.
pub fn delete_branch(name: &str, force: bool) -> (r: Vec<String>)
    ensures
        strings_of(r@) == seq!["branch"@, delete_flag(force), name@],
{
    let flag = if force {
        "-D"
    } else {
        "-d"
    };
    let r = vec![string_from("branch"), string_from(flag), string_from(name)];
    assert(strings_of(r@) =~= seq!["branch"@, delete_flag(force), name@]);
    r
}

/// The arguments of `git worktree remove <path>`, with `--force` when forced
/// (which removes a worktree with modified or untracked files).
pub fn remove_worktree(path: &str, force: bool) -> (r: Vec<String>)
    ensures
        strings_of(r@) == (if force {
            seq!["worktree"@, "remove"@, "--force"@, path@]
        } else {
            seq!["worktree"@, "remove"@, path@]
        }),
{
    if force {
        let r = vec![string_from("worktree"), string_from("remove"), string_from("--force"), string_from(path)];
        assert(strings_of(r@) =~= seq!["worktree"@, "remove"@, "--force"@, path@]);
        r
    } else {
        let r = vec![string_from("worktree"), string_from("remove"), string_from(path)];
        assert(strings_of(r@) =~= seq!["worktree"@, "remove"@, path@]);
        r
    }
}

// ---------------------------------------------------------------------------
// Laws
// ---------------------------------------------------------------------------

/// The line git prints for a local branch: `*` for the current one, a space
/// otherwise, then the name.
pub open spec fn local_listing_line(e: (Seq<char>, bool)) -> Seq<char> {
    (if e.1 {
        seq!['*']
    } else {
        seq![' ']
    }) + e.0
}

/// What git prints for a list of local branches, one line each.
pub open spec fn local_listing(es: Seq<(Seq<char>, bool)>) -> Seq<char>
    decreases es.len(),
{
    if es.len() == 0 {
        seq![]
    } else {
        local_listing(es.drop_last()) + local_listing_line(es.last()) + seq!['\n']
    }
}

/// A branch name as git allows it: no newline, no trailing carriage return,
/// no leading whitespace.
pub open spec fn plain_branch_name(n: Seq<char>) -> bool {
    &&& !n.contains('\n')
    &&& !(n.len() > 0 && n.last() == '\r')
    &&& !(n.len() > 0 && is_ws(n[0]))
}

/// Reading back what git prints for a list of local branches gives that list:
/// every name, in order, with the current branch marked.
pub proof fn law_local_listing_round_trip(es: Seq<(Seq<char>, bool)>)
    requires
        forall|i: int| 0 <= i < es.len() ==> plain_branch_name(#[trigger] es[i].0),
    ensures
        local_branches(lines(local_listing(es))) == es,
    decreases es.len(),
{
    if es.len() == 0 {
        assert(lines(local_listing(es)) =~= Seq::<Seq<char>>::empty());
        assert(local_branches(Seq::<Seq<char>>::empty()) =~= es);
    } else {
        let front = es.drop_last();
        assert forall|i: int| 0 <= i < front.len() implies plain_branch_name(#[trigger] front[i].0) by {
            assert(front[i] == es[i]);
        }
        law_local_listing_round_trip(front);
        let e = es.last();
        assert(plain_branch_name(es[es.len() - 1].0));
        let l = local_listing(front);
        let line = local_listing_line(e);
        assert(local_listing(es) == l + (line + seq!['\n']));
        if l.len() > 0 {
            assert(l.last() == '\n');
        }
        crate::text::lemma_lines_append(l, line + seq!['\n']);
        assert(!line.contains('\n')) by {
            if line.contains('\n') {
                let j = choose|j: int| 0 <= j < line.len() && line[j] == '\n';
                assert(line[j] == e.0[j - 1]);
                assert(e.0.contains('\n'));
            }
        }
        crate::text::lemma_single_line(line);
        assert(line.len() > 0);
        assert(line.last() != '\r') by {
            if e.0.len() > 0 {
                assert(line.last() == e.0.last());
            }
        }
        assert(strip_cr(line) == line);
        let ls = lines(l) + seq![line];
        assert(ls.drop_last() == lines(l));
        assert(ls.last() == line);
        if e.1 {
            assert(line.drop_first() == e.0);
        } else {
            assert(line.drop_first() == e.0);
            assert(trim_start(line) == trim_start(line.drop_first()));
            assert(trim_start(e.0) == e.0);
        }
        assert(branch_entry(line) == e);
        assert(local_branches(ls) == front.push(e));
        assert(front.push(e) =~= es);
    }
}

/// Every remote branch read from a listing is a non-empty name that is not a
/// remote's `HEAD` pointer.
pub proof fn law_remote_branches_exclude_head(ls: Seq<Seq<char>>)
    ensures
        forall|k: int|
            0 <= k < remote_branches(ls).len() ==> is_remote_branch(#[trigger] remote_branches(ls)[k]),
    decreases ls.len(),
{
    if ls.len() > 0 {
        law_remote_branches_exclude_head(ls.drop_last());
        let rest = remote_branches(ls.drop_last());
        let r = remote_branches(ls);
        assert forall|k: int| 0 <= k < r.len() implies is_remote_branch(#[trigger] r[k]) by {
            if k < rest.len() {
                assert(r[k] == rest[k]);
            }
        }
    }
}

/// A field of a porcelain line as git writes it: no newline, and no carriage
/// return at its end.
pub open spec fn plain_field(f: Seq<char>) -> bool {
    !f.contains('\n') && !(f.len() > 0 && f.last() == '\r')
}

/// The porcelain record git prints for a worktree at `path`, with `head`
/// checked out on branch `name`.
pub open spec fn porcelain_record(path: Seq<char>, head: Seq<char>, name: Seq<char>) -> Seq<char> {
    "worktree "@ + path + seq!['\n'] + "HEAD "@ + head + seq!['\n'] + "branch refs/heads/"@ + name
}

/// Records of worktrees, each followed by an empty line.
pub open spec fn porcelain_records(rs: Seq<(Seq<char>, Seq<char>, Seq<char>)>) -> Seq<char>
    decreases rs.len(),
{
    if rs.len() == 0 {
        seq![]
    } else {
        porcelain_record(rs[0].0, rs[0].1, rs[0].2) + seq!['\n', '\n'] + porcelain_records(
            rs.drop_first(),
        )
    }
}

/// Whether `s` holds no two newlines in a row.
pub open spec fn no_blank_line(s: Seq<char>) -> bool {
    forall|j: int| 0 <= j < s.len() - 1 ==> !(#[trigger] s[j] == '\n' && s[j + 1] == '\n')
}

/// Cutting at the first blank line of `x + "\n\n" + y` gives `x` first.
proof fn lemma_blocks_front(x: Seq<char>, y: Seq<char>)
    requires
        no_blank_line(x),
        x.len() == 0 || x.last() != '\n',
    ensures
        blocks(x + seq!['\n', '\n'] + y) == seq![x] + blocks(y),
{
    let s = x + seq!['\n', '\n'] + y;
    let k = x.len() as int;
    assert forall|j: int| 0 <= j < k implies !(#[trigger] s[j] == '\n' && s[j + 1] == '\n') by {
        assert(s[j] == x[j]);
        if j + 1 < k {
            assert(s[j + 1] == x[j + 1]);
        }
    }
    lemma_block_break(s, k);
    assert(s.take(k) == x);
    assert(s.skip(k + 2) == y);
}

/// A line without newline characters is one line.
proof fn lemma_lines_of_one_line(c: Seq<char>)
    requires
        c.len() > 0,
        !c.contains('\n'),
    ensures
        lines(c) == seq![c],
{
    assert forall|j: int| 0 <= j < c.len() implies #[trigger] c[j] != '\n' by {
        if c[j] == '\n' {
            assert(c.contains('\n'));
        }
    }
    crate::text::lemma_newline_index_at(c, c.len() as int);
}

/// What the worktree parser reads from one record: its branch and its path.
proof fn lemma_record_entry(path: Seq<char>, head: Seq<char>, name: Seq<char>)
    requires
        plain_field(path),
        plain_field(head),
        !name.contains('\n'),
    ensures
        worktree_entry(porcelain_record(path, head, name)) == Some((name, path)),
        no_blank_line(porcelain_record(path, head, name)),
        porcelain_record(path, head, name).last() != '\n',
{
    reveal_strlit("worktree ");
    reveal_strlit("HEAD ");
    reveal_strlit("branch refs/heads/");
    let a = "worktree "@ + path;
    let b = "HEAD "@ + head;
    let c = "branch refs/heads/"@ + name;
    let r = porcelain_record(path, head, name);
    assert(r == (a + seq!['\n']) + ((b + seq!['\n']) + c));
    assert(!a.contains('\n')) by {
        if a.contains('\n') {
            let j = choose|j: int| 0 <= j < a.len() && a[j] == '\n';
            assert(a[j] == path[j - 9]);
            assert(path.contains('\n'));
        }
    }
    assert(!b.contains('\n')) by {
        if b.contains('\n') {
            let j = choose|j: int| 0 <= j < b.len() && b[j] == '\n';
            assert(b[j] == head[j - 5]);
            assert(head.contains('\n'));
        }
    }
    assert(!c.contains('\n')) by {
        if c.contains('\n') {
            let j = choose|j: int| 0 <= j < c.len() && c[j] == '\n';
            assert(c[j] == name[j - 18]);
            assert(name.contains('\n'));
        }
    }
    assert(a.last() != '\r') by {
        if path.len() > 0 {
            assert(a.last() == path.last());
        }
    }
    assert(b.last() != '\r') by {
        if head.len() > 0 {
            assert(b.last() == head.last());
        }
    }
    crate::text::lemma_lines_append(a + seq!['\n'], (b + seq!['\n']) + c);
    crate::text::lemma_lines_append(b + seq!['\n'], c);
    crate::text::lemma_single_line(a);
    crate::text::lemma_single_line(b);
    lemma_lines_of_one_line(c);
    let ls = lines(r);
    assert(ls == seq![a, b, c]);
    assert(c.take(18) == "branch refs/heads/"@);
    assert(c.skip(18) == name);
    assert(a.take(9) == "worktree "@);
    assert(a.skip(9) == path);
    assert(!has_prefix(c, "worktree "@)) by {
        if has_prefix(c, "worktree "@) {
            assert(c.take(9)[0] == c[0]);
        }
    }
    assert(!has_prefix(b, "worktree "@)) by {
        if has_prefix(b, "worktree "@) {
            assert(b.take(9)[0] == b[0]);
        }
    }
    assert(ls.drop_last() == seq![a, b]);
    assert(seq![a, b].drop_last() == seq![a]);
    assert(seq![a].drop_last() =~= Seq::<Seq<char>>::empty());
    assert(last_field(ls, "branch refs/heads/"@) == Some(name));
    assert(last_field(seq![a], "worktree "@) == Some(path));
    assert(last_field(seq![a, b], "worktree "@) == Some(path));
    assert(last_field(ls, "worktree "@) == Some(path));
    // No two newlines in a row: the newlines sit between non-empty lines.
    assert forall|j: int| 0 <= j < r.len() - 1 implies !(#[trigger] r[j] == '\n' && r[j + 1]
        == '\n') by {
        if r[j] == '\n' {
            if j < a.len() {
                assert(r[j] == a[j]);
                assert(a.contains('\n'));
            } else if j == a.len() {
                assert(r[j + 1] == b[0]);
            } else if j < a.len() + 1 + b.len() {
                assert(r[j] == b[j - a.len() - 1]);
                assert(b.contains('\n'));
            } else if j == a.len() + 1 + b.len() {
                assert(r[j + 1] == c[0]);
            } else {
                assert(r[j] == c[j - a.len() - 2 - b.len()]);
                assert(c.contains('\n'));
            }
        }
    }
    assert(r.last() == c.last());
}

/// The records git prints for worktrees, cut at blank lines, are the records
/// and an empty tail.
proof fn lemma_record_blocks(rs: Seq<(Seq<char>, Seq<char>, Seq<char>)>)
    requires
        forall|i: int|
            0 <= i < rs.len() ==> plain_field(#[trigger] rs[i].0) && plain_field(rs[i].1)
                && !rs[i].2.contains('\n'),
    ensures
        blocks(porcelain_records(rs)) == rs.map_values(
            |r: (Seq<char>, Seq<char>, Seq<char>)| porcelain_record(r.0, r.1, r.2),
        ).push(seq![]),
    decreases rs.len(),
{
    if rs.len() == 0 {
        assert(blocks(porcelain_records(rs)) == seq![Seq::<char>::empty()]);
    } else {
        let rest = rs.drop_first();
        assert forall|i: int|
            0 <= i < rest.len() implies plain_field(#[trigger] rest[i].0) && plain_field(rest[i].1)
            && !rest[i].2.contains('\n') by {
            assert(rest[i] == rs[i + 1]);
            assert(plain_field(rs[i + 1].0));
        }
        lemma_record_blocks(rest);
        assert(plain_field(rs[0].0));
        lemma_record_entry(rs[0].0, rs[0].1, rs[0].2);
        lemma_blocks_front(porcelain_record(rs[0].0, rs[0].1, rs[0].2), porcelain_records(rest));
        assert(blocks(porcelain_records(rs)) =~= rs.map_values(
            |r: (Seq<char>, Seq<char>, Seq<char>)| porcelain_record(r.0, r.1, r.2),
        ).push(seq![]));
    }
}

/// The worktrees read from a list of records are their (branch, path) pairs.
proof fn lemma_record_entries(rs: Seq<(Seq<char>, Seq<char>, Seq<char>)>)
    requires
        forall|i: int|
            0 <= i < rs.len() ==> plain_field(#[trigger] rs[i].0) && plain_field(rs[i].1)
                && !rs[i].2.contains('\n'),
    ensures
        worktree_entries(
            rs.map_values(|r: (Seq<char>, Seq<char>, Seq<char>)| porcelain_record(r.0, r.1, r.2)),
        ) == rs.map_values(|r: (Seq<char>, Seq<char>, Seq<char>)| (r.2, r.0)),
    decreases rs.len(),
{
    let m = rs.map_values(|r: (Seq<char>, Seq<char>, Seq<char>)| porcelain_record(r.0, r.1, r.2));
    if rs.len() == 0 {
        assert(rs.map_values(|r: (Seq<char>, Seq<char>, Seq<char>)| (r.2, r.0)) =~= Seq::<
            (Seq<char>, Seq<char>),
        >::empty());
    } else {
        let front = rs.drop_last();
        assert forall|i: int|
            0 <= i < front.len() implies plain_field(#[trigger] front[i].0) && plain_field(
                front[i].1,
            ) && !front[i].2.contains('\n') by {
            assert(front[i] == rs[i]);
            assert(plain_field(rs[i].0));
        }
        lemma_record_entries(front);
        let last = rs[rs.len() - 1];
        assert(plain_field(rs[rs.len() - 1].0));
        lemma_record_entry(last.0, last.1, last.2);
        assert(m.drop_last() =~= front.map_values(
            |r: (Seq<char>, Seq<char>, Seq<char>)| porcelain_record(r.0, r.1, r.2),
        ));
        assert(m.last() == porcelain_record(last.0, last.1, last.2));
        assert(rs.map_values(|r: (Seq<char>, Seq<char>, Seq<char>)| (r.2, r.0)) =~= front.map_values(
            |r: (Seq<char>, Seq<char>, Seq<char>)| (r.2, r.0),
        ).push((last.2, last.0)));
    }
}

/// Reading back what `git worktree list --porcelain` prints for the main
/// worktree and linked worktrees gives the linked worktrees, in order, each
/// with its branch and path; the main worktree never appears.
pub proof fn law_worktree_listing_round_trip(
    main: (Seq<char>, Seq<char>, Seq<char>),
    linked: Seq<(Seq<char>, Seq<char>, Seq<char>)>,
)
    requires
        plain_field(main.0) && plain_field(main.1) && !main.2.contains('\n'),
        forall|i: int|
            0 <= i < linked.len() ==> plain_field(#[trigger] linked[i].0) && plain_field(
                linked[i].1,
            ) && !linked[i].2.contains('\n'),
    ensures
        worktree_entries(blocks(porcelain_records(seq![main] + linked)).skip(1)) == linked.map_values(
            |r: (Seq<char>, Seq<char>, Seq<char>)| (r.2, r.0),
        ),
{
    let all = seq![main] + linked;
    assert forall|i: int|
        0 <= i < all.len() implies plain_field(#[trigger] all[i].0) && plain_field(all[i].1)
        && !all[i].2.contains('\n') by {
        if i > 0 {
            assert(all[i] == linked[i - 1]);
            assert(plain_field(linked[i - 1].0));
        }
    }
    lemma_record_blocks(all);
    let m = linked.map_values(|r: (Seq<char>, Seq<char>, Seq<char>)| porcelain_record(r.0, r.1, r.2));
    let bs = blocks(porcelain_records(all));
    assert(bs.skip(1) =~= m.push(seq![]));
    assert(m.push(seq![]).drop_last() == m);
    assert(worktree_entry(seq![]) is None) by {
        assert(lines(seq![]) =~= Seq::<Seq<char>>::empty());
    }
    lemma_record_entries(linked);
}

/// The remote branches of lines laid end to end are those of each part, in
/// order: every line is read on its own.
pub proof fn law_remote_branches_append(a: Seq<Seq<char>>, b: Seq<Seq<char>>)
    ensures
        remote_branches(a + b) == remote_branches(a) + remote_branches(b),
    decreases b.len(),
{
    if b.len() == 0 {
        assert(a + b == a);
        assert(remote_branches(b) =~= Seq::<Seq<char>>::empty());
        assert(remote_branches(a) + remote_branches(b) =~= remote_branches(a));
    } else {
        law_remote_branches_append(a, b.drop_last());
        assert((a + b).drop_last() == a + b.drop_last());
        assert((a + b).last() == b.last());
        let t = trim(b.last());
        if is_remote_branch(t) {
            assert(remote_branches(a) + remote_branches(b.drop_last()).push(t) =~= (remote_branches(a)
                + remote_branches(b.drop_last())).push(t));
        }
    }
}

/// One line of the remote listing gives its trimmed text when that is not
/// empty and does not end in `/HEAD`, and nothing otherwise.
pub proof fn law_remote_branches_single(l: Seq<char>)
    ensures
        remote_branches(seq![l]) == if trim(l).len() > 0 && !has_suffix(trim(l), "/HEAD"@) {
            seq![trim(l)]
        } else {
            seq![]
        },
{
    assert(seq![l].drop_last() =~= Seq::<Seq<char>>::empty());
    assert(seq![l].last() == l);
    assert(remote_branches(Seq::<Seq<char>>::empty()) =~= Seq::<Seq<char>>::empty());
}

/// Every line of the remote listing whose trimmed text is a branch name (not
/// empty, not a `/HEAD` pointer) shows up in the result.
pub proof fn law_remote_branches_complete(ls: Seq<Seq<char>>, j: int)
    requires
        0 <= j < ls.len(),
        trim(ls[j]).len() > 0,
        !has_suffix(trim(ls[j]), "/HEAD"@),
    ensures
        remote_branches(ls).contains(trim(ls[j])),
{
    let a = ls.take(j);
    let m = seq![ls[j]];
    let b = ls.skip(j + 1);
    assert(ls == a + m + b);
    law_remote_branches_append(a + m, b);
    law_remote_branches_append(a, m);
    law_remote_branches_single(ls[j]);
    let r = remote_branches(a) + seq![trim(ls[j])] + remote_branches(b);
    assert(r[remote_branches(a).len() as int] == trim(ls[j]));
}

/// The local branches of lines laid end to end are those of each part, in
/// order: every line is read on its own.
pub proof fn law_local_branches_append(a: Seq<Seq<char>>, b: Seq<Seq<char>>)
    ensures
        local_branches(a + b) == local_branches(a) + local_branches(b),
    decreases b.len(),
{
    if b.len() == 0 {
        assert(a + b == a);
        assert(local_branches(b) =~= Seq::<(Seq<char>, bool)>::empty());
        assert(local_branches(a) + local_branches(b) =~= local_branches(a));
    } else {
        law_local_branches_append(a, b.drop_last());
        assert((a + b).drop_last() == a + b.drop_last());
        assert((a + b).last() == b.last());
        if b.last().len() > 0 {
            let e = branch_entry(b.last());
            assert(local_branches(a) + local_branches(b.drop_last()).push(e) =~= (local_branches(a)
                + local_branches(b.drop_last())).push(e));
        }
    }
}

/// One line of the local listing: nothing when empty; a line starting with
/// `*` names the current branch (the rest of the line); any other line names
/// a branch that is not current (the line without leading whitespace).
pub proof fn law_local_branches_single(l: Seq<char>)
    ensures
        local_branches(seq![l]) == if l.len() == 0 {
            seq![]
        } else if l[0] == '*' {
            seq![(l.subrange(1, l.len() as int), true)]
        } else {
            seq![(trim_start(l), false)]
        },
{
    assert(seq![l].drop_last() =~= Seq::<Seq<char>>::empty());
    assert(seq![l].last() == l);
    assert(local_branches(Seq::<Seq<char>>::empty()) =~= Seq::<(Seq<char>, bool)>::empty());
    if l.len() > 0 && l[0] == '*' {
        assert(l.drop_first() == l.subrange(1, l.len() as int));
    }
}

/// A record keeps its worktree when git adds further attribute lines to it
/// (such as `locked` or `prunable ...`): lines that start with neither
/// `worktree ` nor `branch refs/heads/` do not change what is read.
pub proof fn law_worktree_entry_ignores_other_lines(block: Seq<char>, x: Seq<char>)
    requires
        block.len() > 0,
        block.last() != '\n',
        block.last() != '\r',
        !x.contains('\n'),
        !has_prefix(x, "worktree "@),
        !has_prefix(x, "branch refs/heads/"@),
    ensures
        worktree_entry(block + seq!['\n'] + x) == worktree_entry(block),
{
    lemma_lines_newline_end(block);
    crate::text::lemma_lines_append(block + seq!['\n'], x);
    let ls = lines(block);
    if x.len() == 0 {
        assert(lines(x) =~= Seq::<Seq<char>>::empty());
        assert(lines(block + seq!['\n'] + x) =~= ls);
    } else {
        lemma_lines_of_one_line(x);
        let lx = ls + seq![x];
        assert(lines(block + seq!['\n'] + x) == lx);
        assert(lx.drop_last() == ls);
        assert(lx.last() == x);
    }
}

/// A final line ending adds no line to a text that does not end with one.
proof fn lemma_lines_newline_end(b: Seq<char>)
    requires
        b.len() > 0,
        b.last() != '\n',
        b.last() != '\r',
    ensures
        lines(b + seq!['\n']) == lines(b),
    decreases b.len(),
{
    crate::text::lemma_newline_index_facts(b);
    let k = crate::text::newline_index(b) as int;
    let s = b + seq!['\n'];
    if k < b.len() {
        assert forall|j: int| 0 <= j < k implies #[trigger] s[j] != '\n' by {
            assert(s[j] == b[j]);
        }
        crate::text::lemma_newline_index_at(s, k);
        let rest = b.skip(k + 1);
        assert(k < b.len() - 1);
        assert(rest.last() == b.last());
        lemma_lines_newline_end(rest);
        assert(s.take(k) == b.take(k));
        assert(s.skip(k + 1) == rest + seq!['\n']);
    } else {
        assert forall|j: int| 0 <= j < b.len() implies #[trigger] s[j] != '\n' by {
            assert(s[j] == b[j]);
        }
        crate::text::lemma_newline_index_at(s, b.len() as int);
        assert(s.take(b.len() as int) == b);
        assert(s.skip(b.len() + 1 as int) =~= Seq::<char>::empty());
        assert(lines(s.skip(b.len() + 1 as int)) =~= Seq::<Seq<char>>::empty());
        assert(lines(s) =~= seq![b]);
    }
}

} // verus!
