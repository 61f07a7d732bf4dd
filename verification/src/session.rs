//! The interactive session as a state machine: from the session's state and
//! what the outside world answered, the next state and the next thing to do.
//! The caller performs each action (running git, showing the picker, asking a
//! question, printing) and hands back the answer as an [`Event`].

use vstd::prelude::*;
use crate::app::{
    Item, ItemView, build_display_list, can_force_remove_worktree, display_items,
    display_lines, force_would_remove, item_views,
};
use crate::cli::Cli;
use crate::git::{
    branch_pairs, checkout_branch, delete_branch, delete_flag, list_local_branches,
    list_local_branches_args, list_remote_branches, list_remote_branches_args, list_worktrees,
    list_worktrees_args, local_branches, remote_branches, remove_worktree, strings_of,
    worktree_entries, blocks,
};
use crate::text::{
    append_chars, chars_of, has_substring, lines, str_contains, string_from, sub_chars,
};

verus! {

broadcast use vstd::string::group_string_axioms;

/// Something to print before the next action: on standard output (with
/// `print!`) or on standard error (with `eprint!`), newline included.
pub enum Notice {
    Stdout(String),
    Stderr(String),
}

/// The next thing to do.
pub enum Action {
    /// Find out the user's shell and answer with its integration snippet.
    DetectShell,
    /// Answer with the integration snippet of the named shell.
    ParseShell(String),
    /// Run git with these arguments in the current directory.
    RunGit(Vec<String>),
    /// Let the user pick one of these lines.
    Select(Vec<String>),
    /// Let the user pick one of these actions.
    ChooseAction(Vec<String>),
    /// Ask the user this yes/no question (default no).
    Confirm(String),
    /// End the program with this result.
    Exit(Result<(), String>),
}

/// What the caller should do next.
pub struct Command {
    pub notice: Option<Notice>,
    pub action: Action,
}

/// The answer to an action.
pub enum Event {
    /// The shell integration snippet, or why there is none.
    Snippet(Result<String, String>),
    /// git's standard output on success, else its trimmed standard error.
    Git(Result<String, String>),
    /// The picked line's index, none when the user aborted, or an error.
    Selected(Result<Option<usize>, String>),
    /// The picked action's index, none when the user aborted, or an error.
    Chosen(Result<Option<usize>, String>),
    /// The user's answer, or an error.
    Confirmed(Result<bool, String>),
}

/// Where the session stands: which answer it awaits, and what it remembers.
pub enum Phase {
    Shell,
    Branches,
    Worktrees { branches: Vec<(String, bool)> },
    Choosing { items: Vec<Item> },
    Acting { item: Item },
    CheckingOut,
    Deleting { name: String },
    ConfirmForceDelete { name: String },
    ForceDeleting { name: String },
    Removing { name: String, path: String },
    ConfirmForceRemove { name: String, path: String },
    ForceRemoving { name: String, path: String },
    ConfirmAlsoDelete { name: String },
    Done,
}

/// A running session: whether it lists remote branches, and its phase.
pub struct Session {
    pub remote: bool,
    pub phase: Phase,
}

// ---------------------------------------------------------------------------
// Views
// ---------------------------------------------------------------------------

pub enum NoticeView {
    Stdout(Seq<char>),
    Stderr(Seq<char>),
}

pub enum ActionView {
    DetectShell,
    ParseShell(Seq<char>),
    RunGit(Seq<Seq<char>>),
    Select(Seq<Seq<char>>),
    ChooseAction(Seq<Seq<char>>),
    Confirm(Seq<char>),
    Exit(Result<(), Seq<char>>),
}

pub enum EventView {
    Snippet(Result<Seq<char>, Seq<char>>),
    Git(Result<Seq<char>, Seq<char>>),
    Selected(Result<Option<usize>, Seq<char>>),
    Chosen(Result<Option<usize>, Seq<char>>),
    Confirmed(Result<bool, Seq<char>>),
}

pub enum PhaseView {
    Shell,
    Branches,
    Worktrees(Seq<(Seq<char>, bool)>),
    Choosing(Seq<ItemView>),
    Acting(ItemView),
    CheckingOut,
    Deleting(Seq<char>),
    ConfirmForceDelete(Seq<char>),
    ForceDeleting(Seq<char>),
    Removing(Seq<char>, Seq<char>),
    ConfirmForceRemove(Seq<char>, Seq<char>),
    ForceRemoving(Seq<char>, Seq<char>),
    ConfirmAlsoDelete(Seq<char>),
    Done,
}

/// The view of a result whose values are strings.
pub open spec fn result_view<T>(r: Result<T, String>) -> Result<T, Seq<char>> {
    match r {
        Ok(v) => Ok(v),
        Err(e) => Err(e@),
    }
}

/// The view of a string result.
pub open spec fn text_result_view(r: Result<String, String>) -> Result<Seq<char>, Seq<char>> {
    match r {
        Ok(v) => Ok(v@),
        Err(e) => Err(e@),
    }
}

impl View for Notice {
    type V = NoticeView;

    open spec fn view(&self) -> NoticeView {
        match self {
            Notice::Stdout(s) => NoticeView::Stdout(s@),
            Notice::Stderr(s) => NoticeView::Stderr(s@),
        }
    }
}

impl View for Action {
    type V = ActionView;

    open spec fn view(&self) -> ActionView {
        match self {
            Action::DetectShell => ActionView::DetectShell,
            Action::ParseShell(s) => ActionView::ParseShell(s@),
            Action::RunGit(a) => ActionView::RunGit(strings_of(a@)),
            Action::Select(l) => ActionView::Select(strings_of(l@)),
            Action::ChooseAction(l) => ActionView::ChooseAction(strings_of(l@)),
            Action::Confirm(q) => ActionView::Confirm(q@),
            Action::Exit(r) => ActionView::Exit(result_view(*r)),
        }
    }
}

impl View for Event {
    type V = EventView;

    open spec fn view(&self) -> EventView {
        match self {
            Event::Snippet(r) => EventView::Snippet(text_result_view(*r)),
            Event::Git(r) => EventView::Git(text_result_view(*r)),
            Event::Selected(r) => EventView::Selected(result_view(*r)),
            Event::Chosen(r) => EventView::Chosen(result_view(*r)),
            Event::Confirmed(r) => EventView::Confirmed(result_view(*r)),
        }
    }
}

impl View for Phase {
    type V = PhaseView;

    open spec fn view(&self) -> PhaseView {
        match self {
            Phase::Shell => PhaseView::Shell,
            Phase::Branches => PhaseView::Branches,
            Phase::Worktrees { branches } => PhaseView::Worktrees(branch_pairs(branches@)),
            Phase::Choosing { items } => PhaseView::Choosing(item_views(items@)),
            Phase::Acting { item } => PhaseView::Acting(item@),
            Phase::CheckingOut => PhaseView::CheckingOut,
            Phase::Deleting { name } => PhaseView::Deleting(name@),
            Phase::ConfirmForceDelete { name } => PhaseView::ConfirmForceDelete(name@),
            Phase::ForceDeleting { name } => PhaseView::ForceDeleting(name@),
            Phase::Removing { name, path } => PhaseView::Removing(name@, path@),
            Phase::ConfirmForceRemove { name, path } => PhaseView::ConfirmForceRemove(name@, path@),
            Phase::ForceRemoving { name, path } => PhaseView::ForceRemoving(name@, path@),
            Phase::ConfirmAlsoDelete { name } => PhaseView::ConfirmAlsoDelete(name@),
            Phase::Done => PhaseView::Done,
        }
    }
}

/// The view of an optional notice.
pub open spec fn notice_view(n: Option<Notice>) -> Option<NoticeView> {
    match n {
        Some(x) => Some(x@),
        None => None,
    }
}

/// The view of a step's outcome: the new phase, the notice and the action.
pub type StepView = (PhaseView, Option<NoticeView>, ActionView);

// ---------------------------------------------------------------------------
// The rules
// ---------------------------------------------------------------------------

/// The git arguments that list the branches the session shows.
pub open spec fn listing_args(remote: bool) -> Seq<Seq<char>> {
    if remote {
        seq!["branch"@, "-r"@, "--format=%(refname:short)"@]
    } else {
        seq!["branch"@, "--format=%(HEAD)%(refname:short)"@]
    }
}

/// The git arguments of `git branch -d/-D <name>`.
pub open spec fn delete_args(name: Seq<char>, force: bool) -> Seq<Seq<char>> {
    seq!["branch"@, delete_flag(force), name]
}

/// The git arguments of `git worktree remove [--force] <path>`.
pub open spec fn remove_args(path: Seq<char>, force: bool) -> Seq<Seq<char>> {
    if force {
        seq!["worktree"@, "remove"@, "--force"@, path]
    } else {
        seq!["worktree"@, "remove"@, path]
    }
}

/// The git arguments of `git checkout <target>`.
pub open spec fn checkout_args(target: Seq<char>) -> Seq<Seq<char>> {
    seq!["checkout"@, target]
}

/// The actions offered for a picked branch or worktree.
pub open spec fn action_labels() -> Seq<Seq<char>> {
    seq!["Checkout / cd"@, "Delete"@, "Cancel"@]
}

/// Back to the start of the loop: list the branches again.
pub open spec fn restart(remote: bool, notice: Option<NoticeView>) -> StepView {
    (PhaseView::Branches, notice, ActionView::RunGit(listing_args(remote)))
}

/// End the program successfully.
pub open spec fn finish(notice: Option<NoticeView>) -> StepView {
    (PhaseView::Done, notice, ActionView::Exit(Ok(())))
}

/// End the program with an error.
pub open spec fn abort(message: Seq<char>) -> StepView {
    (PhaseView::Done, None, ActionView::Exit(Err(message)))
}

/// The branches a listing shows: the remote ones (never marked current) or
/// the local ones.
pub open spec fn listed_branches(remote: bool, output: Seq<char>) -> Seq<(Seq<char>, bool)> {
    if remote {
        remote_branches(lines(output)).map_values(|n: Seq<char>| (n, false))
    } else {
        local_branches(lines(output))
    }
}

/// The index of the first `/` in `s`, or `s.len()` when there is none.
pub open spec fn slash_index(s: Seq<char>) -> nat
    decreases s.len(),
{
    if s.len() == 0 {
        0
    } else if s[0] == '/' {
        0
    } else {
        1 + slash_index(s.drop_first())
    }
}

/// The branch to check out for a listed name: a remote branch `origin/x`
/// becomes `x` (everything after the first `/`); a local name stays.
pub open spec fn checkout_target(remote: bool, name: Seq<char>) -> Seq<char> {
    let k = slash_index(name);
    if remote && k < name.len() {
        name.skip(k + 1 as int)
    } else {
        name
    }
}

/// How the session begins.
pub open spec fn start_step(init: Option<Seq<char>>, remote: bool) -> StepView {
    match init {
        Some(shell) => (
            PhaseView::Shell,
            None,
            if shell == "auto"@ {
                ActionView::DetectShell
            } else {
                ActionView::ParseShell(shell)
            },
        ),
        None => restart(remote, None),
    }
}

/// Whether the session in `phase` can take `event`: the event answers the
/// action the session asked for, a picked line exists, and a picked action is
/// one of the three offered.
pub open spec fn accepts(phase: PhaseView, event: EventView) -> bool {
    match (phase, event) {
        (PhaseView::Shell, EventView::Snippet(_)) => true,
        (PhaseView::Branches, EventView::Git(_)) => true,
        (PhaseView::Worktrees(_), EventView::Git(_)) => true,
        (PhaseView::Choosing(items), EventView::Selected(r)) => match r {
            Ok(Some(i)) => i < items.len(),
            _ => true,
        },
        (PhaseView::Acting(item), EventView::Chosen(r)) => !(item is Header) && match r {
            Ok(Some(k)) => k <= 2,
            _ => true,
        },
        (PhaseView::CheckingOut, EventView::Git(_)) => true,
        (PhaseView::Deleting(_), EventView::Git(_)) => true,
        (PhaseView::ConfirmForceDelete(_), EventView::Confirmed(_)) => true,
        (PhaseView::ForceDeleting(_), EventView::Git(_)) => true,
        (PhaseView::Removing(_, _), EventView::Git(_)) => true,
        (PhaseView::ConfirmForceRemove(_, _), EventView::Confirmed(_)) => true,
        (PhaseView::ForceRemoving(_, _), EventView::Git(_)) => true,
        (PhaseView::ConfirmAlsoDelete(_), EventView::Confirmed(_)) => true,
        _ => false,
    }
}

/// The question asked when a branch is not fully merged.
pub open spec fn force_delete_question(name: Seq<char>) -> Seq<char> {
    "Branch '"@ + name + "' is not fully merged. Force delete?"@
}

/// The question asked when a worktree has changes.
pub open spec fn force_remove_question(path: Seq<char>) -> Seq<char> {
    "Worktree '"@ + path + "' has uncommitted changes. Force delete?"@
}

/// The question asked after a worktree is removed.
pub open spec fn also_delete_question(name: Seq<char>) -> Seq<char> {
    "Also delete branch '"@ + name + "'?"@
}

/// One step of the session.
pub open spec fn transition(remote: bool, phase: PhaseView, event: EventView) -> StepView {
    match (phase, event) {
        (PhaseView::Shell, EventView::Snippet(r)) => match r {
            Ok(s) => finish(Some(NoticeView::Stdout(s))),
            Err(m) => abort(m),
        },
        (PhaseView::Branches, EventView::Git(r)) => match r {
            Ok(out) => (
                PhaseView::Worktrees(listed_branches(remote, out)),
                None,
                ActionView::RunGit(seq!["worktree"@, "list"@, "--porcelain"@]),
            ),
            Err(m) => abort(m),
        },
        (PhaseView::Worktrees(bs), EventView::Git(r)) => match r {
            Ok(out) => {
                let wts = worktree_entries(blocks(out).skip(1));
                if bs.len() == 0 && wts.len() == 0 {
                    finish(Some(NoticeView::Stderr("No branches or worktrees found.\n"@)))
                } else {
                    (
                        PhaseView::Choosing(display_items(bs, wts)),
                        None,
                        ActionView::Select(display_lines(bs, wts)),
                    )
                }
            },
            Err(m) => abort(m),
        },
        (PhaseView::Choosing(items), EventView::Selected(r)) => match r {
            Ok(Some(i)) => if items[i as int] is Header {
                restart(remote, None)
            } else {
                (PhaseView::Acting(items[i as int]), None, ActionView::ChooseAction(action_labels()))
            },
            Ok(None) => finish(None),
            Err(m) => abort(m),
        },
        (PhaseView::Acting(item), EventView::Chosen(r)) => match r {
            Ok(Some(0)) => match item {
                ItemView::Branch(name, _) => (
                    PhaseView::CheckingOut,
                    None,
                    ActionView::RunGit(checkout_args(checkout_target(remote, name))),
                ),
                ItemView::Worktree(_, path) => finish(Some(NoticeView::Stdout(path + "\n"@))),
                ItemView::Header => restart(remote, None),
            },
            Ok(Some(1)) => match item {
                ItemView::Branch(name, is_current) => if is_current {
                    restart(
                        remote,
                        Some(
                            NoticeView::Stderr(
                                "Cannot delete the current branch '"@ + name
                                    + "'. Switch to another branch first.\n"@,
                            ),
                        ),
                    )
                } else {
                    (PhaseView::Deleting(name), None, ActionView::RunGit(delete_args(name, false)))
                },
                ItemView::Worktree(name, path) => (
                    PhaseView::Removing(name, path),
                    None,
                    ActionView::RunGit(remove_args(path, false)),
                ),
                ItemView::Header => restart(remote, None),
            },
            Ok(_) => restart(remote, None),
            Err(m) => abort(m),
        },
        (PhaseView::CheckingOut, EventView::Git(r)) => match r {
            Ok(_) => finish(None),
            Err(m) => abort(m),
        },
        (PhaseView::Deleting(name), EventView::Git(r)) => match r {
            Ok(_) => restart(remote, Some(NoticeView::Stderr("Deleted branch: "@ + name + "\n"@))),
            Err(m) => if has_substring(m, "not fully merged"@) {
                (
                    PhaseView::ConfirmForceDelete(name),
                    None,
                    ActionView::Confirm(force_delete_question(name)),
                )
            } else {
                restart(remote, Some(NoticeView::Stderr("Error deleting branch: "@ + m + "\n"@)))
            },
        },
        (PhaseView::ConfirmForceDelete(name), EventView::Confirmed(r)) => match r {
            Ok(true) => (
                PhaseView::ForceDeleting(name),
                None,
                ActionView::RunGit(delete_args(name, true)),
            ),
            Ok(false) => restart(remote, None),
            Err(m) => abort(m),
        },
        (PhaseView::ForceDeleting(name), EventView::Git(r)) => match r {
            Ok(_) => restart(
                remote,
                Some(NoticeView::Stderr("Force deleted branch: "@ + name + "\n"@)),
            ),
            Err(m) => abort(m),
        },
        (PhaseView::Removing(name, path), EventView::Git(r)) => match r {
            Ok(_) => (
                PhaseView::ConfirmAlsoDelete(name),
                Some(NoticeView::Stderr("Removed worktree: "@ + path + "\n"@)),
                ActionView::Confirm(also_delete_question(name)),
            ),
            Err(m) => if force_would_remove(m) {
                (
                    PhaseView::ConfirmForceRemove(name, path),
                    None,
                    ActionView::Confirm(force_remove_question(path)),
                )
            } else {
                restart(remote, Some(NoticeView::Stderr("Error removing worktree: "@ + m + "\n"@)))
            },
        },
        (PhaseView::ConfirmForceRemove(name, path), EventView::Confirmed(r)) => match r {
            Ok(true) => (
                PhaseView::ForceRemoving(name, path),
                None,
                ActionView::RunGit(remove_args(path, true)),
            ),
            Ok(false) => restart(remote, None),
            Err(m) => abort(m),
        },
        (PhaseView::ForceRemoving(name, path), EventView::Git(r)) => match r {
            Ok(_) => (
                PhaseView::ConfirmAlsoDelete(name),
                Some(NoticeView::Stderr("Force removed worktree: "@ + path + "\n"@)),
                ActionView::Confirm(also_delete_question(name)),
            ),
            Err(m) => abort(m),
        },
        (PhaseView::ConfirmAlsoDelete(name), EventView::Confirmed(r)) => match r {
            Ok(true) => (PhaseView::Deleting(name), None, ActionView::RunGit(delete_args(name, false))),
            Ok(false) => restart(remote, None),
            Err(m) => abort(m),
        },
        _ => finish(None),
    }
}

// ---------------------------------------------------------------------------
// The machine
// ---------------------------------------------------------------------------

fn text3(a: &str, b: &Vec<char>, c: &str) -> (r: String)
    ensures
        r@ == a@ + b@ + c@,
{
    let mut s = string_from(a);
    append_chars(&mut s, b);
    append_chars(&mut s, &chars_of(c));
    s
}

fn notice_stderr(a: &str, b: &String, c: &str) -> (r: Option<Notice>)
    ensures
        notice_view(r) == Some(NoticeView::Stderr(a@ + b@ + c@)),
{
    Some(Notice::Stderr(text3(a, &chars_of(b.as_str()), c)))
}

fn listing_command(remote: bool) -> (r: Vec<String>)
    ensures
        strings_of(r@) == listing_args(remote),
{
    if remote {
        list_remote_branches_args()
    } else {
        list_local_branches_args()
    }
}

fn restart_step(remote: bool, notice: Option<Notice>) -> (r: (Phase, Command))
    ensures
        (r.0@, notice_view(r.1.notice), r.1.action@) == restart(remote, notice_view(notice)),
{
    (Phase::Branches, Command { notice, action: Action::RunGit(listing_command(remote)) })
}

fn finish_step(notice: Option<Notice>) -> (r: (Phase, Command))
    ensures
        (r.0@, notice_view(r.1.notice), r.1.action@) == finish(notice_view(notice)),
{
    (Phase::Done, Command { notice, action: Action::Exit(Ok(())) })
}

fn abort_step(message: String) -> (r: (Phase, Command))
    ensures
        (r.0@, notice_view(r.1.notice), r.1.action@) == abort(message@),
{
    (Phase::Done, Command { notice: None, action: Action::Exit(Err(message)) })
}

fn confirm_step(phase: Phase, notice: Option<Notice>, question: String) -> (r: (Phase, Command))
    ensures
        r.0@ == phase@,
        notice_view(r.1.notice) == notice_view(notice),
        r.1.action@ == ActionView::Confirm(question@),
{
    (phase, Command { notice, action: Action::Confirm(question) })
}

fn git_step(phase: Phase, args: Vec<String>) -> (r: (Phase, Command))
    ensures
        r.0@ == phase@,
        notice_view(r.1.notice) == None::<NoticeView>,
        r.1.action@ == ActionView::RunGit(strings_of(args@)),
{
    (phase, Command { notice: None, action: Action::RunGit(args) })
}

/// The branches shown for a listing's output (see [`listed_branches`]).
fn listed_branches_exec(remote: bool, output: &str) -> (r: Vec<(String, bool)>)
    ensures
        branch_pairs(r@) == listed_branches(remote, output@),
{
    if remote {
        let names = list_remote_branches(output);
        let ghost nv = strings_of(names@);
        let mut r: Vec<(String, bool)> = Vec::new();
        for i in 0..names.len()
            invariant
                nv == strings_of(names@),
                r@.len() == i,
                forall|k: int| 0 <= k < i ==> #[trigger] branch_pairs(r@)[k] == (nv[k], false),
        {
            let ghost old_r = r@;
            let n = names[i].clone();
            r.push((n, false));
            assert forall|k: int| 0 <= k < i + 1 implies #[trigger] branch_pairs(r@)[k] == (
            nv[k], false) by {
                if k < i {
                    assert(branch_pairs(r@)[k] == branch_pairs(old_r)[k]);
                }
            }
        }
        assert(branch_pairs(r@) =~= nv.map_values(|n: Seq<char>| (n, false)));
        r
    } else {
        list_local_branches(output)
    }
}

fn copy_branches(v: &Vec<(String, bool)>) -> (r: Vec<(String, bool)>)
    ensures
        branch_pairs(r@) == branch_pairs(v@),
{
    let mut r: Vec<(String, bool)> = Vec::new();
    for i in 0..v.len()
        invariant
            r@.len() == i,
            forall|k: int| 0 <= k < i ==> #[trigger] branch_pairs(r@)[k] == branch_pairs(v@)[k],
    {
        let ghost old_r = r@;
        let n = v[i].0.clone();
        r.push((n, v[i].1));
        assert forall|k: int| 0 <= k < i + 1 implies #[trigger] branch_pairs(r@)[k]
            == branch_pairs(v@)[k] by {
            if k < i {
                assert(branch_pairs(r@)[k] == branch_pairs(old_r)[k]);
            }
        }
    }
    assert(branch_pairs(r@) =~= branch_pairs(v@));
    r
}

/// The branch to check out for a listed name (see [`checkout_target`]).
fn checkout_target_exec(remote: bool, name: &String) -> (r: String)
    ensures
        r@ == checkout_target(remote, name@),
{
    let v = chars_of(name.as_str());
    let mut k: usize = 0;
    while k < v.len() && v[k] != '/'
        invariant
            k <= v.len(),
            forall|j: int| 0 <= j < k ==> #[trigger] v@[j] != '/',
        decreases v.len() - k,
    {
        k = k + 1;
    }
    proof {
        lemma_slash_index(v@, k as int);
    }
    if remote && k < v.len() {
        let rest = sub_chars(&v, k + 1, v.len());
        assert(rest@ == v@.skip(k + 1));
        crate::text::string_of(&rest)
    } else {
        name.clone()
    }
}

proof fn lemma_slash_index(s: Seq<char>, k: int)
    requires
        0 <= k <= s.len(),
        forall|j: int| 0 <= j < k ==> #[trigger] s[j] != '/',
        k == s.len() || s[k] == '/',
    ensures
        slash_index(s) == k,
    decreases k,
{
    if k > 0 {
        lemma_slash_index(s.drop_first(), k - 1);
    }
}

impl Session {
    /// Starts a session for the command line: with `--init`, the shell
    /// snippet is looked up (the shell detected for `auto`); otherwise the
    /// branches are listed.
    pub fn start(cli: &Cli) -> (r: (Session, Command))
        ensures
            r.0.remote == cli.remote,
            (r.0.phase@, notice_view(r.1.notice), r.1.action@) == start_step(
                match cli.init {
                    Some(s) => Some(s@),
                    None => None,
                },
                cli.remote,
            ),
    {
        match &cli.init {
            Some(shell) => {
                let auto = crate::text::chars_eq(&chars_of(shell.as_str()), &chars_of("auto"));
                let action = if auto {
                    Action::DetectShell
                } else {
                    Action::ParseShell(shell.clone())
                };
                (Session { remote: cli.remote, phase: Phase::Shell }, Command { notice: None, action })
            },
            None => {
                let (phase, cmd) = restart_step(cli.remote, None);
                (Session { remote: cli.remote, phase }, cmd)
            },
        }
    }

    /// Whether the session can take `event` now (see [`accepts`]).
    pub fn accepts_event(&self, event: &Event) -> (r: bool)
        ensures
            r == accepts(self.phase@, event@),
    {
        match (&self.phase, event) {
            (Phase::Shell, Event::Snippet(_)) => true,
            (Phase::Branches, Event::Git(_)) => true,
            (Phase::Worktrees { .. }, Event::Git(_)) => true,
            (Phase::Choosing { items }, Event::Selected(r)) => match r {
                Ok(Some(i)) => *i < items.len(),
                _ => true,
            },
            (Phase::Acting { item }, Event::Chosen(r)) => {
                let not_header = match item {
                    Item::Header => false,
                    _ => true,
                };
                not_header && match r {
                    Ok(Some(k)) => *k <= 2,
                    _ => true,
                }
            },
            (Phase::CheckingOut, Event::Git(_)) => true,
            (Phase::Deleting { .. }, Event::Git(_)) => true,
            (Phase::ConfirmForceDelete { .. }, Event::Confirmed(_)) => true,
            (Phase::ForceDeleting { .. }, Event::Git(_)) => true,
            (Phase::Removing { .. }, Event::Git(_)) => true,
            (Phase::ConfirmForceRemove { .. }, Event::Confirmed(_)) => true,
            (Phase::ForceRemoving { .. }, Event::Git(_)) => true,
            (Phase::ConfirmAlsoDelete { .. }, Event::Confirmed(_)) => true,
            _ => false,
        }
    }

    /// Takes the answer to the last action and gives the next one.
    pub fn advance(&mut self, event: Event) -> (c: Command)
        requires
            accepts(old(self).phase@, event@),
        ensures
            final(self).remote == old(self).remote,
            (final(self).phase@, notice_view(c.notice), c.action@) == transition(
                old(self).remote,
                old(self).phase@,
                event@,
            ),
    {
        let (phase, cmd) = step(self.remote, &self.phase, event);
        self.phase = phase;
        cmd
    }
}

fn step(remote: bool, phase: &Phase, event: Event) -> (r: (Phase, Command))
    requires
        accepts(phase@, event@),
    ensures
        (r.0@, notice_view(r.1.notice), r.1.action@) == transition(remote, phase@, event@),
{
    match phase {
        Phase::Shell => match event {
            Event::Snippet(Ok(s)) => finish_step(Some(Notice::Stdout(s))),
            Event::Snippet(Err(m)) => abort_step(m),
            _ => finish_step(None),
        },
        Phase::Branches => match event {
            Event::Git(Ok(out)) => {
                let branches = listed_branches_exec(remote, out.as_str());
                git_step(Phase::Worktrees { branches }, list_worktrees_args())
            },
            Event::Git(Err(m)) => abort_step(m),
            _ => finish_step(None),
        },
        Phase::Worktrees { branches } => match event {
            Event::Git(Ok(out)) => {
                let wts = list_worktrees(out.as_str());
                if branches.len() == 0 && wts.len() == 0 {
                    finish_step(Some(Notice::Stderr(string_from("No branches or worktrees found.\n"))))
                } else {
                    let dl = build_display_list(copy_branches(branches), wts);
                    (Phase::Choosing { items: dl.items }, Command { notice: None, action: Action::Select(dl.display) })
                }
            },
            Event::Git(Err(m)) => abort_step(m),
            _ => finish_step(None),
        },
        Phase::Choosing { items } => match event {
            Event::Selected(Ok(Some(i))) => {
                assert(item_views(items@)[i as int] == items@[i as int]@);
                let is_header = match &items[i] {
                    Item::Header => true,
                    _ => false,
                };
                if is_header {
                    restart_step(remote, None)
                } else {
                    let item = items[i].duplicate();
                    let labels = vec![string_from("Checkout / cd"), string_from("Delete"), string_from("Cancel")];
                    assert(strings_of(labels@) =~= action_labels());
                    (Phase::Acting { item }, Command { notice: None, action: Action::ChooseAction(labels) })
                }
            },
            Event::Selected(Ok(None)) => finish_step(None),
            Event::Selected(Err(m)) => abort_step(m),
            _ => finish_step(None),
        },
        Phase::Acting { item } => match event {
            Event::Chosen(Ok(Some(k))) => {
                if k == 0 {
                    match item {
                        Item::Branch { name, .. } => {
                            let target = checkout_target_exec(remote, name);
                            git_step(Phase::CheckingOut, checkout_branch(target.as_str()))
                        },
                        Item::Worktree { path, .. } => {
                            let line = text3("", &chars_of(path.as_str()), "\n");
                            proof {
                                reveal_strlit("");
                                assert(""@ + path@ == path@);
                            }
                            finish_step(Some(Notice::Stdout(line)))
                        },
                        Item::Header => restart_step(remote, None),
                    }
                } else if k == 1 {
                    match item {
                        Item::Branch { name, is_current } => {
                            if *is_current {
                                let n = notice_stderr(
                                    "Cannot delete the current branch '",
                                    name,
                                    "'. Switch to another branch first.\n",
                                );
                                restart_step(remote, n)
                            } else {
                                git_step(Phase::Deleting { name: name.clone() }, delete_branch(name.as_str(), false))
                            }
                        },
                        Item::Worktree { name, path } => {
                            git_step(
                                Phase::Removing { name: name.clone(), path: path.clone() },
                                remove_worktree(path.as_str(), false),
                            )
                        },
                        Item::Header => restart_step(remote, None),
                    }
                } else {
                    restart_step(remote, None)
                }
            },
            Event::Chosen(Ok(None)) => restart_step(remote, None),
            Event::Chosen(Err(m)) => abort_step(m),
            _ => finish_step(None),
        },
        Phase::CheckingOut => match event {
            Event::Git(Ok(_)) => finish_step(None),
            Event::Git(Err(m)) => abort_step(m),
            _ => finish_step(None),
        },
        Phase::Deleting { name } => match event {
            Event::Git(Ok(_)) => restart_step(remote, notice_stderr("Deleted branch: ", name, "\n")),
            Event::Git(Err(m)) => {
                if str_contains(m.as_str(), "not fully merged") {
                    confirm_step(
                        Phase::ConfirmForceDelete { name: name.clone() },
                        None,
                        text3("Branch '", &chars_of(name.as_str()), "' is not fully merged. Force delete?"),
                    )
                } else {
                    restart_step(remote, notice_stderr("Error deleting branch: ", &m, "\n"))
                }
            },
            _ => finish_step(None),
        },
        Phase::ConfirmForceDelete { name } => match event {
            Event::Confirmed(Ok(true)) => git_step(
                Phase::ForceDeleting { name: name.clone() },
                delete_branch(name.as_str(), true),
            ),
            Event::Confirmed(Ok(false)) => restart_step(remote, None),
            Event::Confirmed(Err(m)) => abort_step(m),
            _ => finish_step(None),
        },
        Phase::ForceDeleting { name } => match event {
            Event::Git(Ok(_)) => restart_step(remote, notice_stderr("Force deleted branch: ", name, "\n")),
            Event::Git(Err(m)) => abort_step(m),
            _ => finish_step(None),
        },
        Phase::Removing { name, path } => match event {
            Event::Git(Ok(_)) => confirm_step(
                Phase::ConfirmAlsoDelete { name: name.clone() },
                notice_stderr("Removed worktree: ", path, "\n"),
                text3("Also delete branch '", &chars_of(name.as_str()), "'?"),
            ),
            Event::Git(Err(m)) => {
                if can_force_remove_worktree(m.as_str()) {
                    confirm_step(
                        Phase::ConfirmForceRemove { name: name.clone(), path: path.clone() },
                        None,
                        text3("Worktree '", &chars_of(path.as_str()), "' has uncommitted changes. Force delete?"),
                    )
                } else {
                    restart_step(remote, notice_stderr("Error removing worktree: ", &m, "\n"))
                }
            },
            _ => finish_step(None),
        },
        Phase::ConfirmForceRemove { name, path } => match event {
            Event::Confirmed(Ok(true)) => git_step(
                Phase::ForceRemoving { name: name.clone(), path: path.clone() },
                remove_worktree(path.as_str(), true),
            ),
            Event::Confirmed(Ok(false)) => restart_step(remote, None),
            Event::Confirmed(Err(m)) => abort_step(m),
            _ => finish_step(None),
        },
        Phase::ForceRemoving { name, path } => match event {
            Event::Git(Ok(_)) => confirm_step(
                Phase::ConfirmAlsoDelete { name: name.clone() },
                notice_stderr("Force removed worktree: ", path, "\n"),
                text3("Also delete branch '", &chars_of(name.as_str()), "'?"),
            ),
            Event::Git(Err(m)) => abort_step(m),
            _ => finish_step(None),
        },
        Phase::ConfirmAlsoDelete { name } => match event {
            Event::Confirmed(Ok(true)) => git_step(
                Phase::Deleting { name: name.clone() },
                delete_branch(name.as_str(), false),
            ),
            Event::Confirmed(Ok(false)) => restart_step(remote, None),
            Event::Confirmed(Err(m)) => abort_step(m),
            _ => finish_step(None),
        },
        Phase::Done => finish_step(None),
    }
}

// ---------------------------------------------------------------------------
// Laws of the session
// ---------------------------------------------------------------------------

/// The error an event carries, if any.
pub open spec fn event_error(e: EventView) -> Option<Seq<char>> {
    match e {
        EventView::Snippet(Err(m)) => Some(m),
        EventView::Git(Err(m)) => Some(m),
        EventView::Selected(Err(m)) => Some(m),
        EventView::Chosen(Err(m)) => Some(m),
        EventView::Confirmed(Err(m)) => Some(m),
        _ => None,
    }
}

/// The current branch is never deleted from the picker: choosing "Delete" on
/// it only prints a notice and goes back to the list.
pub proof fn law_current_branch_is_not_deleted(remote: bool, name: Seq<char>)
    ensures
        transition(
            remote,
            PhaseView::Acting(ItemView::Branch(name, true)),
            EventView::Chosen(Ok(Some(1))),
        ) == restart(
            remote,
            Some(
                NoticeView::Stderr(
                    "Cannot delete the current branch '"@ + name
                        + "'. Switch to another branch first.\n"@,
                ),
            ),
        ),
{
}

/// A plain `git branch -d` is only run for a branch picked while not current,
/// or for the branch of a removed worktree once the user agreed.
pub proof fn law_plain_delete_origin(remote: bool, p: PhaseView, e: EventView, name: Seq<char>)
    requires
        accepts(p, e),
        transition(remote, p, e).2 == ActionView::RunGit(delete_args(name, false)),
    ensures
        (p == PhaseView::Acting(ItemView::Branch(name, false)) && e == EventView::Chosen(
            Ok(Some(1)),
        )) || (p == PhaseView::ConfirmAlsoDelete(name) && e == EventView::Confirmed(Ok(true))),
{
    distinct_git_commands(remote);
}

/// Facts that tell the git commands of the session apart.
proof fn distinct_git_commands(remote: bool)
    ensures
        forall|n: Seq<char>, f: bool| #[trigger] delete_args(n, f) != listing_args(remote),
        forall|n: Seq<char>, m: Seq<char>| #[trigger] delete_args(n, false) != #[trigger] delete_args(m, true),
        forall|n: Seq<char>, t: Seq<char>, f: bool, g: bool| #[trigger] delete_args(n, f) != #[trigger] remove_args(t, g),
        forall|n: Seq<char>, t: Seq<char>, f: bool| #[trigger] delete_args(n, f) != #[trigger] checkout_args(t),
        forall|t: Seq<char>, u: Seq<char>| #[trigger] remove_args(t, false) != #[trigger] remove_args(u, true),
        forall|n: Seq<char>, f: bool| #[trigger] delete_args(n, f) != seq!["worktree"@, "list"@, "--porcelain"@],
        forall|t: Seq<char>| #[trigger] remove_args(t, true) != seq!["worktree"@, "list"@, "--porcelain"@],
        forall|t: Seq<char>| #[trigger] remove_args(t, true) != listing_args(remote),
        forall|t: Seq<char>, u: Seq<char>| #[trigger] remove_args(t, true) != #[trigger] checkout_args(u),
{
    reveal_strlit("branch");
    reveal_strlit("-r");
    reveal_strlit("-d");
    reveal_strlit("-D");
    reveal_strlit("checkout");
    reveal_strlit("worktree");
    reveal_strlit("remove");
    reveal_strlit("--force");
    reveal_strlit("list");
    let l = listing_args(remote);
    let wl = seq!["worktree"@, "list"@, "--porcelain"@];
    assert forall|n: Seq<char>, f: bool| #[trigger] delete_args(n, f) != l by {
        if remote {
            assert(l[1][1] != delete_args(n, f)[1][1]);
        } else {
            assert(l.len() != delete_args(n, f).len());
        }
    }
    assert forall|n: Seq<char>, m: Seq<char>| #[trigger] delete_args(n, false) != #[trigger] delete_args(m, true) by {
        assert(delete_args(n, false)[1][1] != delete_args(m, true)[1][1]);
    }
    assert forall|n: Seq<char>, t: Seq<char>, f: bool, g: bool| #[trigger] delete_args(n, f) != #[trigger] remove_args(t, g) by {
        assert(delete_args(n, f)[0][0] != remove_args(t, g)[0][0]);
    }
    assert forall|n: Seq<char>, t: Seq<char>, f: bool| #[trigger] delete_args(n, f) != #[trigger] checkout_args(t) by {
        assert(delete_args(n, f).len() != checkout_args(t).len());
    }
    assert forall|t: Seq<char>, u: Seq<char>| #[trigger] remove_args(t, false) != #[trigger] remove_args(u, true) by {
        assert(remove_args(t, false).len() != remove_args(u, true).len());
    }
    assert forall|n: Seq<char>, f: bool| #[trigger] delete_args(n, f) != wl by {
        assert(delete_args(n, f)[0][0] != wl[0][0]);
    }
    assert forall|t: Seq<char>| #[trigger] remove_args(t, true) != wl by {
        assert(remove_args(t, true).len() != wl.len());
    }
    assert forall|t: Seq<char>| #[trigger] remove_args(t, true) != l by {
        assert(remove_args(t, true)[0][0] != l[0][0]);
    }
    assert forall|t: Seq<char>, u: Seq<char>| #[trigger] remove_args(t, true) != #[trigger] checkout_args(u) by {
        assert(remove_args(t, true).len() != checkout_args(u).len());
    }
}

/// `git branch -D` runs only right after the user agreed to force the
/// deletion of that very branch.
pub proof fn law_force_delete_needs_consent(remote: bool, p: PhaseView, e: EventView, name: Seq<char>)
    requires
        accepts(p, e),
        transition(remote, p, e).2 == ActionView::RunGit(delete_args(name, true)),
    ensures
        p == PhaseView::ConfirmForceDelete(name),
        e == EventView::Confirmed(Ok(true)),
{
    distinct_git_commands(remote);
    match (p, e) {
        (PhaseView::ConfirmForceDelete(n), EventView::Confirmed(Ok(true))) => {
            assert(delete_args(n, true)[2] == delete_args(name, true)[2]);
        },
        _ => {},
    }
}

/// The user is asked to force a deletion only after a plain deletion of that
/// branch failed with git saying it is not fully merged.
pub proof fn law_force_delete_asked_after_unmerged(
    remote: bool,
    p: PhaseView,
    e: EventView,
    name: Seq<char>,
)
    requires
        accepts(p, e),
        transition(remote, p, e).0 == PhaseView::ConfirmForceDelete(name),
    ensures
        p == PhaseView::Deleting(name),
        e matches EventView::Git(Err(m)) && has_substring(m, "not fully merged"@),
{
}

/// `git worktree remove --force` runs only right after the user agreed to
/// force the removal of that very worktree.
pub proof fn law_force_remove_needs_consent(remote: bool, p: PhaseView, e: EventView, path: Seq<char>)
    requires
        accepts(p, e),
        transition(remote, p, e).2 == ActionView::RunGit(remove_args(path, true)),
    ensures
        exists|name: Seq<char>| p == PhaseView::ConfirmForceRemove(name, path),
        e == EventView::Confirmed(Ok(true)),
{
    distinct_git_commands(remote);
    match (p, e) {
        (PhaseView::ConfirmForceRemove(name, q), EventView::Confirmed(Ok(true))) => {
            assert(remove_args(q, true)[3] == remove_args(path, true)[3]);
            assert(p == PhaseView::ConfirmForceRemove(name, path));
        },
        _ => {},
    }
}

/// The user is asked to force a removal only after a plain removal of that
/// worktree failed with an error that `--force` overcomes.
pub proof fn law_force_remove_asked_after_changes(
    remote: bool,
    p: PhaseView,
    e: EventView,
    name: Seq<char>,
    path: Seq<char>,
)
    requires
        accepts(p, e),
        transition(remote, p, e).0 == PhaseView::ConfirmForceRemove(name, path),
    ensures
        p == PhaseView::Removing(name, path),
        e matches EventView::Git(Err(m)) && force_would_remove(m),
{
}

/// Picking a header does nothing but show the list again.
pub proof fn law_header_pick_is_inert(remote: bool, items: Seq<ItemView>, i: usize)
    requires
        i < items.len(),
        items[i as int] is Header,
    ensures
        transition(remote, PhaseView::Choosing(items), EventView::Selected(Ok(Some(i))))
            == restart(remote, None),
{
}

/// Cancelling the action menu (escape or "Cancel") shows the list again.
pub proof fn law_cancel_returns_to_list(remote: bool, item: ItemView)
    ensures
        transition(remote, PhaseView::Acting(item), EventView::Chosen(Ok(None))) == restart(
            remote,
            None,
        ),
        transition(remote, PhaseView::Acting(item), EventView::Chosen(Ok(Some(2)))) == restart(
            remote,
            None,
        ),
{
}

/// An error from git, the picker or a prompt ends the session with that
/// error, except a failed deletion or removal, which is reported and the
/// list shown again (or a forced retry offered).
pub proof fn law_errors_end_the_session(remote: bool, p: PhaseView, e: EventView, m: Seq<char>)
    requires
        accepts(p, e),
        event_error(e) == Some(m),
        !(p is Deleting),
        !(p is Removing),
    ensures
        transition(remote, p, e) == abort(m),
{
}

/// The session asks to exit exactly when it reaches its end, and then takes
/// no further answer.
pub proof fn law_exit_exactly_at_the_end(remote: bool, p: PhaseView, e: EventView)
    requires
        accepts(p, e),
    ensures
        (transition(remote, p, e).2 is Exit) == (transition(remote, p, e).0 is Done),
        forall|e2: EventView| !accepts(PhaseView::Done, e2),
{
}

/// Every line the picker shows has an entry behind it, so any line the user
/// picks is an answer the session takes.
pub proof fn law_every_shown_line_can_be_picked(
    remote: bool,
    p: PhaseView,
    e: EventView,
    i: usize,
)
    requires
        accepts(p, e),
        transition(remote, p, e).2 matches ActionView::Select(ls) && i < ls.len(),
    ensures
        accepts(transition(remote, p, e).0, EventView::Selected(Ok(Some(i)))),
{
    match (p, e) {
        (PhaseView::Worktrees(bs), EventView::Git(Ok(out))) => {
            crate::app::law_items_match_lines(bs, worktree_entries(blocks(out).skip(1)));
        },
        _ => {},
    }
}

/// Checking out a remote branch `<remote>/<branch>` checks out `<branch>`;
/// a local branch is checked out under its own name.
pub proof fn law_remote_checkout_strips_the_remote(remote_name: Seq<char>, branch: Seq<char>)
    requires
        !remote_name.contains('/'),
    ensures
        checkout_target(true, remote_name + seq!['/'] + branch) == branch,
        checkout_target(false, remote_name + seq!['/'] + branch) == remote_name + seq!['/']
            + branch,
{
    let s = remote_name + seq!['/'] + branch;
    assert forall|j: int| 0 <= j < remote_name.len() implies #[trigger] s[j] != '/' by {
        assert(s[j] == remote_name[j]);
        if remote_name[j] == '/' {
            assert(remote_name.contains('/'));
        }
    }
    lemma_slash_index(s, remote_name.len() as int);
    assert(s.skip(remote_name.len() + 1 as int) == branch);
}

/// How a session begins: `--init auto` detects the shell, `--init <name>`
/// looks the shell up by name, and otherwise git lists the branches (the
/// remote-tracking ones with `--remote`).
pub proof fn law_session_start(init: Option<Seq<char>>, remote: bool)
    ensures
        start_step(init, remote) == match init {
            Some(shell) => (
                PhaseView::Shell,
                None::<NoticeView>,
                if shell == "auto"@ {
                    ActionView::DetectShell
                } else {
                    ActionView::ParseShell(shell)
                },
            ),
            None => (
                PhaseView::Branches,
                None,
                ActionView::RunGit(
                    if remote {
                        seq!["branch"@, "-r"@, "--format=%(refname:short)"@]
                    } else {
                        seq!["branch"@, "--format=%(HEAD)%(refname:short)"@]
                    },
                ),
            ),
        },
{
}

/// Going back to the list runs the branch listing again, after the notice.
pub proof fn law_back_to_the_list(remote: bool, notice: Option<NoticeView>)
    ensures
        restart(remote, notice) == (
            PhaseView::Branches,
            notice,
            ActionView::RunGit(
                if remote {
                    seq!["branch"@, "-r"@, "--format=%(refname:short)"@]
                } else {
                    seq!["branch"@, "--format=%(HEAD)%(refname:short)"@]
                },
            ),
        ),
{
}

/// The shell snippet is printed on standard output and the program ends.
pub proof fn law_snippet_is_printed(remote: bool, snippet: Seq<char>)
    ensures
        transition(remote, PhaseView::Shell, EventView::Snippet(Ok(snippet))) == (
            PhaseView::Done,
            Some(NoticeView::Stdout(snippet)),
            ActionView::Exit(Ok(())),
        ),
{
}

/// After the branches come the worktrees: the listed branches are kept
/// (remote ones never marked current) and git lists the worktrees.
pub proof fn law_branches_then_worktrees(remote: bool, out: Seq<char>)
    ensures
        transition(remote, PhaseView::Branches, EventView::Git(Ok(out))) == (
            PhaseView::Worktrees(
                if remote {
                    remote_branches(lines(out)).map_values(|n: Seq<char>| (n, false))
                } else {
                    local_branches(lines(out))
                },
            ),
            None::<NoticeView>,
            ActionView::RunGit(seq!["worktree"@, "list"@, "--porcelain"@]),
        ),
{
}

/// With the worktrees known, the picker shows the list, unless there is
/// nothing at all to show, which ends the program with a notice.
pub proof fn law_picker_is_shown(remote: bool, bs: Seq<(Seq<char>, bool)>, out: Seq<char>)
    ensures
        transition(remote, PhaseView::Worktrees(bs), EventView::Git(Ok(out))) == ({
            let wts = worktree_entries(blocks(out).skip(1));
            if bs.len() == 0 && wts.len() == 0 {
                (
                    PhaseView::Done,
                    Some(NoticeView::Stderr("No branches or worktrees found.\n"@)),
                    ActionView::Exit(Ok(())),
                )
            } else {
                (
                    PhaseView::Choosing(display_items(bs, wts)),
                    None,
                    ActionView::Select(display_lines(bs, wts)),
                )
            }
        }),
{
}

/// Picking a branch or worktree offers "Checkout / cd", "Delete" and
/// "Cancel"; leaving the picker ends the program.
pub proof fn law_pick_offers_actions(remote: bool, items: Seq<ItemView>, i: usize)
    requires
        i < items.len(),
        !(items[i as int] is Header),
    ensures
        transition(remote, PhaseView::Choosing(items), EventView::Selected(Ok(Some(i)))) == (
            PhaseView::Acting(items[i as int]),
            None::<NoticeView>,
            ActionView::ChooseAction(seq!["Checkout / cd"@, "Delete"@, "Cancel"@]),
        ),
        transition(remote, PhaseView::Choosing(items), EventView::Selected(Ok(None))) == (
            PhaseView::Done,
            None::<NoticeView>,
            ActionView::Exit(Ok(())),
        ),
{
}

/// "Checkout / cd": a branch is checked out with `git checkout` and the
/// program ends once that succeeds; a worktree's path is printed on standard
/// output (for the shell to change to it) and the program ends.
pub proof fn law_checkout_or_cd(remote: bool, name: Seq<char>, path: Seq<char>, current: bool, out: Seq<char>)
    ensures
        transition(
            remote,
            PhaseView::Acting(ItemView::Branch(name, current)),
            EventView::Chosen(Ok(Some(0))),
        ) == (
            PhaseView::CheckingOut,
            None::<NoticeView>,
            ActionView::RunGit(seq!["checkout"@, checkout_target(remote, name)]),
        ),
        transition(
            remote,
            PhaseView::Acting(ItemView::Worktree(name, path)),
            EventView::Chosen(Ok(Some(0))),
        ) == (PhaseView::Done, Some(NoticeView::Stdout(path + "\n"@)), ActionView::Exit(Ok(()))),
        transition(remote, PhaseView::CheckingOut, EventView::Git(Ok(out))) == (
            PhaseView::Done,
            None::<NoticeView>,
            ActionView::Exit(Ok(())),
        ),
{
}

/// "Delete": a branch that is not current is deleted with `git branch -d`;
/// a worktree is removed with `git worktree remove`.
pub proof fn law_delete_choice(remote: bool, name: Seq<char>, path: Seq<char>)
    ensures
        transition(
            remote,
            PhaseView::Acting(ItemView::Branch(name, false)),
            EventView::Chosen(Ok(Some(1))),
        ) == (
            PhaseView::Deleting(name),
            None::<NoticeView>,
            ActionView::RunGit(seq!["branch"@, "-d"@, name]),
        ),
        transition(
            remote,
            PhaseView::Acting(ItemView::Worktree(name, path)),
            EventView::Chosen(Ok(Some(1))),
        ) == (
            PhaseView::Removing(name, path),
            None::<NoticeView>,
            ActionView::RunGit(seq!["worktree"@, "remove"@, path]),
        ),
{
}

/// After `git branch -d`: success is reported and the list shown again; a
/// branch that is not fully merged leads to the question whether to force
/// the deletion; any other error is reported and the list shown again.
pub proof fn law_delete_outcome(remote: bool, name: Seq<char>, out: Seq<char>, m: Seq<char>)
    ensures
        transition(remote, PhaseView::Deleting(name), EventView::Git(Ok(out))) == restart(
            remote,
            Some(NoticeView::Stderr("Deleted branch: "@ + name + "\n"@)),
        ),
        transition(remote, PhaseView::Deleting(name), EventView::Git(Err(m))) == if has_substring(
            m,
            "not fully merged"@,
        ) {
            (
                PhaseView::ConfirmForceDelete(name),
                None,
                ActionView::Confirm("Branch '"@ + name + "' is not fully merged. Force delete?"@),
            )
        } else {
            restart(remote, Some(NoticeView::Stderr("Error deleting branch: "@ + m + "\n"@)))
        },
{
}

/// Forcing a deletion: agreeing runs `git branch -D`, whose success is
/// reported before the list is shown again; declining shows the list again.
pub proof fn law_forced_delete(remote: bool, name: Seq<char>, out: Seq<char>)
    ensures
        transition(remote, PhaseView::ConfirmForceDelete(name), EventView::Confirmed(Ok(true))) == (
            PhaseView::ForceDeleting(name),
            None::<NoticeView>,
            ActionView::RunGit(seq!["branch"@, "-D"@, name]),
        ),
        transition(remote, PhaseView::ConfirmForceDelete(name), EventView::Confirmed(Ok(false)))
            == restart(remote, None),
        transition(remote, PhaseView::ForceDeleting(name), EventView::Git(Ok(out))) == restart(
            remote,
            Some(NoticeView::Stderr("Force deleted branch: "@ + name + "\n"@)),
        ),
{
}

/// Every successful removal of a worktree, plain or forced, is reported and
/// followed by the offer to delete the worktree's branch too.
pub proof fn law_removal_offers_branch_deletion(remote: bool, name: Seq<char>, path: Seq<char>, out: Seq<char>)
    ensures
        transition(remote, PhaseView::Removing(name, path), EventView::Git(Ok(out))) == (
            PhaseView::ConfirmAlsoDelete(name),
            Some(NoticeView::Stderr("Removed worktree: "@ + path + "\n"@)),
            ActionView::Confirm("Also delete branch '"@ + name + "'?"@),
        ),
        transition(remote, PhaseView::ForceRemoving(name, path), EventView::Git(Ok(out))) == (
            PhaseView::ConfirmAlsoDelete(name),
            Some(NoticeView::Stderr("Force removed worktree: "@ + path + "\n"@)),
            ActionView::Confirm("Also delete branch '"@ + name + "'?"@),
        ),
{
}

/// The offer to delete a removed worktree's branch: agreeing deletes it as a
/// plain deletion (with the same follow-up), declining shows the list again.
pub proof fn law_branch_of_removed_worktree(remote: bool, name: Seq<char>)
    ensures
        transition(remote, PhaseView::ConfirmAlsoDelete(name), EventView::Confirmed(Ok(true))) == (
            PhaseView::Deleting(name),
            None::<NoticeView>,
            ActionView::RunGit(seq!["branch"@, "-d"@, name]),
        ),
        transition(remote, PhaseView::ConfirmAlsoDelete(name), EventView::Confirmed(Ok(false)))
            == restart(remote, None),
{
}

/// A failed removal: when `--force` would succeed, the user is asked whether
/// to force it (agreeing runs `git worktree remove --force`, declining shows
/// the list again); any other error is reported and the list shown again.
pub proof fn law_removal_failure(remote: bool, name: Seq<char>, path: Seq<char>, m: Seq<char>)
    ensures
        transition(remote, PhaseView::Removing(name, path), EventView::Git(Err(m))) == if has_substring(
            m,
            "use --force to delete it"@,
        ) || has_substring(m, "contains modified or untracked files"@) {
            (
                PhaseView::ConfirmForceRemove(name, path),
                None,
                ActionView::Confirm("Worktree '"@ + path + "' has uncommitted changes. Force delete?"@),
            )
        } else {
            restart(remote, Some(NoticeView::Stderr("Error removing worktree: "@ + m + "\n"@)))
        },
        transition(
            remote,
            PhaseView::ConfirmForceRemove(name, path),
            EventView::Confirmed(Ok(true)),
        ) == (
            PhaseView::ForceRemoving(name, path),
            None::<NoticeView>,
            ActionView::RunGit(seq!["worktree"@, "remove"@, "--force"@, path]),
        ),
        transition(
            remote,
            PhaseView::ConfirmForceRemove(name, path),
            EventView::Confirmed(Ok(false)),
        ) == restart(remote, None),
{
}

/// Whatever the session asks, every answer the caller can give is taken:
/// any outcome of a git run, of a shell lookup or of a yes/no question, any
/// line of the picker or leaving it, and any action of the menu or leaving it.
pub proof fn law_every_action_can_be_answered(remote: bool, p: PhaseView, e: EventView)
    requires
        accepts(p, e),
    ensures
        ({
            let (q, _, a) = transition(remote, p, e);
            match a {
                ActionView::DetectShell => forall|r: Result<Seq<char>, Seq<char>>| #[trigger]
                    accepts(q, EventView::Snippet(r)),
                ActionView::ParseShell(_) => forall|r: Result<Seq<char>, Seq<char>>| #[trigger]
                    accepts(q, EventView::Snippet(r)),
                ActionView::RunGit(_) => forall|r: Result<Seq<char>, Seq<char>>| #[trigger]
                    accepts(q, EventView::Git(r)),
                ActionView::Select(ls) => forall|r: Result<Option<usize>, Seq<char>>| #[trigger]
                    accepts(q, EventView::Selected(r)) <== match r {
                        Ok(Some(i)) => i < ls.len(),
                        _ => true,
                    },
                ActionView::ChooseAction(ls) => forall|r: Result<Option<usize>, Seq<char>>| #[trigger]
                    accepts(q, EventView::Chosen(r)) <== match r {
                        Ok(Some(k)) => k < ls.len(),
                        _ => true,
                    },
                ActionView::Confirm(_) => forall|r: Result<bool, Seq<char>>| #[trigger]
                    accepts(q, EventView::Confirmed(r)),
                ActionView::Exit(_) => q is Done,
            }
        }),
{
    match (p, e) {
        (PhaseView::Worktrees(bs), EventView::Git(Ok(out))) => {
            crate::app::law_items_match_lines(bs, worktree_entries(blocks(out).skip(1)));
        },
        _ => {},
    }
}

/// Every line the picker shows, and every action its menu offers, can be
/// picked.
pub proof fn law_every_offered_action_can_be_picked(remote: bool, p: PhaseView, e: EventView, k: usize)
    requires
        accepts(p, e),
        transition(remote, p, e).2 matches ActionView::ChooseAction(ls) && k < ls.len(),
    ensures
        accepts(transition(remote, p, e).0, EventView::Chosen(Ok(Some(k)))),
{
    law_every_action_can_be_answered(remote, p, e);
}

} // verus!
