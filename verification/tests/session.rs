use branch::cli::Cli;
use branch::session::{Action, Command, Event, Notice, Session};

fn strings(v: &[&str]) -> Vec<String> {
    v.iter().map(|s| s.to_string()).collect()
}

fn git_args(c: &Command) -> Vec<String> {
    match &c.action {
        Action::RunGit(a) => a.clone(),
        _ => panic!("expected a git command"),
    }
}

fn stderr_notice(c: &Command) -> String {
    match &c.notice {
        Some(Notice::Stderr(s)) => s.clone(),
        _ => panic!("expected a notice on stderr"),
    }
}

fn started(remote: bool) -> (Session, Command) {
    Session::start(&Cli { init: None, remote })
}

/// Feeds the listing of `main` (current) and `feat`, with no linked worktree.
fn to_picker(s: &mut Session) -> Command {
    let c = s.advance(Event::Git(Ok("*main\n feat\n".to_string())));
    assert_eq!(git_args(&c), strings(&["worktree", "list", "--porcelain"]));
    s.advance(Event::Git(Ok("worktree /repo\nHEAD 1\nbranch refs/heads/main\n\n".to_string())))
}

#[test]
fn init_asks_for_a_snippet() {
    let (mut s, c) = Session::start(&Cli { init: Some("auto".to_string()), remote: false });
    assert!(matches!(c.action, Action::DetectShell));
    let c = s.advance(Event::Snippet(Ok("snippet".to_string())));
    assert!(matches!(&c.notice, Some(Notice::Stdout(t)) if t == "snippet"));
    assert!(matches!(c.action, Action::Exit(Ok(()))));
    let (_, c) = Session::start(&Cli { init: Some("zsh".to_string()), remote: true });
    assert!(matches!(&c.action, Action::ParseShell(n) if n == "zsh"));
}

#[test]
fn session_starts_by_listing_branches() {
    let (_, c) = started(false);
    assert_eq!(git_args(&c), strings(&["branch", "--format=%(HEAD)%(refname:short)"]));
    let (_, c) = started(true);
    assert_eq!(git_args(&c), strings(&["branch", "-r", "--format=%(refname:short)"]));
}

#[test]
fn empty_repository_ends_with_a_notice() {
    let (mut s, _) = started(false);
    s.advance(Event::Git(Ok(String::new())));
    let c = s.advance(Event::Git(Ok("worktree /repo\nHEAD 1\n\n".to_string())));
    assert_eq!(stderr_notice(&c), "No branches or worktrees found.\n");
    assert!(matches!(c.action, Action::Exit(Ok(()))));
}

#[test]
fn picker_shows_the_display_list() {
    let (mut s, _) = started(false);
    let c = to_picker(&mut s);
    match &c.action {
        Action::Select(lines) => {
            assert_eq!(lines.len(), 3);
            assert_eq!(lines[1], "* main");
            assert_eq!(lines[2], "  feat");
        }
        _ => panic!("expected the picker"),
    }
}

#[test]
fn picking_a_header_lists_again() {
    let (mut s, _) = started(false);
    to_picker(&mut s);
    let c = s.advance(Event::Selected(Ok(Some(0))));
    assert_eq!(git_args(&c), strings(&["branch", "--format=%(HEAD)%(refname:short)"]));
}

#[test]
fn checkout_of_a_branch() {
    let (mut s, _) = started(false);
    to_picker(&mut s);
    let c = s.advance(Event::Selected(Ok(Some(2))));
    assert!(matches!(&c.action, Action::ChooseAction(l) if *l == strings(&["Checkout / cd", "Delete", "Cancel"])));
    let c = s.advance(Event::Chosen(Ok(Some(0))));
    assert_eq!(git_args(&c), strings(&["checkout", "feat"]));
    let c = s.advance(Event::Git(Ok(String::new())));
    assert!(matches!(c.action, Action::Exit(Ok(()))));
}

#[test]
fn remote_checkout_drops_the_remote_name() {
    let (mut s, _) = started(true);
    s.advance(Event::Git(Ok("origin/HEAD\norigin/fix/login\n".to_string())));
    let c = s.advance(Event::Git(Ok("worktree /repo\n\n".to_string())));
    assert!(matches!(&c.action, Action::Select(l) if l.len() == 2 && l[1] == "  origin/fix/login"));
    s.advance(Event::Selected(Ok(Some(1))));
    let c = s.advance(Event::Chosen(Ok(Some(0))));
    assert_eq!(git_args(&c), strings(&["checkout", "fix/login"]));
}

#[test]
fn current_branch_is_not_deleted() {
    let (mut s, _) = started(false);
    to_picker(&mut s);
    s.advance(Event::Selected(Ok(Some(1))));
    let c = s.advance(Event::Chosen(Ok(Some(1))));
    assert_eq!(
        stderr_notice(&c),
        "Cannot delete the current branch 'main'. Switch to another branch first.\n"
    );
    assert_eq!(git_args(&c), strings(&["branch", "--format=%(HEAD)%(refname:short)"]));
}

#[test]
fn unmerged_branch_is_force_deleted_after_confirmation() {
    let (mut s, _) = started(false);
    to_picker(&mut s);
    s.advance(Event::Selected(Ok(Some(2))));
    let c = s.advance(Event::Chosen(Ok(Some(1))));
    assert_eq!(git_args(&c), strings(&["branch", "-d", "feat"]));
    let c = s.advance(Event::Git(Err(
        "error: The branch 'feat' is not fully merged.".to_string(),
    )));
    assert!(matches!(&c.action, Action::Confirm(q) if q == "Branch 'feat' is not fully merged. Force delete?"));
    let c = s.advance(Event::Confirmed(Ok(true)));
    assert_eq!(git_args(&c), strings(&["branch", "-D", "feat"]));
    let c = s.advance(Event::Git(Ok(String::new())));
    assert_eq!(stderr_notice(&c), "Force deleted branch: feat\n");
}

#[test]
fn other_delete_errors_are_reported() {
    let (mut s, _) = started(false);
    to_picker(&mut s);
    s.advance(Event::Selected(Ok(Some(2))));
    s.advance(Event::Chosen(Ok(Some(1))));
    let c = s.advance(Event::Git(Err("boom".to_string())));
    assert_eq!(stderr_notice(&c), "Error deleting branch: boom\n");
    assert_eq!(git_args(&c), strings(&["branch", "--format=%(HEAD)%(refname:short)"]));
}

#[test]
fn worktree_cd_prints_the_path() {
    let (mut s, _) = started(false);
    s.advance(Event::Git(Ok("*main\n".to_string())));
    s.advance(Event::Git(Ok(
        "worktree /repo\n\nworktree /w/feat\nHEAD 2\nbranch refs/heads/feat\n\n".to_string(),
    )));
    s.advance(Event::Selected(Ok(Some(3))));
    let c = s.advance(Event::Chosen(Ok(Some(0))));
    assert!(matches!(&c.notice, Some(Notice::Stdout(p)) if p == "/w/feat\n"));
    assert!(matches!(c.action, Action::Exit(Ok(()))));
}

#[test]
fn worktree_removal_with_force_and_branch_deletion() {
    let (mut s, _) = started(false);
    s.advance(Event::Git(Ok("*main\n".to_string())));
    s.advance(Event::Git(Ok(
        "worktree /repo\n\nworktree /w/feat\nHEAD 2\nbranch refs/heads/feat\n\n".to_string(),
    )));
    s.advance(Event::Selected(Ok(Some(3))));
    let c = s.advance(Event::Chosen(Ok(Some(1))));
    assert_eq!(git_args(&c), strings(&["worktree", "remove", "/w/feat"]));
    let c = s.advance(Event::Git(Err(
        "fatal: '/w/feat' contains modified or untracked files, use --force to delete it".to_string(),
    )));
    assert!(matches!(&c.action, Action::Confirm(q) if q == "Worktree '/w/feat' has uncommitted changes. Force delete?"));
    let c = s.advance(Event::Confirmed(Ok(true)));
    assert_eq!(git_args(&c), strings(&["worktree", "remove", "--force", "/w/feat"]));
    let c = s.advance(Event::Git(Ok(String::new())));
    assert_eq!(stderr_notice(&c), "Force removed worktree: /w/feat\n");
    assert!(matches!(&c.action, Action::Confirm(q) if q == "Also delete branch 'feat'?"));
    let c = s.advance(Event::Confirmed(Ok(true)));
    assert_eq!(git_args(&c), strings(&["branch", "-d", "feat"]));
    let c = s.advance(Event::Git(Ok(String::new())));
    assert_eq!(stderr_notice(&c), "Deleted branch: feat\n");
}

#[test]
fn errors_end_the_session() {
    let (mut s, _) = started(false);
    let c = s.advance(Event::Git(Err("fatal: not a git repository".to_string())));
    assert!(matches!(&c.action, Action::Exit(Err(m)) if m == "fatal: not a git repository"));
    assert!(!s.accepts_event(&Event::Git(Ok(String::new()))));
}

#[test]
fn cancel_and_abort() {
    let (mut s, _) = started(false);
    to_picker(&mut s);
    s.advance(Event::Selected(Ok(Some(2))));
    let c = s.advance(Event::Chosen(Ok(Some(2))));
    assert_eq!(git_args(&c), strings(&["branch", "--format=%(HEAD)%(refname:short)"]));
    to_picker(&mut s);
    let c = s.advance(Event::Selected(Ok(None)));
    assert!(matches!(c.action, Action::Exit(Ok(()))));
}

#[test]
fn out_of_range_pick_is_not_accepted() {
    let (mut s, _) = started(false);
    to_picker(&mut s);
    assert!(!s.accepts_event(&Event::Selected(Ok(Some(3)))));
    assert!(s.accepts_event(&Event::Selected(Ok(Some(2)))));
    assert!(!s.accepts_event(&Event::Confirmed(Ok(true))));
}
