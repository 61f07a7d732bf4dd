use branch::git::{
    checkout_branch, delete_branch, git_outcome, list_local_branches, list_local_branches_args,
    list_remote_branches, list_remote_branches_args, list_worktrees, list_worktrees_args,
    remove_worktree,
};

#[test]
fn list_local_branches_returns_main_as_current() {
    let branches = list_local_branches("*main\n");
    assert_eq!(branches.len(), 1);
    assert_eq!(branches[0].0, "main");
    assert!(branches[0].1, "main should be current");
}

#[test]
fn list_local_branches_marks_only_one_current() {
    let branches = list_local_branches("*main\n feature\n");
    assert_eq!(branches.len(), 2);
    let current_count = branches.iter().filter(|(_, c)| *c).count();
    assert_eq!(current_count, 1);
}

#[test]
fn list_local_branches_non_current_branch_not_marked() {
    let branches = list_local_branches("*main\n feature\n");
    let feature = branches.iter().find(|(name, _)| name == "feature").unwrap();
    assert!(!feature.1, "feature should not be current");
}

#[test]
fn local_listing_marks_the_current_branch() {
    let branches = list_local_branches("*main\n feature\n");
    assert_eq!(
        branches,
        vec![("main".to_string(), true), ("feature".to_string(), false)]
    );
}

#[test]
fn local_listing_skips_empty_lines_and_crlf() {
    let branches = list_local_branches("\n*main\r\n  feat\n\n");
    assert_eq!(
        branches,
        vec![("main".to_string(), true), ("feat".to_string(), false)]
    );
    assert!(list_local_branches("").is_empty());
}

#[test]
fn list_remote_branches_excludes_head_and_returns_branches() {
    let remotes = list_remote_branches("origin/HEAD\norigin/feature\norigin/main\n");
    assert!(remotes.iter().any(|r| r == "origin/main"), "expected origin/main: {remotes:?}");
    assert!(remotes.iter().any(|r| r == "origin/feature"), "expected origin/feature: {remotes:?}");
    assert!(!remotes.iter().any(|r| r.ends_with("/HEAD")), "must not include HEAD: {remotes:?}");
}

#[test]
fn remote_listing_drops_head_pointers() {
    let remotes = list_remote_branches("origin/HEAD\n  origin/main \norigin/feature\n\n");
    assert_eq!(remotes, vec!["origin/main", "origin/feature"]);
}

#[test]
fn list_worktrees_empty_when_no_worktrees() {
    let out = "worktree /repo\nHEAD 1111\nbranch refs/heads/main\n\n";
    let wts = list_worktrees(out);
    assert!(wts.is_empty(), "main worktree must not appear in the list");
}

#[test]
fn list_worktrees_returns_added_worktree() {
    let out = "worktree /repo\nHEAD 1111\nbranch refs/heads/main\n\nworktree /tmp/wt\nHEAD 1111\nbranch refs/heads/feat\n\n";
    let wts = list_worktrees(out);
    assert_eq!(wts.len(), 1);
    assert_eq!(wts[0].name, "feat");
    assert_eq!(wts[0].path, "/tmp/wt");
}

#[test]
fn worktree_listing_reads_linked_worktrees() {
    let out = "worktree /repo\nHEAD 1111\nbranch refs/heads/main\n\n\
               worktree /tmp/feat\nHEAD 2222\nbranch refs/heads/feat\n\n\
               worktree /tmp/detached\nHEAD 3333\ndetached\n\n";
    let wts = list_worktrees(out);
    assert_eq!(wts.len(), 1);
    assert_eq!(wts[0].name, "feat");
    assert_eq!(wts[0].path, "/tmp/feat");
}

#[test]
fn git_arguments() {
    assert_eq!(checkout_branch("feature"), vec!["checkout", "feature"]);
    assert_eq!(delete_branch("x", false), vec!["branch", "-d", "x"]);
    assert_eq!(delete_branch("x", true), vec!["branch", "-D", "x"]);
    assert_eq!(remove_worktree("/p", false), vec!["worktree", "remove", "/p"]);
    assert_eq!(remove_worktree("/p", true), vec!["worktree", "remove", "--force", "/p"]);
    assert_eq!(list_local_branches_args(), vec!["branch", "--format=%(HEAD)%(refname:short)"]);
    assert_eq!(list_remote_branches_args(), vec!["branch", "-r", "--format=%(refname:short)"]);
    assert_eq!(list_worktrees_args(), vec!["worktree", "list", "--porcelain"]);
}

#[test]
fn git_outcome_trims_errors_only() {
    assert_eq!(git_outcome(true, " out \n".to_string(), "x"), Ok(" out \n".to_string()));
    assert_eq!(
        git_outcome(false, String::new(), "  error: not fully merged\n"),
        Err("error: not fully merged".to_string())
    );
}
