use branch::app::{build_display_list, can_force_remove_worktree, Item};
use branch::git::Worktree;

fn strip_ansi(s: &str) -> String {
    let mut result = String::new();
    let mut chars = s.chars().peekable();
    while let Some(c) = chars.next() {
        if c == '\x1b' && chars.peek() == Some(&'[') {
            chars.next();
            for ch in chars.by_ref() {
                if ch == 'm' {
                    break;
                }
            }
        } else {
            result.push(c);
        }
    }
    result
}

#[test]
fn build_display_list_has_branch_header() {
    let dl = build_display_list(vec![], vec![]);
    assert!(
        dl.display
            .iter()
            .any(|s| strip_ansi(s).contains("Branches")),
        "expected a Branches header"
    );
}

#[test]
fn build_display_list_no_worktree_header_when_empty() {
    let dl = build_display_list(vec![("main".into(), true)], vec![]);
    assert!(
        !dl.display
            .iter()
            .any(|s| strip_ansi(s).contains("Worktrees")),
        "should not show Worktrees header when there are no worktrees"
    );
}

#[test]
fn build_display_list_marks_current_branch_with_asterisk() {
    let branches = vec![("main".into(), true), ("feat".into(), false)];
    let dl = build_display_list(branches, vec![]);
    assert!(
        dl.display
            .iter()
            .any(|s| strip_ansi(s).trim_start() == "* main"),
        "current branch should be marked with *"
    );
    assert!(
        dl.display
            .iter()
            .any(|s| strip_ansi(s).trim_start() == "feat"),
        "non-current branch should not have *"
    );
}

#[test]
fn build_display_list_includes_worktree_section() {
    let wts = vec![Worktree {
        name: "feat".into(),
        path: "/p/feat".into(),
    }];
    let dl = build_display_list(vec![("main".into(), true)], wts);
    assert!(dl
        .display
        .iter()
        .any(|s| strip_ansi(s).contains("Worktrees")));
    assert!(dl
        .display
        .iter()
        .any(|s| s.contains("feat") && s.contains("/p/feat")));
}

#[test]
fn build_display_list_items_and_display_same_length() {
    let branches = vec![("main".into(), true), ("feat".into(), false)];
    let wts = vec![Worktree {
        name: "wt".into(),
        path: "/p".into(),
    }];
    let dl = build_display_list(branches, wts);
    assert_eq!(dl.items.len(), dl.display.len());
}

#[test]
fn build_display_list_worktree_columns_aligned() {
    let wts = vec![
        Worktree {
            name: "short".into(),
            path: "/a".into(),
        },
        Worktree {
            name: "a-longer-name".into(),
            path: "/b".into(),
        },
    ];
    let dl = build_display_list(vec![], wts);
    let positions: Vec<usize> = dl
        .display
        .iter()
        .filter(|s| s.contains("/a") || s.contains("/b"))
        .map(|s| s.find('/').unwrap_or(0))
        .collect();
    assert!(
        positions.windows(2).all(|w| w[0] == w[1]),
        "worktree paths should start at the same column: {positions:?}"
    );
}

#[test]
fn detect_force_removable_worktree_error() {
    assert!(can_force_remove_worktree(
        "fatal: 'C:\\\\repo\\\\wt' contains modified or untracked files, use --force to delete it"
    ));
    assert!(!can_force_remove_worktree(
        "fatal: cannot remove the current working tree"
    ));
}

#[test]
fn display_list_exact_lines() {
    let branches = vec![("main".into(), true), ("feat".into(), false)];
    let wts = vec![
        Worktree { name: "wt".into(), path: "/p/wt".into() },
        Worktree { name: "longer".into(), path: "/q".into() },
    ];
    let dl = build_display_list(branches, wts);
    let branch_header = format!("\x1b[2m── Branches {}\x1b[0m", "─".repeat(40));
    let wt_header = format!("\x1b[2m── Worktrees {}\x1b[0m", "─".repeat(39));
    assert_eq!(
        dl.display,
        vec![
            branch_header,
            "* main".to_string(),
            "  feat".to_string(),
            wt_header,
            "  wt      /p/wt".to_string(),
            "  longer  /q".to_string(),
        ]
    );
    assert!(matches!(dl.items[0], Item::Header));
    assert!(matches!(&dl.items[1], Item::Branch { name, is_current: true } if name == "main"));
    assert!(matches!(&dl.items[2], Item::Branch { name, is_current: false } if name == "feat"));
    assert!(matches!(dl.items[3], Item::Header));
    assert!(matches!(&dl.items[4], Item::Worktree { name, path } if name == "wt" && path == "/p/wt"));
}

#[test]
fn worktree_padding_counts_bytes_for_width() {
    // The column is as wide as the longest name in bytes; padding counts characters.
    let wts = vec![
        Worktree { name: "é".into(), path: "/x".into() },
        Worktree { name: "ab".into(), path: "/y".into() },
    ];
    let dl = build_display_list(vec![], wts);
    assert_eq!(dl.display[2], "  é   /x");
    assert_eq!(dl.display[3], "  ab  /y");
}

#[test]
fn force_removal_detected_from_either_phrase() {
    assert!(can_force_remove_worktree("use --force to delete it"));
    assert!(can_force_remove_worktree("x contains modified or untracked files"));
    assert!(!can_force_remove_worktree(""));
    assert!(!can_force_remove_worktree("use --force"));
}
