use branch::shell::{detect_shell, parse_shell, snippet, Shell};

#[test]
fn shell_names() {
    assert_eq!(parse_shell("bash"), Ok(Shell::Bash));
    assert_eq!(parse_shell("zsh"), Ok(Shell::Zsh));
    assert_eq!(parse_shell("fish"), Ok(Shell::Fish));
    assert_eq!(parse_shell("powershell"), Ok(Shell::PowerShell));
    assert_eq!(parse_shell("pwsh"), Ok(Shell::PowerShell));
    assert_eq!(
        parse_shell("tcsh"),
        Err("Unsupported shell 'tcsh'. Supported: bash, zsh, fish, powershell".to_string())
    );
}

#[test]
fn shell_detection() {
    assert_eq!(detect_shell(Some("/usr/bin/zsh"), false), Ok(Shell::Zsh));
    assert_eq!(detect_shell(Some("C:\\tools\\bash"), false), Ok(Shell::Bash));
    assert_eq!(detect_shell(Some("fish"), true), Ok(Shell::Fish));
    assert_eq!(detect_shell(Some("/bin/tcsh"), true), Ok(Shell::PowerShell));
    assert_eq!(detect_shell(None, true), Ok(Shell::PowerShell));
    assert!(detect_shell(Some("/bin/"), false).is_err());
    assert_eq!(
        detect_shell(None, false),
        Err("Could not detect your shell. Pass it explicitly: branch --init <bash|zsh|fish|powershell>".to_string())
    );
}

#[test]
fn snippets_define_a_branch_function() {
    assert!(snippet(Shell::Bash).starts_with("branch() {\n"));
    assert_eq!(snippet(Shell::Bash), snippet(Shell::Zsh));
    assert!(snippet(Shell::Fish).starts_with("function branch\n"));
    assert!(snippet(Shell::PowerShell).starts_with("function branch {\n"));
    assert!(snippet(Shell::Bash).contains("cd \"$target\""));
}
