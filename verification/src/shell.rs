//! Shell integration: which shell to set up, and the wrapper function that
//! lets `branch` change the shell's directory to a picked worktree.

use vstd::prelude::*;
use crate::text::{append_chars, chars_of, chars_eq, string_from};

verus! {

broadcast use vstd::string::group_string_axioms;

/// The shells `branch --init` supports.
#[derive(Clone, Copy, Debug, PartialEq, Eq, Structural)]
pub enum Shell {
    Bash,
    Zsh,
    Fish,
    PowerShell,
}

/// The shell a name denotes: `bash`, `zsh`, `fish`, and `powershell` or
/// `pwsh`.
pub open spec fn shell_named(name: Seq<char>) -> Option<Shell> {
    if name == "bash"@ {
        Some(Shell::Bash)
    } else if name == "zsh"@ {
        Some(Shell::Zsh)
    } else if name == "fish"@ {
        Some(Shell::Fish)
    } else if name == "powershell"@ || name == "pwsh"@ {
        Some(Shell::PowerShell)
    } else {
        None
    }
}

/// The error for a shell name that is not supported.
pub open spec fn unsupported_shell(name: Seq<char>) -> Seq<char> {
    "Unsupported shell '"@ + name + "'. Supported: bash, zsh, fish, powershell"@
}

/// The error when the shell cannot be detected.
pub open spec fn undetected_shell() -> Seq<char> {
    "Could not detect your shell. Pass it explicitly: branch --init <bash|zsh|fish|powershell>"@
}

/// The shell named `name`, or an error naming it.
pub fn parse_shell(name: &str) -> (r: Result<Shell, String>)
    ensures
        match shell_named(name@) {
            Some(s) => r == Ok::<Shell, String>(s),
            None => r matches Err(e) && e@ == unsupported_shell(name@),
        },
{
    let n = chars_of(name);
    if chars_eq(&n, &chars_of("bash")) {
        Ok(Shell::Bash)
    } else if chars_eq(&n, &chars_of("zsh")) {
        Ok(Shell::Zsh)
    } else if chars_eq(&n, &chars_of("fish")) {
        Ok(Shell::Fish)
    } else if chars_eq(&n, &chars_of("powershell")) || chars_eq(&n, &chars_of("pwsh")) {
        Ok(Shell::PowerShell)
    } else {
        let mut e = string_from("Unsupported shell '");
        append_chars(&mut e, &n);
        append_chars(&mut e, &chars_of("'. Supported: bash, zsh, fish, powershell"));
        Err(e)
    }
}

/// Whether `c` separates the parts of a path.
pub open spec fn is_separator(c: char) -> bool {
    c == '/' || c == '\\'
}

/// The last part of a path: what follows its last `/` or `\`.
pub open spec fn base_name(path: Seq<char>) -> Seq<char>
    decreases path.len(),
{
    if path.len() == 0 {
        path
    } else if is_separator(path.last()) {
        seq![]
    } else {
        base_name(path.drop_last()).push(path.last())
    }
}

/// The shell to set up: the one `$SHELL` names by the last part of its path,
/// else PowerShell when running inside it, else an error.
pub open spec fn detected_shell(shell_var: Option<Seq<char>>, in_powershell: bool) -> Result<
    Shell,
    Seq<char>,
> {
    match shell_var {
        Some(p) if shell_named(base_name(p)) is Some => Ok(shell_named(base_name(p))->0),
        _ => if in_powershell {
            Ok(Shell::PowerShell)
        } else {
            Err(undetected_shell())
        },
    }
}

/// The last part of a path (see [`base_name`]).
fn base_name_exec(path: &Vec<char>) -> (r: Vec<char>)
    ensures
        r@ == base_name(path@),
{
    let mut k: usize = path.len();
    assert(path@.take(k as int) == path@);
    assert(base_name(path@) + path@.skip(k as int) =~= base_name(path@));
    while k > 0 && !(path[k - 1] == '/' || path[k - 1] == '\\')
        invariant
            k <= path.len(),
            base_name(path@) == base_name(path@.take(k as int)) + path@.skip(k as int),
        decreases k,
    {
        proof {
            let t = path@.take(k as int);
            assert(t.drop_last() == path@.take(k - 1));
            assert(t.last() == path@[k - 1]);
            assert(path@.skip(k - 1) == seq![path@[k - 1]] + path@.skip(k as int));
            assert(base_name(t) == base_name(path@.take(k - 1)).push(path@[k - 1]));
            assert(base_name(path@.take(k - 1)).push(path@[k - 1]) + path@.skip(k as int)
                =~= base_name(path@.take(k - 1)) + path@.skip(k - 1));
        }
        k = k - 1;
    }
    proof {
        let t = path@.take(k as int);
        if k > 0 {
            assert(t.last() == path@[k - 1]);
            assert(base_name(t) =~= Seq::<char>::empty());
        } else {
            assert(t =~= Seq::<char>::empty());
        }
        assert(base_name(t) + path@.skip(k as int) =~= path@.subrange(k as int, path.len() as int));
    }
    crate::text::sub_chars(path, k, path.len())
}

/// Which shell to set up, from the value of `$SHELL` (when set) and whether
/// the program runs inside PowerShell (see [`detected_shell`]).
pub fn detect_shell(shell_var: Option<&str>, in_powershell: bool) -> (r: Result<Shell, String>)
    ensures
        match detected_shell(
            match shell_var {
                Some(p) => Some(p@),
                None => None,
            },
            in_powershell,
        ) {
            Ok(s) => r == Ok::<Shell, String>(s),
            Err(m) => r matches Err(e) && e@ == m,
        },
{
    if let Some(p) = shell_var {
        let name = base_name_exec(&chars_of(p));
        let named = crate::text::string_of(&name);
        if let Ok(s) = parse_shell(named.as_str()) {
            return Ok(s);
        }
    }
    if in_powershell {
        Ok(Shell::PowerShell)
    } else {
        Err(string_from(
            "Could not detect your shell. Pass it explicitly: branch --init <bash|zsh|fish|powershell>",
        ))
    }
}

/// The wrapper function for POSIX shells (bash, zsh).
pub open spec fn posix_snippet() -> Seq<char> {
    "branch() {\n  local target\n  target=\"$(command branch \"$@\")\" || return $?\n  if [ -n \"$target\" ] && [ -d \"$target\" ]; then\n    cd \"$target\" || return $?\n  elif [ -n \"$target\" ]; then\n    printf '%s\\n' \"$target\"\n  fi\n}\n"@
}

/// The wrapper function for fish.
pub open spec fn fish_snippet() -> Seq<char> {
    "function branch\n    set -l target (command branch $argv); or return $status\n    if test -n \"$target\"; and test -d \"$target\"\n        cd \"$target\"\n    else if test -n \"$target\"\n        printf '%s\\n' $target\n    end\nend\n"@
}

/// The wrapper function for PowerShell.
pub open spec fn powershell_snippet() -> Seq<char> {
    "function branch {\n    $exe = Get-Command branch -CommandType Application | Select-Object -First 1\n    $target = & $exe @args\n    if ($LASTEXITCODE -ne 0) { return }\n    if ($target -and (Test-Path -LiteralPath $target -PathType Container)) {\n        Set-Location -LiteralPath $target\n    } elseif ($target) {\n        $target\n    }\n}\n"@
}

/// The text `branch --init` prints for a shell: a `branch` function that runs
/// the program, changes to the directory it prints, and passes other output on.
pub open spec fn snippet_text(shell: Shell) -> Seq<char> {
    match shell {
        Shell::Bash | Shell::Zsh => posix_snippet(),
        Shell::Fish => fish_snippet(),
        Shell::PowerShell => powershell_snippet(),
    }
}

/// The shell integration snippet for `shell` (see [`snippet_text`]).
pub fn snippet(shell: Shell) -> (r: String)
    ensures
        r@ == snippet_text(shell),
{
    match shell {
        Shell::Bash | Shell::Zsh => string_from("branch() {\n  local target\n  target=\"$(command branch \"$@\")\" || return $?\n  if [ -n \"$target\" ] && [ -d \"$target\" ]; then\n    cd \"$target\" || return $?\n  elif [ -n \"$target\" ]; then\n    printf '%s\\n' \"$target\"\n  fi\n}\n"),
        Shell::Fish => string_from("function branch\n    set -l target (command branch $argv); or return $status\n    if test -n \"$target\"; and test -d \"$target\"\n        cd \"$target\"\n    else if test -n \"$target\"\n        printf '%s\\n' $target\n    end\nend\n"),
        Shell::PowerShell => string_from("function branch {\n    $exe = Get-Command branch -CommandType Application | Select-Object -First 1\n    $target = & $exe @args\n    if ($LASTEXITCODE -ne 0) { return }\n    if ($target -and (Test-Path -LiteralPath $target -PathType Container)) {\n        Set-Location -LiteralPath $target\n    } elseif ($target) {\n        $target\n    }\n}\n"),
    }
}

/// A name with no `/` or `\` is its own last part.
proof fn lemma_base_name_plain(name: Seq<char>)
    requires
        forall|j: int| 0 <= j < name.len() ==> !is_separator(#[trigger] name[j]),
    ensures
        base_name(name) == name,
    decreases name.len(),
{
    if name.len() > 0 {
        assert forall|j: int| 0 <= j < name.drop_last().len() implies !is_separator(
            #[trigger] name.drop_last()[j],
        ) by {
            assert(name.drop_last()[j] == name[j]);
        }
        lemma_base_name_plain(name.drop_last());
        assert(name.drop_last().push(name.last()) =~= name);
    }
}

/// Whatever directory precedes it, the shell is detected from the part of
/// `$SHELL` after its last separator: `/usr/bin/zsh` and `C:\bin\zsh` both
/// name zsh.
pub proof fn law_shell_from_last_part(dir: Seq<char>, sep: char, name: Seq<char>, in_powershell: bool)
    requires
        is_separator(sep),
        forall|j: int| 0 <= j < name.len() ==> !is_separator(#[trigger] name[j]),
    ensures
        base_name(dir + seq![sep] + name) == name,
        detected_shell(Some(dir + seq![sep] + name), in_powershell) == detected_shell(Some(name), in_powershell),
    decreases name.len(),
{
    lemma_base_name_plain(name);
    let p = dir + seq![sep] + name;
    if name.len() == 0 {
        assert(p.last() == sep);
    } else {
        assert(p.drop_last() == dir + seq![sep] + name.drop_last());
        assert(p.last() == name.last());
        assert forall|j: int| 0 <= j < name.drop_last().len() implies !is_separator(
            #[trigger] name.drop_last()[j],
        ) by {
            assert(name.drop_last()[j] == name[j]);
        }
        law_shell_from_last_part(dir, sep, name.drop_last(), in_powershell);
        assert(name.drop_last().push(name.last()) =~= name);
    }
}

} // verus!
