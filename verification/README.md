# branch

An interactive git branch and worktree navigator. The library (`src/`) holds
its logic, verified with Verus; the program (`app/`) wires it to the terminal,
git, fzf and the environment.

- `src/text.rs` — strings as character sequences: Unicode whitespace and
  trimming, `str::lines`, substring search, decimal numbers.
- `src/git.rs` — the git commands `branch` runs and the parsers of their
  output (local and remote branch listings, `git worktree list --porcelain`).
- `src/selector.rs` — fzf option tokenizing, layout and input order, the lines
  handed to fzf and the reading of its answer, `BRANCH_SELECT_FIRST`.
- `src/app.rs` — the picker's list of branches and worktrees.
- `src/session.rs` — the interactive session as a state machine (list, pick,
  check out or `cd`, delete or remove with confirmations), with its laws.
- `src/shell.rs` — which shell `--init` sets up, and its wrapper snippet.
- `src/cli.rs` — the parsed command line.
- `app/` — command-line parsing, running git and fzf, prompts, printing, and
  reading the environment.
