//! The command line, once parsed.

use vstd::prelude::*;

verus! {

/// What the command line asks for: `--init [SHELL]` prints the shell
/// integration snippet (`auto` when no shell is named), and `--remote` lists
/// remote-tracking branches in place of local ones.
pub struct Cli {
    pub init: Option<String>,
    pub remote: bool,
}

} // verus!
