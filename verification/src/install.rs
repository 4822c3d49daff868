//! The shell-integration snippets: the exact text appended to a shell's
//! startup file so that the shell reports every executed command line to
//! the logger.  Writing the file, and reporting failures, is the
//! caller's business; this module only builds the text.

use vstd::prelude::*;

verus! {

/// The snippet for a supported shell (`bash`, `zsh` or `fish`), with the
/// logger's executable path spliced in; `None` for any other name.  The
/// three names are pairwise distinct strings, so at most one of the
/// first three contract clauses applies.
pub fn integration_snippet(shell: &str, exe_path: &str) -> (r: Option<String>)
    ensures
        shell@ == "bash"@ ==> r is Some && r->0@ == bash_snippet(exe_path@),
        shell@ == "zsh"@ ==> r is Some && r->0@ == zsh_snippet(exe_path@),
        shell@ == "fish"@ ==> r is Some && r->0@ == fish_snippet(exe_path@),
        shell@ != "bash"@ && shell@ != "zsh"@ && shell@ != "fish"@ ==> r is None,
{
    proof {
        reveal_strlit("bash");
        reveal_strlit("zsh");
        reveal_strlit("fish");
        assert("bash"@.len() != "zsh"@.len());
        assert("fish"@.len() != "zsh"@.len());
        assert("bash"@[0] != "fish"@[0]);
        assert("bash"@ != "fish"@);
    }
    if crate::text::str_eq(shell, "bash") {
        let mut s = String::from_str(BASH_BEFORE_PATH);
        s.append(exe_path);
        s.append(BASH_AFTER_PATH);
        Some(s)
    } else if crate::text::str_eq(shell, "zsh") {
        let mut s = String::from_str(ZSH_BEFORE_PATH);
        s.append(exe_path);
        s.append(ZSH_AFTER_PATH);
        Some(s)
    } else if crate::text::str_eq(shell, "fish") {
        let mut s = String::from_str(FISH_BEFORE_PATH);
        s.append(exe_path);
        s.append(FISH_AFTER_PATH);
        Some(s)
    } else {
        None
    }
}

/// The bash hook: logs the last history entry after every prompt.
pub open spec fn bash_snippet(path: Seq<char>) -> Seq<char> {
    BASH_BEFORE_PATH@ + path + BASH_AFTER_PATH@
}

/// The zsh hook: logs the command line just before it runs.
pub open spec fn zsh_snippet(path: Seq<char>) -> Seq<char> {
    ZSH_BEFORE_PATH@ + path + ZSH_AFTER_PATH@
}

/// The fish hook: logs the command line on the pre-execution event.
pub open spec fn fish_snippet(path: Seq<char>) -> Seq<char> {
    FISH_BEFORE_PATH@ + path + FISH_AFTER_PATH@
}

pub const BASH_BEFORE_PATH: &'static str = "\n# recall command logger integration\nexport PROMPT_COMMAND=\"$PROMPT_COMMAND; history -a; ";

pub const BASH_AFTER_PATH: &'static str = " log \\\"$(history 1 | sed 's/^[ ]*[0-9]*[ ]*//')\\\" 2>/dev/null\"\n";

pub const ZSH_BEFORE_PATH: &'static str = "\n# recall command logger integration\npreexec() {\n    ";

pub const ZSH_AFTER_PATH: &'static str = " log \"$1\" 2>/dev/null\n}\n";

pub const FISH_BEFORE_PATH: &'static str = "\n# recall command logger integration\nfunction recall_log_command --on-event fish_preexec\n    ";

pub const FISH_AFTER_PATH: &'static str = " log \"$argv\" 2>/dev/null &\nend\n";

} // verus!
