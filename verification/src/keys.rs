//! Session key derivation: turning the probe results that describe the
//! surrounding shell into one stable key string.
//!
//! The probes themselves (environment variables, the controlling
//! terminal, process status) live with the caller; this module holds the
//! decision: the probes are tried in a fixed order and the first success
//! alone determines the key.

use vstd::prelude::*;

use crate::text::dec_str;
use crate::text::starts_with;
use crate::text::str_starts_with;
use crate::text::u64_to_string;

verus! {

/// The view of an optional string argument.
pub open spec fn opt_view(o: Option<String>) -> Option<Seq<char>> {
    match o {
        Some(s) => Some(s@),
        None => None,
    }
}

/// Which key a set of probe results determines.  In order: a session
/// identifier from the environment; the controlling terminal's device
/// name (with its inode number when available), accepted only for paths
/// under `/dev/`; the process session id; a fish or bash shell process
/// id; and last the parent process id, or `unknown` when even that
/// probe failed.
pub open spec fn session_key_of(
    xdg: Option<Seq<char>>,
    term: Option<Seq<char>>,
    ino: Option<u64>,
    psid: Option<Seq<char>>,
    fish: Option<Seq<char>>,
    bash: Option<Seq<char>>,
    ppid: Option<Seq<char>>,
) -> Seq<char> {
    if xdg is Some {
        "xdg:"@ + xdg->0
    } else if term is Some && starts_with(term->0, "/dev/"@) {
        let name = term->0.skip("/dev/"@.len() as int);
        if ino is Some {
            "term_"@ + name + "_"@ + dec_str(ino->0 as nat)
        } else {
            "term_"@ + name
        }
    } else if psid is Some {
        "process_sid_"@ + psid->0
    } else if fish is Some {
        "fish_"@ + fish->0
    } else if bash is Some {
        "bash_"@ + bash->0
    } else if ppid is Some {
        "shell_"@ + ppid->0
    } else {
        "shell_"@ + "unknown"@
    }
}

/// Builds the session key from the probe results, first success wins.
pub fn derive_session_key(
    xdg_session: Option<String>,
    terminal_path: Option<String>,
    terminal_inode: Option<u64>,
    process_sid: Option<String>,
    fish_pid: Option<String>,
    bash_pid: Option<String>,
    parent_pid: Option<String>,
) -> (r: String)
    ensures
        r@ == session_key_of(
            opt_view(xdg_session),
            opt_view(terminal_path),
            terminal_inode,
            opt_view(process_sid),
            opt_view(fish_pid),
            opt_view(bash_pid),
            opt_view(parent_pid),
        ),
{
    if let Some(id) = &xdg_session {
        let mut s = String::from_str("xdg:");
        s.append(id.as_str());
        return s;
    }
    if let Some(path) = &terminal_path {
        if str_starts_with(path.as_str(), "/dev/") {
            proof {
                reveal_strlit("/dev/");
            }
            let name = path.as_str().substring_char(5, path.as_str().unicode_len());
            let mut s = String::from_str("term_");
            s.append(name);
            if let Some(ino) = terminal_inode {
                s.append("_");
                let digits = u64_to_string(ino);
                s.append(digits.as_str());
            }
            return s;
        }
    }
    if let Some(sid) = &process_sid {
        let mut s = String::from_str("process_sid_");
        s.append(sid.as_str());
        return s;
    }
    if let Some(pid) = &fish_pid {
        let mut s = String::from_str("fish_");
        s.append(pid.as_str());
        return s;
    }
    if let Some(pid) = &bash_pid {
        let mut s = String::from_str("bash_");
        s.append(pid.as_str());
        return s;
    }
    if let Some(pid) = &parent_pid {
        let mut s = String::from_str("shell_");
        s.append(pid.as_str());
        return s;
    }
    let mut s = String::from_str("shell_");
    s.append("unknown");
    s
}

} // verus!
