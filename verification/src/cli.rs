//! The command-line surface: command shapes and the pure parts of the
//! command-line tool — argument splitting, response rendering, and the
//! shell export formats. Reading arguments and talking to the daemon
//! stay with the caller.

use vstd::prelude::*;
use vstd::string::{StrSliceExecFns, StringExecFns};
use crate::ipc::IpcResponse;
use crate::strorder::str_equal;

verus! {

/// The command-line invocation: one subcommand.
pub struct Cli {
    pub command: Commands,
}

/// The subcommands the tool understands.
pub enum Commands {
    /// Get an environment variable.
    Get { key: String },
    /// Set an environment variable.
    SetValue { key: String, value: String },
    /// Delete an environment variable.
    Delete { key: String },
    /// List all environment variables.
    List,
    /// Export variables in shell format.
    Export { shell: String },
    /// Show connected peers.
    Peers,
    /// Trigger manual sync.
    Sync,
    /// Start the background daemon.
    Daemon,
}

/// The first position of `c` in `s`, or -1.
pub open spec fn first_index_of(s: Seq<char>, c: char) -> int
    decreases s.len(),
{
    if s.len() == 0 {
        -1
    } else if s[0] == c {
        0
    } else {
        let r = first_index_of(s.drop_first(), c);
        if r < 0 {
            -1
        } else {
            r + 1
        }
    }
}

/// The first position of `c` is a position of `c`, with none before it;
/// -1 means `c` does not occur at all.
pub proof fn lemma_first_index_of(s: Seq<char>, c: char)
    ensures
        first_index_of(s, c) >= 0 ==> first_index_of(s, c) < s.len() && s[first_index_of(s, c)]
            == c && forall|j: int| 0 <= j < first_index_of(s, c) ==> s[j] != c,
        first_index_of(s, c) < 0 ==> forall|j: int| 0 <= j < s.len() ==> s[j] != c,
    decreases s.len(),
{
    if s.len() > 0 && s[0] != c {
        lemma_first_index_of(s.drop_first(), c);
        let fd = first_index_of(s.drop_first(), c);
        if fd >= 0 {
            assert(s.drop_first()[fd] == s[fd + 1]);
            assert forall|j: int| 0 <= j < fd + 1 implies s[j] != c by {
                if j > 0 {
                    assert(s.drop_first()[j - 1] == s[j]);
                }
            }
        } else {
            assert forall|j: int| 0 <= j < s.len() implies s[j] != c by {
                if j > 0 {
                    assert(s.drop_first()[j - 1] == s[j]);
                }
            }
        }
    }
}

/// Split a `set` argument: an explicit value wins; otherwise the key is
/// split at its first `=`; a bare key with no `=` is rejected.
pub fn split_set_arg(key: &str, value: Option<&str>) -> (r: Option<(String, String)>)
    ensures
        match value {
            Some(v) => r matches Some(p) && p.0@ == key@ && p.1@ == v@,
            None => {
                let i = first_index_of(key@, '=');
                if i >= 0 {
                    r matches Some(p) && p.0@ == key@.take(i) && p.1@ == key@.skip(i + 1)
                } else {
                    r is None
                }
            },
        },
{
    match value {
        Some(v) => Some((String::from_str(key), String::from_str(v))),
        None => {
            proof {
                lemma_first_index_of(key@, '=');
            }
            let n: usize = key.unicode_len();
            let mut i: usize = 0;
            while i < n && key.get_char(i) != '='
                invariant
                    0 <= i <= n,
                    n == key@.len(),
                    forall|j: int| 0 <= j < i ==> key@[j] != '=',
                decreases n - i,
            {
                i = i + 1;
            }
            if i >= n {
                proof {
                    if first_index_of(key@, '=') >= 0 {
                        assert(key@[first_index_of(key@, '=')] == '=');
                    }
                }
                None
            } else {
                proof {
                    let fi = first_index_of(key@, '=');
                    if fi != i {
                        if fi < 0 || fi > i {
                            assert(key@[i as int] == '=');
                        } else {
                            assert(key@[fi] == '=');
                        }
                    }
                }
                let k = key.substring_char(0, i);
                let v = key.substring_char(i + 1, n);
                Some((String::from_str(k), String::from_str(v)))
            }
        }
    }
}

/// `<key>=<value>` — one listing line.
pub open spec fn spec_kv_line(k: Seq<char>, v: Seq<char>) -> Seq<char> {
    k + seq!['='] + v
}

/// `<id> @ <address>` — one peer line.
pub open spec fn spec_peer_line(id: Seq<char>, addr: Seq<char>) -> Seq<char> {
    id + seq![' ', '@', ' '] + addr
}

/// What the tool prints for a daemon response, and whether the exit is
/// a success. An absent key, an error, and an unexpected response are
/// failures.
pub open spec fn spec_render(resp: IpcResponse, lines: Seq<Seq<char>>, ok: bool) -> bool {
    match resp {
        IpcResponse::Value(o) => match o {
            Some(v) => ok && lines =~= seq![v@],
            None => !ok && lines =~= seq!["Key not found"@],
        },
        IpcResponse::Success => ok && lines =~= seq!["Success"@],
        IpcResponse::Error(msg) => !ok && lines =~= seq!["Error: "@ + msg@],
        IpcResponse::List(vars) => ok && lines.len() == (if vars@.len() == 0 {
            1int
        } else {
            vars@.len() as int
        }) && (if vars@.len() == 0 {
            lines =~= seq!["No environment variables"@]
        } else {
            forall|i: int| 0 <= i < vars@.len() ==> lines[i] =~= spec_kv_line(
                (#[trigger] vars@[i]).0@,
                vars@[i].1@,
            )
        }),
        IpcResponse::Peers(peers) => ok && lines.len() == (if peers@.len() == 0 {
            1int
        } else {
            peers@.len() as int
        }) && (if peers@.len() == 0 {
            lines =~= seq!["No connected peers"@]
        } else {
            forall|i: int| 0 <= i < peers@.len() ==> lines[i] =~= spec_peer_line(
                (#[trigger] peers@[i]).0@,
                peers@[i].1@,
            )
        }),
    }
}

/// Render a daemon response into the lines to print and the exit
/// disposition.
#[verifier::loop_isolation(false)]
pub fn render_response(resp: IpcResponse) -> (r: (Vec<String>, bool))
    ensures
        spec_render(resp, r.0@.map_values(|s: String| s@), r.1),
{
    proof {
        reveal_strlit("Key not found");
        reveal_strlit("Success");
        reveal_strlit("Error: ");
        reveal_strlit("No environment variables");
        reveal_strlit("No connected peers");
        reveal_strlit("=");
        reveal_strlit(" @ ");
    }
    match resp {
        IpcResponse::Value(o) => match o {
            Some(v) => {
                let lines = vec_of_one(v);
                (lines, true)
            }
            None => {
                let lines = vec_of_one(String::from_str("Key not found"));
                (lines, false)
            }
        },
        IpcResponse::Success => {
            let lines = vec_of_one(String::from_str("Success"));
            (lines, true)
        }
        IpcResponse::Error(msg) => {
            let mut line = String::from_str("Error: ");
            line.append(msg.as_str());
            let lines = vec_of_one(line);
            (lines, false)
        }
        IpcResponse::List(vars) => {
            if vars.len() == 0 {
                let lines = vec_of_one(String::from_str("No environment variables"));
                (lines, true)
            } else {
                let mut lines: Vec<String> = Vec::new();
                let n = vars.len();
                let mut i: usize = 0;
                while i < n
                    invariant
                        0 <= i <= n,
                        n == vars@.len(),
                        lines@.len() == i,
                        forall|j: int| 0 <= j < i ==> (#[trigger] lines@[j])@ =~= spec_kv_line(
                            vars@[j].0@,
                            vars@[j].1@,
                        ),
                    decreases n - i,
                {
                    let mut line = String::new();
                    line.append(vars[i].0.as_str());
                    line.append("=");
                    line.append(vars[i].1.as_str());
                    proof {
                        assert(line@ =~= spec_kv_line(vars@[i as int].0@, vars@[i as int].1@));
                    }
                    lines.push(line);
                    i = i + 1;
                }
                (lines, true)
            }
        }
        IpcResponse::Peers(peers) => {
            if peers.len() == 0 {
                let lines = vec_of_one(String::from_str("No connected peers"));
                (lines, true)
            } else {
                let mut lines: Vec<String> = Vec::new();
                let n = peers.len();
                let mut i: usize = 0;
                while i < n
                    invariant
                        0 <= i <= n,
                        n == peers@.len(),
                        lines@.len() == i,
                        forall|j: int| 0 <= j < i ==> (#[trigger] lines@[j])@ =~= spec_peer_line(
                            peers@[j].0@,
                            peers@[j].1@,
                        ),
                    decreases n - i,
                {
                    let mut line = String::new();
                    line.append(peers[i].0.as_str());
                    line.append(" @ ");
                    line.append(peers[i].1.as_str());
                    proof {
                        assert(line@ =~= spec_peer_line(peers@[i as int].0@, peers@[i as int].1@));
                    }
                    lines.push(line);
                    i = i + 1;
                }
                (lines, true)
            }
        }
    }
}

/// A vector holding exactly one string.
fn vec_of_one(s: String) -> (r: Vec<String>)
    ensures
        r@.len() == 1,
        r@[0] == s,
{
    let mut r: Vec<String> = Vec::new();
    r.push(s);
    r
}

/// One export line for the given shell family.
pub open spec fn spec_export_line(shell: Seq<char>, k: Seq<char>, v: Seq<char>) -> Seq<char> {
    if shell == "powershell"@ || shell == "pwsh"@ {
        "$env:"@ + k + "=\""@ + v + "\""@
    } else if shell == "fish"@ {
        "set -gx "@ + k + " \""@ + v + "\""@
    } else {
        "export "@ + k + "=\""@ + v + "\""@
    }
}

/// Format a listing as shell export statements: PowerShell, fish, or
/// POSIX-style for anything else.
#[verifier::loop_isolation(false)]
pub fn format_export_lines(vars: &Vec<(String, String)>, shell: &str) -> (r: Vec<String>)
    ensures
        r@.len() == vars@.len(),
        forall|i: int| 0 <= i < vars@.len() ==> (#[trigger] r@[i])@ == spec_export_line(
            shell@,
            vars@[i].0@,
            vars@[i].1@,
        ),
{
    proof {
        reveal_strlit("powershell");
        reveal_strlit("pwsh");
        reveal_strlit("fish");
        reveal_strlit("$env:");
        reveal_strlit("set -gx ");
        reveal_strlit("export ");
        reveal_strlit("=\"");
        reveal_strlit(" \"");
        reveal_strlit("\"");
    }
    let powershell = str_equal(shell, "powershell") || str_equal(shell, "pwsh");
    let fish = str_equal(shell, "fish");
    let mut lines: Vec<String> = Vec::new();
    let n = vars.len();
    let mut i: usize = 0;
    while i < n
        invariant
            0 <= i <= n,
            n == vars@.len(),
            lines@.len() == i,
            powershell == (shell@ == "powershell"@ || shell@ == "pwsh"@),
            fish == (shell@ == "fish"@),
            forall|j: int| 0 <= j < i ==> (#[trigger] lines@[j])@ == spec_export_line(
                shell@,
                vars@[j].0@,
                vars@[j].1@,
            ),
        decreases n - i,
    {
        let mut line = String::new();
        if powershell {
            line.append("$env:");
            line.append(vars[i].0.as_str());
            line.append("=\"");
            line.append(vars[i].1.as_str());
            line.append("\"");
        } else if fish {
            line.append("set -gx ");
            line.append(vars[i].0.as_str());
            line.append(" \"");
            line.append(vars[i].1.as_str());
            line.append("\"");
        } else {
            line.append("export ");
            line.append(vars[i].0.as_str());
            line.append("=\"");
            line.append(vars[i].1.as_str());
            line.append("\"");
        }
        proof {
            assert(line@ =~= spec_export_line(shell@, vars@[i as int].0@, vars@[i as int].1@));
        }
        lines.push(line);
        i = i + 1;
    }
    lines
}

} // verus!
