//! The request/response records of the command layer, and the
//! command-text helpers it applies before running a remote command.
//!
//! Interactive full-screen programs cannot run over one-shot command
//! execution; the helpers here rewrite the well-known ones into their
//! batch forms and recognise the rest, so the caller can explain the
//! failure.

use vstd::prelude::*;
use crate::config::AuthMethod;
use crate::strutil::{
    command_token_end, is_ws_exec, skip_ws_from, starts_with_spec, str_eq, str_starts_with,
    str_trim, token_end, trim_spec,
};

verus! {

/// A request to open an SSH session.
#[derive(Debug, Clone)]
pub struct ConnectRequest {
    pub session_id: String,
    pub host: String,
    pub port: u16,
    pub username: String,
    pub auth_method: String,
    pub password: Option<String>,
    pub key_path: Option<String>,
    pub passphrase: Option<String>,
}

/// The success/failure envelope a command-layer call returns.
#[derive(Debug, Clone)]
pub struct CommandResponse {
    pub success: bool,
    pub output: Option<String>,
    pub error: Option<String>,
}

/// A request to move one file between the local and the remote side.
#[derive(Debug, Clone)]
pub struct FileTransferRequest {
    pub session_id: String,
    pub local_path: String,
    pub remote_path: String,
    pub data: Option<Vec<u8>>,
}

/// What a file transfer reports back.
#[derive(Debug, Clone)]
pub struct FileTransferResponse {
    pub success: bool,
    pub bytes_transferred: Option<u64>,
    pub data: Option<Vec<u8>>,
    pub error: Option<String>,
}

/// One remote process, as scraped from a process listing.
#[derive(Debug, Clone)]
pub struct ProcessInfo {
    pub pid: String,
    pub user: String,
    pub cpu: String,
    pub mem: String,
    pub command: String,
}

/// The envelope of a process listing.
#[derive(Debug, Clone)]
pub struct ProcessListResponse {
    pub success: bool,
    pub processes: Option<Vec<ProcessInfo>>,
    pub error: Option<String>,
}

/// A request to show the tail of a remote log file.
#[derive(Debug, Clone)]
pub struct TailLogRequest {
    pub session_id: String,
    pub log_path: String,
    pub lines: Option<u32>,
}

/// Counters of one remote network interface.
#[derive(Debug, Clone)]
pub struct NetworkInterface {
    pub name: String,
    pub rx_bytes: u64,
    pub tx_bytes: u64,
    pub rx_packets: u64,
    pub tx_packets: u64,
}

/// The envelope of an interface-counter query.
#[derive(Debug, Clone)]
pub struct NetworkStatsResponse {
    pub success: bool,
    pub interfaces: Vec<NetworkInterface>,
    pub error: Option<String>,
}

/// One remote network connection, as scraped from a socket listing.
#[derive(Debug, Clone)]
pub struct NetworkConnection {
    pub protocol: String,
    pub local_address: String,
    pub remote_address: String,
    pub state: String,
    pub pid_program: String,
}

/// The envelope of a socket listing.
#[derive(Debug, Clone)]
pub struct ConnectionsResponse {
    pub success: bool,
    pub connections: Vec<NetworkConnection>,
    pub error: Option<String>,
}

/// One remote filesystem, as scraped from a disk-usage listing.
#[derive(Debug, Clone)]
pub struct DiskInfo {
    pub filesystem: String,
    pub path: String,
    pub total: String,
    pub used: String,
    pub available: String,
    pub usage: u32,
}

/// The envelope of a disk-usage query.
#[derive(Debug, Clone)]
pub struct DiskUsageResponse {
    pub success: bool,
    pub disks: Vec<DiskInfo>,
    pub error: Option<String>,
}

/// The word a command line starts with.
pub open spec fn command_name_spec(s: Seq<char>) -> Seq<char> {
    let a = skip_ws_from(s, 0);
    if a == s.len() {
        Seq::empty()
    } else {
        s.subrange(a, token_end(s, a))
    }
}

/// Extracts the command word from a command line.
pub fn get_command_name(command: &str) -> (r: String)
    ensures
        r@ == command_name_spec(command@),
{
    let n = command.unicode_len();
    let mut a: usize = 0;
    while a < n && is_ws_exec(command.get_char(a))
        invariant
            n == command@.len(),
            0 <= a <= n,
            skip_ws_from(command@, 0) == skip_ws_from(command@, a as int),
        decreases n - a,
    {
        a += 1;
    }
    proof {
        assert(skip_ws_from(command@, 0) == a as int);
    }
    if a == n {
        let r = String::new();
        proof {
            assert(r@ =~= command_name_spec(command@));
        }
        return r;
    }
    let b = command_token_end(command, a);
    command.substring_char(a, b).to_owned()
}

/// The commands that need a full pseudo-terminal and cannot run as a
/// one-shot execution.
pub open spec fn is_interactive_spec(s: Seq<char>) -> bool {
    let n = command_name_spec(s);
    ||| n == "top"@
    ||| n == "htop"@
    ||| n == "vim"@
    ||| n == "vi"@
    ||| n == "nano"@
    ||| n == "emacs"@
    ||| n == "less"@
    ||| n == "more"@
    ||| n == "man"@
    ||| n == "tmux"@
    ||| n == "screen"@
}

/// Recognises a command that needs a full terminal.
pub fn is_interactive_command(command: &str) -> (r: bool)
    ensures
        r == is_interactive_spec(command@),
{
    let name = get_command_name(command);
    let n = name.as_str();
    str_eq(n, "top") || str_eq(n, "htop") || str_eq(n, "vim") || str_eq(n, "vi")
        || str_eq(n, "nano") || str_eq(n, "emacs") || str_eq(n, "less") || str_eq(n, "more")
        || str_eq(n, "man") || str_eq(n, "tmux") || str_eq(n, "screen")
}

/// The batch-mode rewriting of a command line: `top` gains one-shot
/// batch flags, `htop` becomes batch `top`, everything else passes
/// through unchanged.
pub open spec fn transform_spec(s: Seq<char>) -> Seq<char> {
    let t = trim_spec(s);
    if t == "top"@ || starts_with_spec(t, "top "@) {
        t + " -bn1"@
    } else if t == "htop"@ || starts_with_spec(t, "htop "@) {
        "top -bn1"@
    } else {
        s
    }
}

/// Rewrites an interactive command into a batch form where one exists.
pub fn transform_interactive_command(command: &str) -> (r: String)
    ensures
        r@ == transform_spec(command@),
{
    let cmd = str_trim(command);
    if str_eq(cmd, "top") || str_starts_with(cmd, "top ") {
        let mut out = cmd.to_owned();
        out.append(" -bn1");
        out
    } else if str_eq(cmd, "htop") || str_starts_with(cmd, "htop ") {
        "top -bn1".to_owned()
    } else {
        command.to_owned()
    }
}

/// The authentication method a connect request names: `password`
/// demands a password, `publickey` demands a key path; anything else is
/// rejected.
pub fn auth_method_from_request(request: &ConnectRequest) -> (r: Result<AuthMethod, CommandResponse>)
    ensures
        match r {
            Result::Ok(m) => {
                ||| {
                    &&& request.auth_method@ == "password"@
                    &&& request.password is Some
                    &&& m matches AuthMethod::Password { password }
                        && password@ == request.password->Some_0@
                }
                ||| {
                    &&& request.auth_method@ == "publickey"@
                    &&& request.key_path is Some
                    &&& m matches AuthMethod::PublicKey { key_path, passphrase }
                        && key_path@ == request.key_path->Some_0@
                        && (passphrase is Some <==> request.passphrase is Some)
                        && (passphrase is Some ==> passphrase->0@ == request.passphrase->Some_0@)
                }
            },
            Result::Err(resp) => {
                &&& !resp.success
                &&& (request.auth_method@ != "password"@ && request.auth_method@ != "publickey"@)
                    || (request.auth_method@ == "password"@ && request.password is None)
                    || (request.auth_method@ == "publickey"@ && request.key_path is None)
            },
        },
{
    let method = request.auth_method.as_str();
    if str_eq(method, "password") {
        match &request.password {
            Some(p) => Ok(AuthMethod::Password { password: p.clone() }),
            None => Err(CommandResponse {
                success: false,
                output: None,
                error: Some("password required".to_owned()),
            }),
        }
    } else if str_eq(method, "publickey") {
        match &request.key_path {
            Some(k) => Ok(AuthMethod::PublicKey {
                key_path: k.clone(),
                passphrase: match &request.passphrase {
                    Some(p) => Some(p.clone()),
                    None => None,
                },
            }),
            None => Err(CommandResponse {
                success: false,
                output: None,
                error: Some("key path required".to_owned()),
            }),
        }
    } else {
        Err(CommandResponse {
            success: false,
            output: None,
            error: Some("invalid auth method".to_owned()),
        })
    }
}

} // verus!
