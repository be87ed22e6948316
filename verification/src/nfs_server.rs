//! Decisions and remote commands for transferring the audited NFS server
//! setup script to the configured SSH host. The SSH sessions, the local
//! hash and the interactive sudo prompt are driven by the caller.
use vstd::prelude::*;
use crate::text::{
    chars_of, first_word, first_word_exec, has_prefix, is_ascii_alnum, is_ascii_digit,
    is_ascii_hex, shell_quote, decimal, all_digits, lemma_decimal_grows, single_quoted, split_on, split_on_exec, starts_with, trim,
    trim_exec, ascii_alnum,
};
use crate::workspace::Workspace;

verus! {

/// What the remote script is asked to do.
#[derive(Clone, Copy, Debug, PartialEq, Eq, Structural)]
pub enum Action {
    Setup,
    Remove,
}

impl Action {
    pub open spec fn name_spec(self) -> Seq<char> {
        match self {
            Action::Setup => "setup"@,
            Action::Remove => "remove"@,
        }
    }

    /// The script's subcommand.
    pub fn name(self) -> (r: &'static str)
        ensures
            r@ == self.name_spec(),
    {
        match self {
            Action::Setup => "setup",
            Action::Remove => "remove",
        }
    }
}

/// The remote command that stores standard input in a fresh private file
/// and prints its path.
pub const REMOTE_STAGE: &'static str = "umask 077; p=$(mktemp /tmp/rws-nfs-stage.XXXXXXXX) && cat > \"$p\" && printf '%s\\n' \"$p\"";

/// The remote command that prints the SSH client's address.
pub const CLIENT_ADDRESS: &'static str = "printf '%s\\n' \"${SSH_CLIENT%% *}\"";

/// One literal shell word.
pub fn quote(value: &str) -> (q: String)
    ensures
        q@ == single_quoted(value@),
{
    shell_quote(value)
}

/// `u8::from_str`: an optional `+`, then at least one digit, at most 255.
pub open spec fn parse_u8_spec(s: Seq<char>) -> Option<int> {
    let d = if s.len() > 0 && s[0] == '+' {
        s.skip(1)
    } else {
        s
    };
    if d.len() > 0 && all_digits(d) && decimal(d) <= 255 {
        Some(decimal(d))
    } else {
        None
    }
}

/// Parses a decimal byte as `str::parse::<u8>` does.
pub fn parse_u8(s: &str) -> (r: Option<u8>)
    ensures
        match r {
            Some(v) => parse_u8_spec(s@) == Some(v as int),
            None => parse_u8_spec(s@) is None,
        },
{
    let v = chars_of(s);
    let start: usize = if v.len() > 0 && v[0] == '+' { 1 } else { 0 };
    let ghost d = if s@.len() > 0 && s@[0] == '+' { s@.skip(1) } else { s@ };
    assert(d =~= v@.skip(start as int));
    if start == v.len() {
        return None;
    }
    let mut value: u32 = 0;
    let mut i: usize = start;
    while i < v.len()
        invariant
            v@ == s@,
            start <= i <= v@.len(),
            d =~= v@.skip(start as int),
            d == (if s@.len() > 0 && s@[0] == '+' { s@.skip(1) } else { s@ }),
            all_digits(d.take(i - start)),
            value as int == decimal(d.take(i - start)),
            value <= 255,
        decreases v.len() - i,
    {
        let c = v[i];
        let ghost k = i - start;
        proof {
            assert(d.take(k + 1).drop_last() =~= d.take(k));
            assert(d[k] == c);
        }
        if !('0' <= c && c <= '9') {
            proof {
                assert(!is_ascii_digit(d[k]));
            }
            return None;
        }
        value = value * 10 + (c as u32 - '0' as u32);
        i += 1;
        if value > 255 {
            proof {
                if all_digits(d) {
                    lemma_decimal_grows(d, k + 1);
                }
            }
            return None;
        }
    }
    proof {
        assert(d.take(i - start) =~= d);
    }
    Some(value as u8)
}

/// Four dotted bytes, the first of them 100 (Tailscale's CGNAT range).
pub open spec fn valid_tailscale_ip_spec(address: Seq<char>) -> bool {
    let parts = split_on(address, '.');
    &&& forall|i: int| 0 <= i < parts.len() ==> (#[trigger] parse_u8_spec(parts[i])) is Some
    &&& parts.len() == 4
    &&& parse_u8_spec(parts[0]) == Some(100int)
}

pub fn valid_tailscale_ip(address: &str) -> (b: bool)
    ensures
        b == valid_tailscale_ip_spec(address@),
{
    let parts = split_on_exec(address, '.');
    let mut first: Option<u8> = None;
    let mut i: usize = 0;
    while i < parts.len()
        invariant
            parts.deep_view() == split_on(address@, '.'),
            i <= parts.len(),
            forall|j: int| 0 <= j < i ==> (#[trigger] parse_u8_spec(parts.deep_view()[j])) is Some,
            i > 0 ==> (first matches Some(f) && parse_u8_spec(parts.deep_view()[0]) == Some(f as int)),
        decreases parts.len() - i,
    {
        assert(parts.deep_view()[i as int] == parts@[i as int]@);
        match parse_u8(parts[i].as_str()) {
            None => {
                return false;
            },
            Some(b) => {
                if i == 0 {
                    first = Some(b);
                }
            },
        }
        i += 1;
    }
    proof {
        crate::text::lemma_split_on_nonempty(address@, '.');
    }
    match first {
        Some(f) => parts.len() == 4 && f == 100,
        None => false,
    }
}

pub open spec fn digest_spec(output: Seq<char>) -> Result<Seq<char>, Seq<char>> {
    match first_word(output) {
        None => Err("missing script SHA-256"@),
        Some(h) => if h.len() == 64 && forall|i: int| 0 <= i < h.len() ==> is_ascii_hex(#[trigger] h[i]) {
            Ok(h)
        } else {
            Err("invalid script SHA-256"@)
        },
    }
}

/// The SHA-256 that `shasum` or `sha256sum` printed first.
pub fn digest(output: &str) -> (r: Result<String, String>)
    ensures
        r matches Ok(h) ==> digest_spec(output@) == Ok::<Seq<char>, Seq<char>>(h@),
        r matches Err(e) ==> digest_spec(output@) == Err::<Seq<char>, Seq<char>>(e@),
{
    let hash = match first_word_exec(output) {
        None => {
            return Err(String::from_str("missing script SHA-256"));
        },
        Some(h) => h,
    };
    let v = chars_of(hash.as_str());
    if v.len() != 64 {
        return Err(String::from_str("invalid script SHA-256"));
    }
    let mut i: usize = 0;
    while i < v.len()
        invariant
            v@ == hash@,
            first_word(output@) == Some(hash@),
            v@.len() == 64,
            i <= v@.len(),
            forall|j: int| 0 <= j < i ==> is_ascii_hex(#[trigger] v@[j]),
        decreases v.len() - i,
    {
        let c = v[i];
        if !(('0' <= c && c <= '9') || ('a' <= c && c <= 'f') || ('A' <= c && c <= 'F')) {
            assert(!is_ascii_hex(v@[i as int]));
            return Err(String::from_str("invalid script SHA-256"));
        }
        i += 1;
    }
    Ok(hash)
}

pub open spec fn stage_char(c: char) -> bool {
    is_ascii_alnum(c) || c == '.' || c == '/' || c == '-' || c == '_'
}

pub open spec fn stage_path_spec(output: Seq<char>) -> Result<Seq<char>, Seq<char>> {
    let p = trim(output);
    if has_prefix(p, "/tmp/rws-nfs-stage."@) && p.len() <= 100 && forall|i: int|
        0 <= i < p.len() ==> stage_char(#[trigger] p[i]) {
        Ok(p)
    } else {
        Err("remote staging path has an unexpected shape"@)
    }
}

/// The private staging file that the remote `mktemp` created.
pub fn stage_path(output: &str) -> (r: Result<String, String>)
    ensures
        r matches Ok(p) ==> stage_path_spec(output@) == Ok::<Seq<char>, Seq<char>>(p@),
        r matches Err(e) ==> stage_path_spec(output@) == Err::<Seq<char>, Seq<char>>(e@),
{
    let path = trim_exec(output);
    let v = chars_of(path.as_str());
    if !starts_with(path.as_str(), "/tmp/rws-nfs-stage.") || v.len() > 100 {
        return Err(String::from_str("remote staging path has an unexpected shape"));
    }
    let mut i: usize = 0;
    while i < v.len()
        invariant
            v@ == path@,
            path@ == trim(output@),
            i <= v@.len(),
            forall|j: int| 0 <= j < i ==> stage_char(#[trigger] v@[j]),
        decreases v.len() - i,
    {
        let c = v[i];
        if !(ascii_alnum(c) || c == '.' || c == '/' || c == '-' || c == '_') {
            assert(!stage_char(v@[i as int]));
            return Err(String::from_str("remote staging path has an unexpected shape"));
        }
        i += 1;
    }
    Ok(path)
}

pub open spec fn client_ip_spec(output: Seq<char>) -> Result<Seq<char>, Seq<char>> {
    let a = trim(output);
    if valid_tailscale_ip_spec(a) {
        Ok(a)
    } else {
        Err("SSH did not arrive from a Tailscale IPv4 address"@)
    }
}

/// The Mac's address as the server saw it, from the output of
/// [`CLIENT_ADDRESS`].
pub fn client_ip(output: &str) -> (r: Result<String, String>)
    ensures
        r matches Ok(a) ==> client_ip_spec(output@) == Ok::<Seq<char>, Seq<char>>(a@),
        r matches Err(e) ==> client_ip_spec(output@) == Err::<Seq<char>, Seq<char>>(e@),
{
    let a = trim_exec(output);
    if !valid_tailscale_ip(a.as_str()) {
        return Err(String::from_str("SSH did not arrive from a Tailscale IPv4 address"));
    }
    Ok(a)
}

/// The server's own address must be a Tailscale address too.
pub fn check_server_ip(server_ip: &str) -> (r: Result<(), String>)
    ensures
        r is Ok <==> valid_tailscale_ip_spec(server_ip@),
        r matches Err(e) ==> e@ == "the SSH endpoint must resolve to a Tailscale IPv4 address"@,
{
    if !valid_tailscale_ip(server_ip) {
        return Err(String::from_str("the SSH endpoint must resolve to a Tailscale IPv4 address"));
    }
    Ok(())
}

/// `sha256sum -- 'STAGED'`.
pub fn hash_command(staged: &str) -> (c: String)
    ensures
        c@ == "sha256sum -- "@ + single_quoted(staged@),
{
    let mut c = String::from_str("sha256sum -- ");
    c.append(quote(staged).as_str());
    c
}

/// `rm -- 'STAGED'`.
pub fn cleanup_command(staged: &str) -> (c: String)
    ensures
        c@ == "rm -- "@ + single_quoted(staged@),
{
    let mut c = String::from_str("rm -- ");
    c.append(quote(staged).as_str());
    c
}

pub open spec fn setup_command_spec(
    staged: Seq<char>,
    action: Action,
    remote_root: Seq<char>,
    mac_ip: Seq<char>,
    server_ip: Seq<char>,
) -> Seq<char> {
    "sudo /bin/bash "@ + single_quoted(staged) + " "@ + action.name_spec() + " "@ + single_quoted(
        remote_root,
    ) + " "@ + single_quoted(mac_ip) + " "@ + single_quoted(server_ip)
}

/// The privileged command: every variable part is one literal word.
pub fn setup_command(
    staged: &str,
    action: Action,
    remote_root: &str,
    mac_ip: &str,
    server_ip: &str,
) -> (c: String)
    ensures
        c@ == setup_command_spec(staged@, action, remote_root@, mac_ip@, server_ip@),
{
    let mut c = String::from_str("sudo /bin/bash ");
    c.append(quote(staged).as_str());
    c.append(" ");
    c.append(action.name());
    c.append(" ");
    c.append(quote(remote_root).as_str());
    c.append(" ");
    c.append(quote(mac_ip).as_str());
    c.append(" ");
    c.append(quote(server_ip).as_str());
    c
}

/// The remote copy is trusted only when its digest equals the local one.
pub fn hashes_match(remote: &Result<String, String>, local: &str) -> (b: bool)
    ensures
        b <==> (remote matches Ok(h) && h@ == local@),
{
    match remote {
        Ok(h) => crate::text::same_text(h.as_str(), local),
        Err(_) => false,
    }
}

pub open spec fn dry_run_message_spec(
    action: Action,
    w: Workspace,
    mac_ip: Seq<char>,
    server_ip: Seq<char>,
) -> Seq<char> {
    "Would run audited RWS NFS "@ + action.name_spec() + " for "@ + w.name@ + " on "@ + w.host@
        + ": export "@ + w.remote_root@ + ", client "@ + mac_ip + ", server "@ + server_ip
}

/// What a dry run reports instead of touching the server.
pub fn dry_run_message(action: Action, w: &Workspace, mac_ip: &str, server_ip: &str) -> (m: String)
    ensures
        m@ == dry_run_message_spec(action, *w, mac_ip@, server_ip@),
{
    let mut m = String::from_str("Would run audited RWS NFS ");
    m.append(action.name());
    m.append(" for ");
    m.append(w.name.as_str());
    m.append(" on ");
    m.append(w.host.as_str());
    m.append(": export ");
    m.append(w.remote_root.as_str());
    m.append(", client ");
    m.append(mac_ip);
    m.append(", server ");
    m.append(server_ip);
    m
}

/// The result of a setup session, once the staging file's removal was
/// attempted. `session` is the interactive run: whether it exited
/// successfully and how its status reads, or why it could not run.
pub fn outcome(
    action: Action,
    staged: &str,
    session: Result<(bool, String), String>,
    cleanup: Result<(), String>,
) -> (r: Result<(), String>)
    ensures
        cleanup matches Err(e) ==> r matches Err(f) && f@
            == "remote setup finished, but private staging file "@ + staged@
            + " could not be removed: "@ + e@,
        cleanup is Ok ==> match session {
            Err(e) => r == Err::<(), String>(e),
            Ok((true, _)) => r is Ok,
            Ok((false, status)) => r matches Err(f) && f@ == "remote NFS "@ + action.name_spec()
                + " failed with "@ + status@,
        },
{
    if let Err(e) = cleanup {
        let mut f = String::from_str("remote setup finished, but private staging file ");
        f.append(staged);
        f.append(" could not be removed: ");
        f.append(e.as_str());
        return Err(f);
    }
    match session {
        Err(e) => Err(e),
        Ok((true, _)) => Ok(()),
        Ok((false, status)) => {
            let mut f = String::from_str("remote NFS ");
            f.append(action.name());
            f.append(" failed with ");
            f.append(status.as_str());
            Err(f)
        },
    }
}

} // verus!
