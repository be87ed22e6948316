//! Native macOS NFS transport: the mount command and its identity rules.
use vstd::prelude::*;
use crate::lifecycle::MountIdentity;
use crate::paths::{components, file_name, file_name_of, parent, parent_of, same_path, same_path_exec};
use crate::text::{
    ascii_alnum, chars_of, contains_str, ends_with, has_suffix, is_ascii_alnum, lines, lines_of,
    same_text, split_once, split_once_exec, trim, trim_exec,
};
use crate::workspace::Workspace;

verus! {

pub open spec fn endpoint_char(c: char) -> bool {
    is_ascii_alnum(c) || c == '.' || c == '-' || c == '_'
}

/// An IPv4 address or DNS name: non-empty, letters, digits, `.`, `-`, `_`.
pub open spec fn valid_endpoint(e: Seq<char>) -> bool {
    e.len() > 0 && forall|i: int| 0 <= i < e.len() ==> endpoint_char(#[trigger] e[i])
}

fn check_endpoint(e: &str) -> (b: bool)
    ensures
        b == valid_endpoint(e@),
{
    let v = chars_of(e);
    if v.len() == 0 {
        return false;
    }
    let mut i: usize = 0;
    while i < v.len()
        invariant
            v@ == e@,
            i <= v@.len(),
            forall|j: int| 0 <= j < i ==> endpoint_char(#[trigger] v@[j]),
        decreases v.len() - i,
    {
        let c = v[i];
        if !(ascii_alnum(c) || c == '.' || c == '-' || c == '_') {
            assert(!endpoint_char(v@[i as int]));
            return false;
        }
        i += 1;
    }
    true
}

/// An IPv4 address or an ordinary DNS name: a non-empty run of ASCII
/// letters, digits, dots, hyphens and underscores.
pub open spec fn dns_name(e: Seq<char>) -> bool {
    e.len() > 0 && forall|i: int|
        0 <= i < e.len() ==> ('a' <= #[trigger] e[i] <= 'z') || ('A' <= e[i] <= 'Z') || ('0' <= e[i] <= '9')
            || e[i] == '.' || e[i] == '-' || e[i] == '_'
}

/// Exactly the IPv4 addresses and DNS names are NFS endpoints: every such
/// name (a hyphenated one too) gives the export root `NAME:/`, and anything
/// else is refused.
pub proof fn lemma_dns_names_are_endpoints(e: Seq<char>)
    ensures
        valid_endpoint(e) <==> dns_name(e),
        dns_name(e) ==> source_spec(e) == Ok::<Seq<char>, Seq<char>>(e + ":/"@),
        !dns_name(e) ==> source_spec(e) is Err,
{
    if dns_name(e) {
        assert forall|i: int| 0 <= i < e.len() implies endpoint_char(#[trigger] e[i]) by {
            assert(dns_name(e));
        }
    }
    if valid_endpoint(e) {
        assert forall|i: int| 0 <= i < e.len() implies ('a' <= #[trigger] e[i] <= 'z') || ('A' <= e[i] <= 'Z')
            || ('0' <= e[i] <= '9') || e[i] == '.' || e[i] == '-' || e[i] == '_' by {
            assert(endpoint_char(e[i]));
        }
    }
}

/// The host that `ssh -G` resolved is accepted for NFS exactly when it is
/// a DNS name or IPv4 address.
pub proof fn lemma_resolved_dns_host_is_accepted(output: Seq<char>)
    ensures
        first_hostname(lines(output)) matches Some(h) ==> (dns_name(h) <==> parse_ssh_hostname_spec(output)
            == Ok::<Seq<char>, Seq<char>>(h)),
{
    if first_hostname(lines(output)) is Some {
        lemma_dns_names_are_endpoints(first_hostname(lines(output))->Some_0);
    }
}

/// The value of a `hostname KEY` line of `ssh -G` output, trimmed.
pub open spec fn line_hostname(line: Seq<char>) -> Option<Seq<char>> {
    match split_once(line, seq![' ']) {
        Some((key, value)) => if key == "hostname"@ {
            Some(trim(value))
        } else {
            None
        },
        None => None,
    }
}

/// The first line that names the host.
pub open spec fn first_hostname(ls: Seq<Seq<char>>) -> Option<Seq<char>>
    decreases ls.len(),
{
    if ls.len() == 0 {
        None
    } else {
        match first_hostname(ls.drop_last()) {
            Some(h) => Some(h),
            None => line_hostname(ls.last()),
        }
    }
}

pub open spec fn parse_ssh_hostname_spec(output: Seq<char>) -> Result<Seq<char>, Seq<char>> {
    match first_hostname(lines(output)) {
        None => Err("SSH configuration did not provide a HostName"@),
        Some(h) => if valid_endpoint(h) {
            Ok(h)
        } else {
            Err("NFS requires an IPv4 address or DNS name in SSH HostName"@)
        },
    }
}

/// Reads the resolved host from `ssh -G` output. The NFS client does not read
/// `~/.ssh/config`, so the alias must be resolved through SSH first.
pub fn parse_ssh_hostname(output: &str) -> (r: Result<String, String>)
    ensures
        r matches Ok(h) ==> parse_ssh_hostname_spec(output@) == Ok::<Seq<char>, Seq<char>>(h@),
        r matches Err(e) ==> parse_ssh_hostname_spec(output@) == Err::<Seq<char>, Seq<char>>(e@),
        r matches Ok(h) ==> dns_name(h@),
        first_hostname(lines(output@)) matches Some(h) ==> (dns_name(h) ==> (r matches Ok(g) && g@ == h)),
{
    proof {
        lemma_resolved_dns_host_is_accepted(output@);
    }
    let ls = lines_of(output);
    let mut i: usize = 0;
    proof {
        assert(ls.deep_view().take(0) =~= Seq::<Seq<char>>::empty());
        reveal_strlit(" ");
        assert(" "@ =~= seq![' ']);
    }
    while i < ls.len()
        invariant
            ls.deep_view() == lines(output@),
            i <= ls.len(),
            first_hostname(ls.deep_view().take(i as int)) is None,
            " "@ == seq![' '],
        decreases ls.len() - i,
    {
        let ghost t = ls.deep_view().take(i + 1);
        proof {
            assert(t.drop_last() =~= ls.deep_view().take(i as int));
            assert(t.last() == ls@[i as int]@);
        }
        if let Some((key, value)) = split_once_exec(ls[i].as_str(), " ") {
            if same_text(key.as_str(), "hostname") {
                let h = trim_exec(value.as_str());
                proof {
                    assert(first_hostname(t) == Some(h@));
                    lemma_first_hostname_prefix(ls.deep_view(), i + 1);
                }
                if !check_endpoint(h.as_str()) {
                    return Err(String::from_str("NFS requires an IPv4 address or DNS name in SSH HostName"));
                }
                return Ok(h);
            }
        }
        i += 1;
    }
    proof {
        assert(ls.deep_view().take(i as int) =~= ls.deep_view());
    }
    Err(String::from_str("SSH configuration did not provide a HostName"))
}

proof fn lemma_first_hostname_prefix(ls: Seq<Seq<char>>, n: int)
    requires
        0 <= n <= ls.len(),
        first_hostname(ls.take(n)) is Some,
    ensures
        first_hostname(ls) == first_hostname(ls.take(n)),
    decreases ls.len() - n,
{
    if n == ls.len() {
        assert(ls.take(n) =~= ls);
    } else {
        assert(ls.drop_last().take(n) =~= ls.take(n));
        lemma_first_hostname_prefix(ls.drop_last(), n);
    }
}

pub open spec fn source_spec(endpoint: Seq<char>) -> Result<Seq<char>, Seq<char>> {
    if valid_endpoint(endpoint) {
        Ok(endpoint + ":/"@)
    } else {
        Err("NFS endpoint must be an IPv4 address or DNS name"@)
    }
}

/// The NFSv4 pseudoroot of the dedicated export on `endpoint`.
pub fn source(endpoint: &str) -> (r: Result<String, String>)
    ensures
        r matches Ok(s) ==> source_spec(endpoint@) == Ok::<Seq<char>, Seq<char>>(s@),
        r matches Err(e) ==> source_spec(endpoint@) == Err::<Seq<char>, Seq<char>>(e@),
        dns_name(endpoint@) ==> (r matches Ok(s) && s@ == endpoint@ + ":/"@),
{
    proof {
        lemma_dns_names_are_endpoints(endpoint@);
    }
    if !check_endpoint(endpoint) {
        return Err(String::from_str("NFS endpoint must be an IPv4 address or DNS name"));
    }
    let mut s = endpoint.to_owned();
    s.append(":/");
    Ok(s)
}

/// The mount point is `/Volumes/RWS-NAME` for the workspace's own name.
pub open spec fn is_rws_volume(w: Workspace) -> bool {
    &&& parent(w.mount_root@) matches Some(p) && same_path(p, "/Volumes"@)
    &&& file_name(w.mount_root@) == Some("RWS-"@ + w.name@)
}

pub open spec fn mountpoint_error(w: Workspace) -> Option<Seq<char>> {
    if !w.is_valid() {
        w.validation_error()
    } else if !is_rws_volume(w) {
        Some("native NFS mount point must be /Volumes/RWS-NAME"@)
    } else {
        None
    }
}

/// Only RWS-owned volume names are eligible for privileged creation.
pub fn validate_mountpoint_path(workspace: &Workspace) -> (r: Result<&str, String>)
    ensures
        r is Ok <==> mountpoint_error(*workspace) is None,
        r matches Ok(p) ==> p@ == workspace.mount_root@,
        r matches Err(e) ==> mountpoint_error(*workspace) == Some(e@),
{
    workspace.validate()?;
    let root = workspace.mount_root.as_str();
    let ok_parent = match parent_of(root) {
        Some(p) => same_path_exec(p.as_str(), "/Volumes"),
        None => false,
    };
    let mut expected = String::from_str("RWS-");
    expected.append(workspace.name.as_str());
    let ok_name = match file_name_of(root) {
        Some(n) => same_text(n.as_str(), expected.as_str()),
        None => false,
    };
    if !ok_parent || !ok_name {
        return Err(String::from_str("native NFS mount point must be /Volumes/RWS-NAME"));
    }
    Ok(root)
}

pub open spec fn mount_options() -> Seq<char> {
    "vers=4.0,tcp,hard,intr,nocallback,nfc,port=2049"@
}

pub open spec fn mount_args_spec(w: Workspace, endpoint: Seq<char>) -> Result<Seq<Seq<char>>, Seq<char>> {
    match mountpoint_error(w) {
        Some(e) => Err(e),
        None => match source_spec(endpoint) {
            Err(e) => Err(e),
            Ok(src) => Ok(seq!["-o"@, mount_options(), src, w.mount_root@]),
        },
    }
}

/// `mount_nfs` arguments: NFSv4.0 over TCP with callbacks disabled.
pub fn mount_args(workspace: &Workspace, endpoint: &str) -> (r: Result<Vec<String>, String>)
    ensures
        r matches Ok(v) ==> mount_args_spec(*workspace, endpoint@) == Ok::<Seq<Seq<char>>, Seq<char>>(v.deep_view()),
        r matches Err(e) ==> mount_args_spec(*workspace, endpoint@) == Err::<Seq<Seq<char>>, Seq<char>>(e@),
{
    validate_mountpoint_path(workspace)?;
    let src = source(endpoint)?;
    let mut v: Vec<String> = Vec::new();
    v.push(String::from_str("-o"));
    v.push(String::from_str("vers=4.0,tcp,hard,intr,nocallback,nfc,port=2049"));
    v.push(src);
    v.push(workspace.mount_root.clone());
    assert(v.deep_view() =~= seq!["-o"@, mount_options(), source_spec(endpoint@)->Ok_0, workspace.mount_root@]);
    Ok(v)
}

pub open spec fn matches_source_spec(identity: MountIdentity) -> bool {
    identity.filesystem@ == "nfs"@ && has_suffix(identity.source@, ":/"@) && identity.source@.len() >= 3
}

/// An NFS volume whose source is `HOST:/`, the dedicated export root.
pub fn matches_source(_workspace: &Workspace, identity: &MountIdentity) -> (b: bool)
    ensures
        b == matches_source_spec(*identity),
{
    same_text(identity.filesystem.as_str(), "nfs") && ends_with(identity.source.as_str(), ":/")
        && identity.source.unicode_len() >= 3
}

/// What to do after the first attempt of an NFS attestation.
pub enum RetryStep {
    Finished(Result<(), String>),
    RetryOnce,
}

pub open spec fn is_initial_read_timeout(error: Seq<char>) -> bool {
    crate::text::contains_seq(error, "/bin/cat timed out after 12s"@)
}

/// A new macOS NFS volume can fail its first read while it negotiates;
/// only that timeout earns one more attempt.
pub fn after_first_attempt(first: Result<(), String>) -> (step: RetryStep)
    ensures
        match first {
            Ok(()) => step == RetryStep::Finished(Ok(())),
            Err(e) => if is_initial_read_timeout(e@) {
                step == RetryStep::RetryOnce
            } else {
                step == RetryStep::Finished(Err::<(), String>(e))
            },
        },
{
    match first {
        Ok(()) => RetryStep::Finished(Ok(())),
        Err(e) => {
            if contains_str(e.as_str(), "/bin/cat timed out after 12s") {
                RetryStep::RetryOnce
            } else {
                RetryStep::Finished(Err(e))
            }
        },
    }
}

/// The outcome of the one retry.
pub fn after_retry(second: Result<(), String>) -> (r: Result<(), String>)
    ensures
        second is Ok ==> r is Ok,
        second matches Err(e) ==> r matches Err(f) && f@ == "initial NFS proof read timed out; retry failed: "@ + e@,
{
    match second {
        Ok(()) => Ok(()),
        Err(e) => {
            let mut f = String::from_str("initial NFS proof read timed out; retry failed: ");
            f.append(e.as_str());
            Err(f)
        },
    }
}

} // verus!

verus! {

/// What `ssh -G HOST` produced: whether it succeeded, how its exit status
/// reads, and its standard output (or why it is not UTF-8).
pub struct SshConfigOutput {
    pub success: bool,
    pub status: String,
    pub stdout: Result<String, String>,
}

pub open spec fn resolve_endpoint_spec(w: Workspace, ran: Result<SshConfigOutput, String>) -> Result<Seq<char>, Seq<char>> {
    if !w.is_valid() {
        Err(w.validation_error().unwrap())
    } else {
        match ran {
            Err(e) => Err(e@),
            Ok(o) => if !o.success {
                Err("resolve SSH host for NFS: "@ + o.status@)
            } else {
                match o.stdout {
                    Err(e) => Err(e@),
                    Ok(text) => parse_ssh_hostname_spec(text@),
                }
            },
        }
    }
}

/// The NFS endpoint of the workspace's SSH alias, resolved by `ssh -G`
/// exactly as remote commands resolve it: the NFS client does not read
/// `~/.ssh/config`, so an unresolved alias would fail.
pub fn resolve_endpoint(workspace: &Workspace, ran: Result<SshConfigOutput, String>) -> (r: Result<String, String>)
    ensures
        r matches Ok(h) ==> resolve_endpoint_spec(*workspace, ran) == Ok::<Seq<char>, Seq<char>>(h@),
        r matches Err(e) ==> resolve_endpoint_spec(*workspace, ran) == Err::<Seq<char>, Seq<char>>(e@),
        r matches Ok(h) ==> dns_name(h@),
{
    workspace.validate()?;
    let o = ran?;
    if !o.success {
        let mut e = String::from_str("resolve SSH host for NFS: ");
        e.append(o.status.as_str());
        return Err(e);
    }
    let text = o.stdout?;
    parse_ssh_hostname(text.as_str())
}

} // verus!

verus! {

/// Attestation with one retry: `first` is the outcome of the first
/// attestation and `retry` runs it again. A new macOS NFS volume can fail
/// its first read while it negotiates, so only that bounded read timeout
/// earns the second attempt; a mismatch, an identity change or a failed
/// cleanup stays a failure.
pub fn attest<F: FnOnce() -> Result<(), String>>(first: Result<(), String>, retry: F) -> (r: Result<(), String>)
    requires
        first matches Err(e) ==> (is_initial_read_timeout(e@) ==> retry.requires(())),
    ensures
        first is Ok ==> r is Ok,
        first matches Err(e) ==> (!is_initial_read_timeout(e@) ==> r == Err::<(), String>(e)),
        first matches Err(e) ==> (is_initial_read_timeout(e@) ==> exists|second: Result<(), String>|
            #![trigger retry.ensures((), second)]
            retry.ensures((), second) && (second is Ok ==> r is Ok) && (second matches Err(s) ==> (
            r matches Err(f) && f@ == "initial NFS proof read timed out; retry failed: "@ + s@))),
{
    let ghost f0 = first;
    match after_first_attempt(first) {
        RetryStep::Finished(result) => result,
        RetryStep::RetryOnce => {
            let ghost g = retry;
            let second = retry();
            assert(g.ensures((), second));
            after_retry(second)
        },
    }
}

} // verus!
