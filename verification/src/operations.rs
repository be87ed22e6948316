//! The decisions of the command-line operations: when an existing mount is
//! kept, repaired, adopted or refused, how desired state is recorded, and
//! the exact commands that are run. The caller performs each step.
use vstd::prelude::*;
use crate::config::{Config, MountIntent, MountOptions};
use crate::paths::{join, join_path, parent, parent_of, same_path, same_path_exec};
use crate::text::{contains_seq, contains_str, decimal_digits, decimal_string, join_with, opt_view};
use crate::workspace::Workspace;
use crate::lifecycle::MountIdentity;

verus! {

/// `(status line, unhealthy)` for a verified mount after its I/O probe.
pub fn mount_health_status(name: &str, health: Result<(), String>) -> (r: (String, bool))
    ensures
        match health {
            Ok(()) => r.0@ == "connected (verified RWS mount)"@ && !r.1,
            Err(reason) => r.0@ == "connected (unresponsive mount: "@ + reason@
                + "); repair with: rws connect "@ + name@ + " --repair"@ && r.1,
        },
{
    match health {
        Ok(()) => (String::from_str("connected (verified RWS mount)"), false),
        Err(reason) => {
            let mut s = String::from_str("connected (unresponsive mount: ");
            s.append(reason.as_str());
            s.append("); repair with: rws connect ");
            s.append(name);
            s.append(" --repair");
            (s, true)
        },
    }
}

/// What to do with a verified existing mount. A healthy mount is left
/// alone (`Ok(false)`), and an explicit repair of it is refused; an
/// unresponsive one is ejected through `eject` only on explicit repair,
/// after which `Ok(true)` permits the reconnect.
pub fn reconcile_verified_mount<F: FnOnce(String) -> Result<(), String>>(
    name: &str,
    health: Result<(), String>,
    repair: bool,
    eject: F,
) -> (r: Result<bool, String>)
    requires
        health matches Err(reason) ==> (repair ==> eject.requires((reason,))),
    ensures
        health is Ok && !repair ==> r == Ok::<bool, String>(false),
        health is Ok && repair ==> (r matches Err(e) && e@
            == "mount answers normally; nothing to repair. Use disconnect to unmount deliberately"@),
        health matches Err(reason) ==> (!repair ==> (r matches Err(e) && e@
            == "mount is unresponsive ("@ + reason@
            + "). Close files using the volume, then run: rws connect "@ + name@
            + " --repair. Unsaved writes on the dead mount may be lost"@)),
        health matches Err(reason) ==> (repair ==> exists|ejected: Result<(), String>|
            #![trigger eject.ensures((reason,), ejected)]
            eject.ensures((reason,), ejected) && match ejected {
                Ok(()) => r == Ok::<bool, String>(true),
                Err(e) => r == Err::<bool, String>(e),
            }),
{
    match health {
        Ok(()) => {
            if repair {
                Err(String::from_str("mount answers normally; nothing to repair. Use disconnect to unmount deliberately"))
            } else {
                Ok(false)
            }
        },
        Err(reason) => {
            if repair {
                let ghost rg = reason;
                let ghost f = eject;
                let ejected = eject(reason);
                assert(f.ensures((rg,), ejected));
                let r = match ejected {
                    Ok(()) => Ok(true),
                    Err(e) => Err(e),
                };
                assert(match ejected {
                    Ok(()) => r == Ok::<bool, String>(true),
                    Err(e) => r == Err::<bool, String>(e),
                });
                r
            } else {
                let mut e = String::from_str("mount is unresponsive (");
                e.append(reason.as_str());
                e.append("). Close files using the volume, then run: rws connect ");
                e.append(name);
                e.append(" --repair. Unsaved writes on the dead mount may be lost");
                Err(e)
            }
        },
    }
}

/// `ssh` arguments: a terminal or none, a connection timeout, the host and
/// the remote script.
pub fn ssh_args(host: &str, script: String, tty: bool) -> (r: Vec<String>)
    ensures
        r.deep_view() == seq![
            if tty { "-t"@ } else { "-T"@ },
            "-o"@,
            "ConnectTimeout=10"@,
            "--"@,
            host@,
            script@,
        ],
{
    let mut r: Vec<String> = Vec::new();
    r.push(String::from_str(if tty { "-t" } else { "-T" }));
    r.push(String::from_str("-o"));
    r.push(String::from_str("ConnectTimeout=10"));
    r.push(String::from_str("--"));
    r.push(host.to_owned());
    let ghost s = script@;
    r.push(script);
    assert(r.deep_view() =~= seq![
        if tty { "-t"@ } else { "-T"@ },
        "-o"@,
        "ConnectTimeout=10"@,
        "--"@,
        host@,
        s,
    ]);
    r
}

pub open spec fn matching_count(remotes: Seq<Result<String, String>>) -> nat
    decreases remotes.len(),
{
    if remotes.len() == 0 {
        0
    } else {
        matching_count(remotes.drop_last()) + if remotes.last() is Ok {
            1nat
        } else {
            0nat
        }
    }
}

/// The workspace of a command: the named one at its remote root, or else
/// the only workspace whose mount contains the current directory. `remotes`
/// holds, per workspace, the remote directory of the current directory or
/// why it has none.
pub fn resolve(config: &Config, name: Option<&str>, remotes: &[Result<String, String>]) -> (r: Result<(Workspace, String), String>)
    requires
        remotes@.len() == config.workspaces@.len(),
    ensures
        name matches Some(n) ==> match r {
            Ok((w, remote)) => crate::config::first_named(config.workspaces@, n@) matches Some(i)
                && w == config.workspaces@[i] && remote@ == w.remote_root@,
            Err(e) => crate::config::first_named(config.workspaces@, n@) is None && e@
                == crate::config::unknown_workspace_error(n@),
        },
        name is None ==> match r {
            Ok((w, remote)) => matching_count(remotes@) == 1 && exists|i: int|
                0 <= i < remotes@.len() && remotes@[i] == Ok::<String, String>(remote) && w
                    == config.workspaces@[i],
            Err(e) => matching_count(remotes@) != 1 && e@
                == "current directory must match exactly one workspace; use --workspace NAME"@,
        },
{
    if let Some(n) = name {
        let w = config.find(n)?;
        let w = w.duplicate();
        let remote = w.remote_root.clone();
        return Ok((w, remote));
    }
    let mut found: Option<usize> = None;
    let mut count: usize = 0;
    let mut i: usize = 0;
    proof {
        assert(remotes@.take(0) =~= Seq::<Result<String, String>>::empty());
    }
    while i < remotes.len()
        invariant
            i <= remotes@.len(),
            remotes@.len() == config.workspaces@.len(),
            count as nat == matching_count(remotes@.take(i as int)),
            count <= i,
            count > 0 ==> (found matches Some(k) && k < i && remotes@[k as int] is Ok),
        decreases remotes.len() - i,
    {
        proof {
            assert(remotes@.take(i + 1).drop_last() =~= remotes@.take(i as int));
        }
        if remotes[i].is_ok() {
            count += 1;
            found = Some(i);
        }
        i += 1;
    }
    proof {
        assert(remotes@.take(i as int) =~= remotes@);
    }
    if count != 1 {
        return Err(String::from_str("current directory must match exactly one workspace; use --workspace NAME"));
    }
    let k = found.unwrap();
    let w = config.workspaces[k].duplicate();
    let remote = match &remotes[k] {
        Ok(p) => p.clone(),
        Err(_) => String::new(),
    };
    Ok((w, remote))
}

/// Commands are forwarded only through a connected mount whose identity a
/// receipt vouches for.
pub fn require_verified_mount(mounted: bool, verified: bool) -> (r: Result<(), String>)
    ensures
        !mounted ==> (r matches Err(e) && e@
            == "RWS workspace is disconnected; connect it before forwarding commands"@),
        mounted && !verified ==> (r matches Err(e) && e@
            == "RWS mount identity is unverified; use connect NAME --verify-existing before forwarding commands"@),
        mounted && verified ==> r is Ok,
{
    if !mounted {
        return Err(String::from_str("RWS workspace is disconnected; connect it before forwarding commands"));
    }
    if !verified {
        return Err(String::from_str("RWS mount identity is unverified; use connect NAME --verify-existing before forwarding commands"));
    }
    Ok(())
}

/// Who asked for an operation: the user, or the automatic reconnect.
#[derive(Clone, Copy, Debug, PartialEq, Eq, Structural)]
pub enum OperationOrigin {
    Explicit,
    Automatic,
}

/// A `connect --if-desired` is automatic whoever runs it.
pub fn operation_origin(requested: OperationOrigin, if_desired: bool) -> (o: OperationOrigin)
    ensures
        o == if if_desired { OperationOrigin::Automatic } else { requested },
{
    if if_desired {
        OperationOrigin::Automatic
    } else {
        requested
    }
}

/// What happens to the desired state before a connect or disconnect.
#[derive(Clone, Copy, Debug, PartialEq, Eq, Structural)]
pub enum IntentStep {
    /// An automatic reconnect of a paused workspace does nothing.
    SkipPaused,
    /// Proceed without recording anything.
    Proceed,
    /// Record this desired state first, then proceed.
    Record(MountIntent),
}

/// An explicit connect resumes and an explicit disconnect pauses the
/// automatic reconnect; an automatic operation never writes, and skips a
/// paused workspace.
pub fn intent_step(origin: OperationOrigin, disconnect: bool, current: MountIntent) -> (s: IntentStep)
    ensures
        origin == OperationOrigin::Automatic && current == MountIntent::Paused ==> s == IntentStep::SkipPaused,
        origin == OperationOrigin::Automatic && current == MountIntent::Connected ==> s == IntentStep::Proceed,
        origin == OperationOrigin::Explicit ==> s == IntentStep::Record(
            if disconnect { MountIntent::Paused } else { MountIntent::Connected },
        ),
{
    match origin {
        OperationOrigin::Automatic => match current {
            MountIntent::Paused => IntentStep::SkipPaused,
            MountIntent::Connected => IntentStep::Proceed,
        },
        OperationOrigin::Explicit => IntentStep::Record(
            if disconnect { MountIntent::Paused } else { MountIntent::Connected },
        ),
    }
}

/// A disconnect that fails before its pause is recorded says so.
pub fn pause_error(disconnect: bool, error: String) -> (e: String)
    ensures
        disconnect ==> e@ == error@ + "; auto-reconnect has NOT been paused; retry disconnect"@,
        !disconnect ==> e == error,
{
    if disconnect {
        let mut e = error;
        e.append("; auto-reconnect has NOT been paused; retry disconnect");
        e
    } else {
        error
    }
}

/// What the mount table and the receipts say about the mount point before
/// a connect.
pub enum ExistingMount {
    /// Something not produced for this workspace is mounted there.
    Foreign,
    /// A verified mount and the outcome of its I/O probe.
    Verified(Result<(), String>),
    /// A mount of the expected kind that no receipt vouches for.
    Unverified,
}

/// The next step of a native NFS connect over an existing mount.
#[derive(Clone, Copy, Debug, PartialEq, Eq, Structural)]
pub enum NfsStep {
    AlreadyConnected,
    /// Eject the unresponsive mount, then mount again.
    EjectAndRemount,
    /// Attest the existing mount and record it.
    Adopt,
}

pub fn nfs_existing(name: &str, existing: ExistingMount, repair: bool, verify_existing: bool) -> (r: Result<NfsStep, String>)
    ensures
        match existing {
            ExistingMount::Foreign => r matches Err(e) && e@
                == "another filesystem is mounted at the NFS path; leaving it untouched"@,
            ExistingMount::Verified(Ok(())) => if repair {
                r matches Err(e) && e@ == "mount answers normally; nothing to repair"@
            } else {
                r == Ok::<NfsStep, String>(NfsStep::AlreadyConnected)
            },
            ExistingMount::Verified(Err(reason)) => if repair {
                r == Ok::<NfsStep, String>(NfsStep::EjectAndRemount)
            } else {
                r matches Err(e) && e@ == "NFS mount is unresponsive ("@ + reason@
                    + "); retry when the server returns or use connect "@ + name@
                    + " --repair after closing open files"@
            },
            ExistingMount::Unverified => if verify_existing {
                r == Ok::<NfsStep, String>(NfsStep::Adopt)
            } else {
                r matches Err(e) && e@
                    == "NFS volume is mounted but has no verified RWS receipt; use connect NAME --verify-existing"@
            },
        },
{
    match existing {
        ExistingMount::Foreign => Err(String::from_str("another filesystem is mounted at the NFS path; leaving it untouched")),
        ExistingMount::Verified(Ok(())) => {
            if repair {
                Err(String::from_str("mount answers normally; nothing to repair"))
            } else {
                Ok(NfsStep::AlreadyConnected)
            }
        },
        ExistingMount::Verified(Err(reason)) => {
            if repair {
                Ok(NfsStep::EjectAndRemount)
            } else {
                let mut e = String::from_str("NFS mount is unresponsive (");
                e.append(reason.as_str());
                e.append("); retry when the server returns or use connect ");
                e.append(name);
                e.append(" --repair after closing open files");
                Err(e)
            }
        },
        ExistingMount::Unverified => {
            if verify_existing {
                Ok(NfsStep::Adopt)
            } else {
                Err(String::from_str("NFS volume is mounted but has no verified RWS receipt; use connect NAME --verify-existing"))
            }
        },
    }
}

/// What is at a native NFS mount point before it is prepared.
pub enum MountPointState {
    Absent,
    /// A real directory: whether it is empty (or why its entries could not
    /// be read) and whether the caller owns it.
    Directory { empty: Result<bool, String>, owned: bool },
    /// Something other than a real directory, a symlink among them.
    Other,
    /// Inspecting the path failed.
    Unreadable(String),
}

/// The next step of preparing a native NFS mount point.
#[derive(Clone, Copy, Debug, PartialEq, Eq, Structural)]
pub enum PrepareStep {
    /// An empty directory owned by the caller is already there.
    Ready,
    /// The privileged helper must create or take over the directory.
    RunHelper,
}

pub open spec fn prepare_step_spec(macos: bool, root: Seq<char>, mounted: Result<bool, String>, state: MountPointState) -> Result<PrepareStep, Seq<char>> {
    if !macos || !(parent(root) matches Some(p) && same_path(p, "/Volumes"@)) {
        Err("native NFS preparation requires a direct child of /Volumes on macOS"@)
    } else if mounted is Err {
        Err(mounted->Err_0@)
    } else if mounted == Ok::<bool, String>(true) {
        Err("a filesystem is already mounted at this path; leaving it untouched"@)
    } else {
        match state {
            MountPointState::Absent => Ok(PrepareStep::RunHelper),
            MountPointState::Directory { empty, owned } => match empty {
                Err(e) => Err(e@),
                Ok(false) => Err("existing NFS mount directory is not empty; leaving it untouched"@),
                Ok(true) => if owned {
                    Ok(PrepareStep::Ready)
                } else {
                    Ok(PrepareStep::RunHelper)
                },
            },
            MountPointState::Other => Err("existing NFS mount point is not a real directory"@),
            MountPointState::Unreadable(e) => Err("inspect NFS mount point: "@ + e@),
        }
    }
}

/// Whether a native NFS mount point at `root` (a direct child of
/// `/Volumes`, on macOS) is ready or needs the privileged helper. `mounted`
/// is whether the mount table lists a filesystem there (or why it could not
/// be read). An empty directory owned by someone else, left by an earlier
/// mount, is handed to the helper, which checks it again.
pub fn prepare_step(macos: bool, root: &str, mounted: Result<bool, String>, state: MountPointState) -> (r: Result<PrepareStep, String>)
    ensures
        match prepare_step_spec(macos, root@, mounted, state) {
            Ok(s) => r == Ok::<PrepareStep, String>(s),
            Err(e) => r matches Err(f) && f@ == e,
        },
{
    let under_volumes = match parent_of(root) {
        Some(p) => same_path_exec(p.as_str(), "/Volumes"),
        None => false,
    };
    if !macos || !under_volumes {
        return Err(String::from_str("native NFS preparation requires a direct child of /Volumes on macOS"));
    }
    match mounted {
        Err(e) => {
            return Err(e);
        },
        Ok(true) => {
            return Err(String::from_str("a filesystem is already mounted at this path; leaving it untouched"));
        },
        Ok(false) => {},
    }
    match state {
        MountPointState::Absent => Ok(PrepareStep::RunHelper),
        MountPointState::Directory { empty, owned } => match empty {
            Err(e) => Err(e),
            Ok(false) => Err(String::from_str("existing NFS mount directory is not empty; leaving it untouched")),
            Ok(true) => if owned {
                Ok(PrepareStep::Ready)
            } else {
                Ok(PrepareStep::RunHelper)
            },
        },
        MountPointState::Other => Err(String::from_str("existing NFS mount point is not a real directory")),
        MountPointState::Unreadable(e) => {
            let mut f = String::from_str("inspect NFS mount point: ");
            f.append(e.as_str());
            Err(f)
        },
    }
}

/// After the helper ran: the mount point must be a directory the caller owns.
pub fn check_prepared(is_dir: bool, owned: bool) -> (r: Result<(), String>)
    ensures
        r is Ok <==> is_dir && owned,
        r matches Err(e) ==> e@ == "NFS mount point was not created with the expected owner"@,
{
    if !is_dir || !owned {
        return Err(String::from_str("NFS mount point was not created with the expected owner"));
    }
    Ok(())
}

/// An SSHFS connect over a mount that no receipt vouches for: adopt it when
/// asked to verify it, otherwise leave it untouched.
pub fn sshfs_unverified(verify_existing: bool) -> (r: Result<(), String>)
    ensures
        verify_existing ==> r is Ok,
        !verify_existing ==> (r matches Err(e) && e@
            == "a filesystem is already mounted here, but its identity is unverified; leaving it untouched. Use connect NAME --verify-existing to verify it against SSH without disconnecting"@),
{
    if verify_existing {
        Ok(())
    } else {
        Err(String::from_str("a filesystem is already mounted here, but its identity is unverified; leaving it untouched. Use connect NAME --verify-existing to verify it against SSH without disconnecting"))
    }
}

pub open spec fn sshfs_mount_args_spec(w: Workspace, fskit: bool, raw_names: bool) -> Seq<Seq<char>> {
    let base = seq![
        w.host@ + ":"@ + w.remote_root@,
        w.mount_root@,
        "-o"@,
        "ConnectTimeout=10,ServerAliveInterval=15,ServerAliveCountMax=3,BatchMode=yes"@,
    ];
    let backend = if fskit {
        seq!["-o"@, "backend=fskit"@]
    } else {
        Seq::empty()
    };
    let unicode = if fskit && !raw_names {
        seq!["-o"@, "rws_unicode"@]
    } else {
        Seq::empty()
    };
    base + backend + unicode + seq!["-o"@, "volname=RWS-"@ + w.name@, "-f"@]
}

/// The SSHFS command line for a workspace: the remote root, the mount
/// point, keep-alive options, the FSKit backend and its Unicode option when
/// chosen, the volume name, and foreground operation.
pub fn sshfs_mount_args(w: &Workspace, fskit: bool, raw_names: bool) -> (r: Vec<String>)
    ensures
        r.deep_view() == sshfs_mount_args_spec(*w, fskit, raw_names),
{
    let mut r: Vec<String> = Vec::new();
    let mut source = w.host.clone();
    source.append(":");
    source.append(w.remote_root.as_str());
    r.push(source);
    r.push(w.mount_root.clone());
    r.push(String::from_str("-o"));
    r.push(String::from_str("ConnectTimeout=10,ServerAliveInterval=15,ServerAliveCountMax=3,BatchMode=yes"));
    let ghost base = r.deep_view();
    if fskit {
        r.push(String::from_str("-o"));
        r.push(String::from_str("backend=fskit"));
    }
    let ghost with_backend = r.deep_view();
    if fskit && !raw_names {
        r.push(String::from_str("-o"));
        r.push(String::from_str("rws_unicode"));
    }
    let ghost with_unicode = r.deep_view();
    r.push(String::from_str("-o"));
    let mut volname = String::from_str("volname=RWS-");
    volname.append(w.name.as_str());
    r.push(volname);
    r.push(String::from_str("-f"));
    proof {
        let backend: Seq<Seq<char>> = if fskit {
            seq!["-o"@, "backend=fskit"@]
        } else {
            Seq::empty()
        };
        let unicode: Seq<Seq<char>> = if fskit && !raw_names {
            seq!["-o"@, "rws_unicode"@]
        } else {
            Seq::empty()
        };
        assert(with_backend =~= base + backend);
        assert(with_unicode =~= base + backend + unicode);
        assert(r.deep_view() =~= sshfs_mount_args_spec(*w, fskit, raw_names));
    }
    r
}

/// The SSHFS `source` argument, which also identifies its stale servers.
pub fn sshfs_source(w: &Workspace) -> (s: String)
    ensures
        s@ == w.host@ + ":"@ + w.remote_root@,
{
    let mut s = w.host.clone();
    s.append(":");
    s.append(w.remote_root.as_str());
    s
}

/// FSKit mounts live directly under `/Volumes`.
pub fn check_fskit_mount_point(fskit: bool, w: &Workspace) -> (r: Result<(), String>)
    ensures
        r is Ok <==> (!fskit || (parent(w.mount_root@) matches Some(p) && same_path(p, "/Volumes"@))),
        r matches Err(e) ==> e@ == "FSKit requires a mount point directly under /Volumes"@,
{
    if fskit {
        let ok = match parent_of(w.mount_root.as_str()) {
            Some(p) => same_path_exec(p.as_str(), "/Volumes"),
            None => false,
        };
        if !ok {
            return Err(String::from_str("FSKit requires a mount point directly under /Volumes"));
        }
    }
    Ok(())
}

/// FSKit with Unicode names needs the SSHFS build that converts them.
pub fn check_sshfs_build(fskit: bool, raw_names: bool, version: &str) -> (r: Result<(), String>)
    ensures
        r is Ok <==> !(fskit && !raw_names && !contains_seq(version@, "3.7.5-rws-fskit3"@)),
        r matches Err(e) ==> e@
            == "FSKit Unicode support requires the RWS SSHFS build: run scripts/build-sshfs-fskit.sh and set RWS_SSHFS to its output. Use --raw-names only for intentional unconverted filename access"@,
{
    if fskit && !raw_names && !contains_str(version, "3.7.5-rws-fskit3") {
        return Err(String::from_str("FSKit Unicode support requires the RWS SSHFS build: run scripts/build-sshfs-fskit.sh and set RWS_SSHFS to its output. Use --raw-names only for intentional unconverted filename access"));
    }
    Ok(())
}

/// The SSHFS-only flags do not apply to the native NFS backend.
pub fn check_nfs_flags(fskit: bool, raw_names: bool) -> (r: Result<(), String>)
    ensures
        r is Ok <==> !fskit && !raw_names,
        r matches Err(e) ==> e@ == "--fskit and --raw-names apply only to SSHFS, not native NFS"@,
{
    if fskit || raw_names {
        return Err(String::from_str("--fskit and --raw-names apply only to SSHFS, not native NFS"));
    }
    Ok(())
}

/// `DIR/mount-logs/NAME-PID-NANOS.log` beside the configuration.
pub fn mount_log_path(config_path: &str, name: &str, pid: u32, nanos: u128) -> (p: String)
    ensures
        p@ == join(
            join(crate::lifecycle::parent_or_here(config_path@), "mount-logs"@),
            name@ + "-"@ + decimal_digits(pid as nat) + "-"@ + decimal_digits(nanos as nat) + ".log"@,
        ),
{
    let base = match parent_of(config_path) {
        Some(d) => if d.unicode_len() > 0 {
            d
        } else {
            String::from_str(".")
        },
        None => String::from_str("."),
    };
    let logs = join_path(base.as_str(), "mount-logs");
    let mut file = name.to_owned();
    file.append("-");
    file.append(decimal_string(pid as u128).as_str());
    file.append("-");
    file.append(decimal_string(nanos).as_str());
    file.append(".log");
    join_path(logs.as_str(), file.as_str())
}

/// A filesystem backend that `settings` can select.
#[derive(Clone, Copy, Debug, PartialEq, Eq, Structural)]
pub enum Backend {
    /// SSHFS through macFUSE's default backend.
    Default,
    Fskit,
    Nfs,
}

/// The mount settings after a `settings` command.
pub fn updated_options(current: MountOptions, sshfs: Option<String>, backend: Option<Backend>) -> (o: MountOptions)
    ensures
        o.sshfs == match sshfs {
            Some(s) => Some(s),
            None => current.sshfs,
        },
        o.fskit == match backend {
            Some(b) => b == Backend::Fskit,
            None => current.fskit,
        },
        o.nfs == match backend {
            Some(b) => b == Backend::Nfs,
            None => current.nfs,
        },
{
    let mut o = current;
    if let Some(s) = sshfs {
        o.sshfs = Some(s);
    }
    if let Some(b) = backend {
        o.fskit = b == Backend::Fskit;
        o.nfs = b == Backend::Nfs;
    }
    o
}

/// A backend change is refused while a workspace is mounted.
pub fn backend_change_refused(name: &str) -> (e: String)
    ensures
        e@ == name@ + " is mounted; disconnect it before changing the filesystem backend"@,
{
    let mut e = name.to_owned();
    e.append(" is mounted; disconnect it before changing the filesystem backend");
    e
}

pub open spec fn env_words(env: Seq<(String, String)>) -> Seq<Seq<char>> {
    Seq::new(env.len(), |i: int| env[i].0@ + "="@ + env[i].1@)
}

/// The command with a Git environment put in front through `env`; the
/// command alone when there is none.
pub fn with_environment(env: &[(String, String)], command: Vec<String>) -> (r: Vec<String>)
    ensures
        env@.len() == 0 ==> r.deep_view() == command.deep_view(),
        env@.len() > 0 ==> r.deep_view() == seq!["env"@] + env_words(env@) + command.deep_view(),
{
    if env.len() == 0 {
        return command;
    }
    let mut r: Vec<String> = Vec::new();
    r.push(String::from_str("env"));
    let mut i: usize = 0;
    while i < env.len()
        invariant
            i <= env@.len(),
            r.deep_view() == seq!["env"@] + env_words(env@).take(i as int),
        decreases env.len() - i,
    {
        let mut word = env[i].0.clone();
        word.append("=");
        word.append(env[i].1.as_str());
        let ghost before = r.deep_view();
        r.push(word);
        proof {
            assert(r.deep_view() =~= before.push(word@));
            assert(env_words(env@).take(i + 1) =~= env_words(env@).take(i as int).push(word@));
        }
        i += 1;
    }
    proof {
        assert(env_words(env@).take(i as int) =~= env_words(env@));
    }
    let mut k: usize = 0;
    let ghost head = r.deep_view();
    while k < command.len()
        invariant
            k <= command@.len(),
            r.deep_view() == head + command.deep_view().take(k as int),
        decreases command.len() - k,
    {
        let ghost before = r.deep_view();
        r.push(command[k].clone());
        proof {
            assert(r.deep_view() =~= before.push(command@[k as int]@));
            assert(command.deep_view().take(k + 1) =~= command.deep_view().take(k as int).push(command@[k as int]@));
        }
        k += 1;
    }
    proof {
        assert(command.deep_view().take(k as int) =~= command.deep_view());
    }
    r
}

/// The configuration used when none is given.
pub fn default_config(home: Option<&str>, macos: bool) -> (r: Result<String, String>)
    ensures
        match home {
            None => r matches Err(e) && e@ == "HOME is unset; supply --config"@,
            Some(h) => r matches Ok(p) && p@ == join(
                join(h@, if macos { "Library/Application Support/RWS"@ } else { ".config/rws"@ }),
                "config.json"@,
            ),
        },
{
    match home {
        None => Err(String::from_str("HOME is unset; supply --config")),
        Some(h) => {
            let base = join_path(h, if macos { "Library/Application Support/RWS" } else { ".config/rws" });
            Ok(join_path(base.as_str(), "config.json"))
        },
    }
}

/// The outcome of one automatic pass over all workspaces.
pub fn autostart_outcome(failures: &Vec<String>) -> (r: Result<i32, String>)
    ensures
        failures@.len() == 0 ==> r == Ok::<i32, String>(0),
        failures@.len() > 0 ==> (r matches Err(e) && e@ == "autostart could not mount: "@
            + join_with(failures.deep_view(), "; "@)),
{
    if failures.len() == 0 {
        return Ok(0);
    }
    let mut joined = String::new();
    let mut i: usize = 0;
    proof {
        assert(failures.deep_view().take(0) =~= Seq::<Seq<char>>::empty());
    }
    while i < failures.len()
        invariant
            i <= failures@.len(),
            joined@ == join_with(failures.deep_view().take(i as int), "; "@),
        decreases failures.len() - i,
    {
        proof {
            assert(failures.deep_view().take(i + 1).drop_last() =~= failures.deep_view().take(i as int));
            assert(failures.deep_view()[i as int] == failures@[i as int]@);
        }
        if i > 0 {
            joined.append("; ");
        }
        joined.append(failures[i].as_str());
        proof {
            if i == 0 {
                assert(failures.deep_view().take(1) =~= seq![failures@[0]@]);
                assert(joined@ =~= failures@[0]@);
            }
        }
        i += 1;
    }
    proof {
        assert(failures.deep_view().take(i as int) =~= failures.deep_view());
    }
    let mut e = String::from_str("autostart could not mount: ");
    e.append(joined.as_str());
    Err(e)
}

/// What `status` reports for one workspace's mount.
pub enum StatusMount {
    Disconnected,
    Verified(Result<(), String>),
    Unverified,
    Unavailable(String),
}

/// `(state, failed)` for the status of one workspace.
pub fn status_state(name: &str, mount: StatusMount) -> (r: (String, bool))
    ensures
        match mount {
            StatusMount::Disconnected => r.0@ == "disconnected"@ && !r.1,
            StatusMount::Verified(Ok(())) => r.0@ == "connected (verified RWS mount)"@ && !r.1,
            StatusMount::Verified(Err(reason)) => r.0@ == "connected (unresponsive mount: "@
                + reason@ + "); repair with: rws connect "@ + name@ + " --repair"@ && r.1,
            StatusMount::Unverified => r.0@
                == "mounted (identity unverified; not managed by this configuration)"@ && r.1,
            StatusMount::Unavailable(e) => r.0@ == "unavailable: "@ + e@ && r.1,
        },
{
    match mount {
        StatusMount::Disconnected => (String::from_str("disconnected"), false),
        StatusMount::Verified(h) => mount_health_status(name, h),
        StatusMount::Unverified => (String::from_str("mounted (identity unverified; not managed by this configuration)"), true),
        StatusMount::Unavailable(e) => {
            let mut s = String::from_str("unavailable: ");
            s.append(e.as_str());
            (s, true)
        },
    }
}

/// The auto-reconnect line of `status`.
pub fn intent_text(intent: MountIntent) -> (s: &'static str)
    ensures
        s@ == match intent {
            MountIntent::Connected => "connected"@,
            MountIntent::Paused => "paused"@,
        },
{
    match intent {
        MountIntent::Connected => "connected",
        MountIntent::Paused => "paused",
    }
}

} // verus!

verus! {

/// The first reason, among the workspaces in order, why the backend may
/// not change now: a mount table that could not be read, or a mounted
/// workspace.
pub open spec fn backend_block(ws: Seq<Workspace>, mounted: Seq<Result<bool, String>>, n: int) -> Option<Seq<char>>
    decreases n,
{
    if n <= 0 {
        None
    } else {
        match backend_block(ws, mounted, n - 1) {
            Some(e) => Some(e),
            None => match mounted[n - 1] {
                Err(e) => Some(e@),
                Ok(true) => Some(ws[n - 1].name@ + " is mounted; disconnect it before changing the filesystem backend"@),
                Ok(false) => None,
            },
        }
    }
}

/// Whether new mount options may be saved: changing the backend (FSKit or
/// NFS) on macOS is refused while any workspace is mounted. `mounted` says,
/// for each workspace in order, whether something is mounted at its root.
pub fn backend_change_check(config: &Config, options: &MountOptions, macos: bool, mounted: &[Result<bool, String>]) -> (r: Result<(), String>)
    requires
        mounted@.len() == config.workspaces@.len(),
    ensures
        !(macos && (options.fskit != config.mount.fskit || options.nfs != config.mount.nfs)) ==> r is Ok,
        macos && (options.fskit != config.mount.fskit || options.nfs != config.mount.nfs) ==> match backend_block(
            config.workspaces@,
            mounted@,
            mounted@.len() as int,
        ) {
            None => r is Ok,
            Some(e) => r matches Err(f) && f@ == e,
        },
{
    if !(macos && (options.fskit != config.mount.fskit || options.nfs != config.mount.nfs)) {
        return Ok(());
    }
    let mut i: usize = 0;
    while i < mounted.len()
        invariant
            i <= mounted@.len(),
            mounted@.len() == config.workspaces@.len(),
            backend_block(config.workspaces@, mounted@, i as int) is None,
            macos && (options.fskit != config.mount.fskit || options.nfs != config.mount.nfs),
        decreases mounted.len() - i,
    {
        match &mounted[i] {
            Err(e) => {
                proof {
                    lemma_backend_block_extends(config.workspaces@, mounted@, i + 1, mounted@.len() as int);
                }
                return Err(e.clone());
            },
            Ok(true) => {
                proof {
                    lemma_backend_block_extends(config.workspaces@, mounted@, i + 1, mounted@.len() as int);
                }
                return Err(backend_change_refused(config.workspaces[i].name.as_str()));
            },
            Ok(false) => {},
        }
        i += 1;
    }
    Ok(())
}

proof fn lemma_backend_block_extends(ws: Seq<Workspace>, mounted: Seq<Result<bool, String>>, m: int, n: int)
    requires
        0 <= m <= n,
        backend_block(ws, mounted, m) is Some,
    ensures
        backend_block(ws, mounted, n) == backend_block(ws, mounted, m),
    decreases n - m,
{
    if n > m {
        lemma_backend_block_extends(ws, mounted, m, n - 1);
    }
}

/// A server export is removed only while its native NFS volume is not
/// mounted. `mounted` is what the mount table reports at the workspace's
/// root; it is not consulted for a setup.
pub fn nfs_remove_guard(action: crate::nfs_server::Action, w: &Workspace, mounted: Result<Option<MountIdentity>, String>) -> (r: Result<(), String>)
    ensures
        action == crate::nfs_server::Action::Setup ==> r is Ok,
        action == crate::nfs_server::Action::Remove ==> match mounted {
            Err(e) => r == Err::<(), String>(e),
            Ok(Some(id)) => if crate::native_nfs::matches_source_spec(id) {
                r matches Err(e) && e@ == "disconnect the native NFS volume before removing its server export"@
            } else {
                r is Ok
            },
            Ok(None) => r is Ok,
        },
{
    match action {
        crate::nfs_server::Action::Setup => Ok(()),
        crate::nfs_server::Action::Remove => match mounted {
            Err(e) => Err(e),
            Ok(Some(id)) => if crate::native_nfs::matches_source(w, &id) {
                Err(String::from_str("disconnect the native NFS volume before removing its server export"))
            } else {
                Ok(())
            },
            Ok(None) => Ok(()),
        },
    }
}

/// What the mount table says at a root before a disconnect.
pub enum UnmountMount {
    Absent,
    Verified,
    Unverified,
}

/// The next step of a disconnect.
#[derive(Clone, Copy, Debug, PartialEq, Eq, Structural)]
pub enum UnmountStep {
    /// Nothing is mounted: forget the receipt and report it.
    AlreadyDisconnected,
    /// Unmount the verified volume.
    Unmount,
}

/// A disconnect unmounts only a verified volume; one whose identity is
/// unverified is refused.
pub fn unmount_step(mount: UnmountMount) -> (r: Result<UnmountStep, String>)
    ensures
        match mount {
            UnmountMount::Absent => r == Ok::<UnmountStep, String>(UnmountStep::AlreadyDisconnected),
            UnmountMount::Verified => r == Ok::<UnmountStep, String>(UnmountStep::Unmount),
            UnmountMount::Unverified => r matches Err(e) && e@
                == "refusing to unmount a filesystem with an unverified identity; close your work and eject it through Finder"@,
        },
{
    match mount {
        UnmountMount::Absent => Ok(UnmountStep::AlreadyDisconnected),
        UnmountMount::Verified => Ok(UnmountStep::Unmount),
        UnmountMount::Unverified => Err(String::from_str("refusing to unmount a filesystem with an unverified identity; close your work and eject it through Finder")),
    }
}

/// After `umount` ran: its exit code, and whether the volume is still
/// mounted. Success only when it exited 0 and the volume is gone; no
/// forced unmount follows a failure.
pub fn unmount_after(code: i32, still_mounted: bool) -> (r: Result<(), String>)
    ensures
        code != 0 ==> (r matches Err(e) && e@
            == "disconnect failed; close files and terminals using the volume, then retry (no forced unmount performed)"@),
        code == 0 && still_mounted ==> (r matches Err(e) && e@ == "disconnect returned but the volume is still mounted"@),
        code == 0 && !still_mounted ==> r is Ok,
{
    if code != 0 {
        return Err(String::from_str("disconnect failed; close files and terminals using the volume, then retry (no forced unmount performed)"));
    }
    if still_mounted {
        return Err(String::from_str("disconnect returned but the volume is still mounted"));
    }
    Ok(())
}

/// After a forced ejection of a dead volume: a remount follows only when it
/// exited 0 and the volume is gone.
pub fn ejection_check(nfs: bool, code: i32, still_mounted: bool) -> (r: Result<(), String>)
    ensures
        r is Ok <==> code == 0 && !still_mounted,
        r matches Err(e) ==> e@ == if nfs {
            "NFS ejection failed; remount stopped"@
        } else {
            "forced ejection failed; the volume is still mounted. Close programs using it and retry"@
        },
{
    if code != 0 || still_mounted {
        if nfs {
            return Err(String::from_str("NFS ejection failed; remount stopped"));
        }
        return Err(String::from_str("forced ejection failed; the volume is still mounted. Close programs using it and retry"));
    }
    Ok(())
}

/// What is at a native NFS mount point before mounting.
pub enum NfsMountPoint {
    Absent,
    Unreadable(String),
    /// Not a real directory (a symlink or a file).
    NotDirectory,
    /// A real directory: whether it is empty, or why its entries could not
    /// be read.
    Directory(Result<bool, String>),
}

/// A native NFS volume is mounted only on an existing, real, empty
/// directory, so that no files are hidden.
pub fn nfs_mount_point_check(w: &Workspace, point: NfsMountPoint) -> (r: Result<(), String>)
    ensures
        match point {
            NfsMountPoint::Absent => r matches Err(e) && e@ == "NFS mount point "@ + w.mount_root@
                + " is absent; run rws nfs-prepare "@ + w.name@ + " once"@,
            NfsMountPoint::Unreadable(e) => r matches Err(f) && f@ == "inspect NFS mount point: "@ + e@,
            NfsMountPoint::NotDirectory => r matches Err(e) && e@ == "NFS mount point must be a real directory"@,
            NfsMountPoint::Directory(Err(e)) => r matches Err(f) && f@ == "inspect NFS mount point contents: "@ + e@,
            NfsMountPoint::Directory(Ok(false)) => r matches Err(e) && e@
                == "NFS mount point is not empty; refusing to hide existing files"@,
            NfsMountPoint::Directory(Ok(true)) => r is Ok,
        },
{
    match point {
        NfsMountPoint::Absent => {
            let mut e = String::from_str("NFS mount point ");
            e.append(w.mount_root.as_str());
            e.append(" is absent; run rws nfs-prepare ");
            e.append(w.name.as_str());
            e.append(" once");
            Err(e)
        },
        NfsMountPoint::Unreadable(e) => {
            let mut f = String::from_str("inspect NFS mount point: ");
            f.append(e.as_str());
            Err(f)
        },
        NfsMountPoint::NotDirectory => Err(String::from_str("NFS mount point must be a real directory")),
        NfsMountPoint::Directory(Err(e)) => {
            let mut f = String::from_str("inspect NFS mount point contents: ");
            f.append(e.as_str());
            Err(f)
        },
        NfsMountPoint::Directory(Ok(false)) => Err(String::from_str("NFS mount point is not empty; refusing to hide existing files")),
        NfsMountPoint::Directory(Ok(true)) => Ok(()),
    }
}

/// How `mount_nfs` ended: whether it succeeded and its exit status, or why
/// it could not run.
pub fn nfs_mount_ran(ran: Result<(bool, String), String>) -> (r: Result<(), String>)
    ensures
        match ran {
            Err(e) => r matches Err(f) && f@ == "native NFS mount: "@ + e@,
            Ok((true, _)) => r is Ok,
            Ok((false, status)) => r matches Err(f) && f@ == "native NFS mount failed with status "@ + status@,
        },
{
    match ran {
        Err(e) => {
            let mut f = String::from_str("native NFS mount: ");
            f.append(e.as_str());
            Err(f)
        },
        Ok((true, _)) => Ok(()),
        Ok((false, status)) => {
            let mut f = String::from_str("native NFS mount failed with status ");
            f.append(status.as_str());
            Err(f)
        },
    }
}

/// The volume a successful `mount_nfs` left at the root: it must be there
/// and come from the dedicated export before it is attested.
pub fn nfs_new_volume(w: &Workspace, found: Option<MountIdentity>) -> (r: Result<MountIdentity, String>)
    ensures
        match found {
            None => r matches Err(e) && e@ == "NFS mount returned success but no volume is present"@,
            Some(id) => if crate::native_nfs::matches_source_spec(id) {
                r == Ok::<MountIdentity, String>(id)
            } else {
                r matches Err(e) && e@ == "NFS mount source did not match workspace; no ownership receipt saved"@
            },
        },
{
    match found {
        None => Err(String::from_str("NFS mount returned success but no volume is present")),
        Some(id) => if crate::native_nfs::matches_source(w, &id) {
            Ok(id)
        } else {
            Err(String::from_str("NFS mount source did not match workspace; no ownership receipt saved"))
        },
    }
}

/// A new NFS volume whose attestation failed is not adopted.
pub fn nfs_attested(attested: Result<(), String>) -> (r: Result<(), String>)
    ensures
        match attested {
            Ok(()) => r is Ok,
            Err(e) => r matches Err(f) && f@ == "NFS volume mounted but cross-host verification failed: "@ + e@
                + "; no ownership receipt saved"@,
        },
{
    match attested {
        Ok(()) => Ok(()),
        Err(e) => {
            let mut f = String::from_str("NFS volume mounted but cross-host verification failed: ");
            f.append(e.as_str());
            f.append("; no ownership receipt saved");
            Err(f)
        },
    }
}

} // verus!
