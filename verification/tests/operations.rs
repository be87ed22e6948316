use rws::operations::{
    check_prepared, prepare_step, MountPointState, PrepareStep,
    autostart_outcome, check_fskit_mount_point, check_nfs_flags, check_sshfs_build, default_config,
    intent_step, mount_health_status, mount_log_path, nfs_existing, operation_origin, pause_error,
    reconcile_verified_mount, require_verified_mount, resolve, ssh_args, sshfs_mount_args,
    sshfs_source, status_state, updated_options, with_environment, Backend, ExistingMount,
    IntentStep, NfsStep, OperationOrigin, StatusMount,
};
use rws::operations::{
    backend_change_check, nfs_attested, nfs_mount_point_check, nfs_mount_ran, nfs_new_volume,
    nfs_remove_guard, NfsMountPoint,
};
use rws::lifecycle::MountIdentity;
use rws::nfs_server::Action;
use rws::config::{Config, MountIntent, MountOptions};
use rws::workspace::Workspace;

#[test]
fn healthy_verified_automatic_mount_never_ejects_or_reconnects() {
    let reconnect = reconcile_verified_mount("demo", Ok(()), false, |_| {
        panic!("healthy automatic pass must never eject the existing mount")
    })
    .unwrap();
    assert!(!reconnect, "healthy existing mount must not start a new mount");
}

#[test]
fn healthy_verified_explicit_repair_refuses_without_ejection() {
    let error = reconcile_verified_mount("demo", Ok(()), true, |_| {
        panic!("healthy explicit repair must never eject the existing mount")
    })
    .unwrap_err();
    assert!(error.contains("nothing to repair"));
}

#[test]
fn unhealthy_mount_never_reports_success_even_without_ssh_probe() {
    let (text, failed) = mount_health_status("demo", Err("deadline exceeded".into()));
    assert!(failed);
    assert!(text.contains("unresponsive") && text.contains("demo --repair"));
    assert!(!mount_health_status("demo", Ok(())).1);
}

#[test]
fn unresponsive_mount_is_ejected_only_on_explicit_repair() {
    let error = reconcile_verified_mount("demo", Err("stalled".into()), false, |_| {
        panic!("an automatic pass must never eject")
    })
    .unwrap_err();
    assert_eq!(
        error,
        "mount is unresponsive (stalled). Close files using the volume, then run: rws connect demo --repair. Unsaved writes on the dead mount may be lost"
    );
    let mut seen = String::new();
    assert!(reconcile_verified_mount("demo", Err("stalled".into()), true, |reason| {
        seen = reason;
        Ok(())
    })
    .unwrap());
    assert_eq!(seen, "stalled");
    assert_eq!(
        reconcile_verified_mount("demo", Err("stalled".into()), true, |_| Err("busy".into())).unwrap_err(),
        "busy"
    );
}

#[test]
fn ssh_arguments_choose_the_terminal_and_keep_the_script_last() {
    assert_eq!(
        ssh_args("dev@host", "cd '/srv' && exec 'pwd'".into(), false),
        ["-T", "-o", "ConnectTimeout=10", "--", "dev@host", "cd '/srv' && exec 'pwd'"]
    );
    assert_eq!(ssh_args("h", "s".into(), true)[0], "-t");
}

fn demo(name: &str, root: &str) -> Workspace {
    Workspace {
        name: name.into(),
        host: "dev@host".into(),
        remote_root: format!("/srv/{name}"),
        mount_root: root.into(),
    }
}

fn config(workspaces: Vec<Workspace>) -> Config {
    Config {
        version: 1,
        workspaces,
        mount: MountOptions::default(),
        mount_state_generation: None,
        mount_intent: vec![],
    }
}

#[test]
fn named_or_single_matching_workspace_is_resolved() {
    let c = config(vec![demo("a", "/Volumes/A"), demo("b", "/Volumes/B")]);
    let (w, remote) = resolve(&c, Some("b"), &[Err("x".into()), Err("y".into())]).unwrap();
    assert_eq!((w.name.as_str(), remote.as_str()), ("b", "/srv/b"));
    assert_eq!(resolve(&c, Some("zz"), &[Err("x".into()), Err("y".into())]).unwrap_err(), "unknown workspace: zz");
    let (w, remote) = resolve(&c, None, &[Err("x".into()), Ok("/srv/b/src".into())]).unwrap();
    assert_eq!((w.name.as_str(), remote.as_str()), ("b", "/srv/b/src"));
    for remotes in [
        [Err("x".to_string()), Err("y".to_string())],
        [Ok("/srv/a".to_string()), Ok("/srv/b".to_string())],
    ] {
        assert_eq!(
            resolve(&c, None, &remotes).unwrap_err(),
            "current directory must match exactly one workspace; use --workspace NAME"
        );
    }
}

#[test]
fn forwarding_requires_a_connected_verified_mount() {
    assert!(require_verified_mount(false, false).unwrap_err().contains("disconnected"));
    assert!(require_verified_mount(true, false).unwrap_err().contains("unverified"));
    assert!(require_verified_mount(true, true).is_ok());
}

#[test]
fn explicit_operations_record_intent_and_automatic_ones_never_write() {
    assert_eq!(operation_origin(OperationOrigin::Explicit, true), OperationOrigin::Automatic);
    assert_eq!(operation_origin(OperationOrigin::Explicit, false), OperationOrigin::Explicit);
    assert_eq!(intent_step(OperationOrigin::Automatic, false, MountIntent::Paused), IntentStep::SkipPaused);
    assert_eq!(intent_step(OperationOrigin::Automatic, true, MountIntent::Connected), IntentStep::Proceed);
    assert_eq!(intent_step(OperationOrigin::Explicit, true, MountIntent::Connected), IntentStep::Record(MountIntent::Paused));
    assert_eq!(intent_step(OperationOrigin::Explicit, false, MountIntent::Paused), IntentStep::Record(MountIntent::Connected));
}

#[test]
fn contended_disconnect_says_that_pause_was_not_recorded() {
    assert_eq!(
        pause_error(true, "operation lock busy".into()),
        "operation lock busy; auto-reconnect has NOT been paused; retry disconnect"
    );
    assert_eq!(pause_error(false, "operation lock busy".into()), "operation lock busy");
}

#[test]
fn existing_nfs_mounts_are_kept_repaired_adopted_or_refused() {
    assert_eq!(nfs_existing("demo", ExistingMount::Verified(Ok(())), false, false).unwrap(), NfsStep::AlreadyConnected);
    assert_eq!(
        nfs_existing("demo", ExistingMount::Verified(Ok(())), true, false).unwrap_err(),
        "mount answers normally; nothing to repair"
    );
    assert_eq!(nfs_existing("demo", ExistingMount::Verified(Err("x".into())), true, false).unwrap(), NfsStep::EjectAndRemount);
    assert_eq!(
        nfs_existing("demo", ExistingMount::Verified(Err("timeout".into())), false, false).unwrap_err(),
        "NFS mount is unresponsive (timeout); retry when the server returns or use connect demo --repair after closing open files"
    );
    assert_eq!(nfs_existing("demo", ExistingMount::Unverified, false, true).unwrap(), NfsStep::Adopt);
    assert!(nfs_existing("demo", ExistingMount::Unverified, false, false).unwrap_err().contains("--verify-existing"));
    assert!(nfs_existing("demo", ExistingMount::Foreign, true, true).unwrap_err().contains("another filesystem"));
}

#[test]
fn sshfs_command_line_selects_backend_and_names_the_volume() {
    let w = demo("demo", "/Volumes/RWS-demo");
    assert_eq!(
        sshfs_mount_args(&w, false, false),
        [
            "dev@host:/srv/demo",
            "/Volumes/RWS-demo",
            "-o",
            "ConnectTimeout=10,ServerAliveInterval=15,ServerAliveCountMax=3,BatchMode=yes",
            "-o",
            "volname=RWS-demo",
            "-f"
        ]
    );
    let fskit = sshfs_mount_args(&w, true, false);
    assert_eq!(&fskit[4..8], ["-o", "backend=fskit", "-o", "rws_unicode"]);
    let raw = sshfs_mount_args(&w, true, true);
    assert_eq!(&raw[4..8], ["-o", "backend=fskit", "-o", "volname=RWS-demo"]);
    assert_eq!(sshfs_source(&w), "dev@host:/srv/demo");
}

#[test]
fn backend_flags_and_mount_points_are_checked() {
    assert!(check_fskit_mount_point(true, &demo("d", "/Volumes/RWS-d")).is_ok());
    assert!(check_fskit_mount_point(false, &demo("d", "/tmp/d")).is_ok());
    assert_eq!(
        check_fskit_mount_point(true, &demo("d", "/tmp/d")).unwrap_err(),
        "FSKit requires a mount point directly under /Volumes"
    );
    assert!(check_sshfs_build(true, false, "SSHFS version 3.7.5-rws-fskit3").is_ok());
    assert!(check_sshfs_build(true, false, "SSHFS version 3.7.3").unwrap_err().contains("RWS SSHFS build"));
    assert!(check_sshfs_build(true, true, "SSHFS version 3.7.3").is_ok());
    assert!(check_sshfs_build(false, false, "SSHFS version 3.7.3").is_ok());
    assert!(check_nfs_flags(false, false).is_ok());
    assert!(check_nfs_flags(true, false).is_err());
    assert!(check_nfs_flags(false, true).is_err());
}

#[test]
fn mount_logs_live_beside_the_configuration() {
    assert_eq!(
        mount_log_path("/cfg/config.json", "demo", 42, 7),
        "/cfg/mount-logs/demo-42-7.log"
    );
    assert_eq!(mount_log_path("config.json", "demo", 1, 0), "./mount-logs/demo-1-0.log");
}

#[test]
fn settings_replace_only_what_is_given() {
    let current = MountOptions { sshfs: Some("/opt/sshfs".into()), fskit: true, nfs: false };
    let o = updated_options(current.clone(), None, None);
    assert_eq!((o.sshfs.as_deref(), o.fskit, o.nfs), (Some("/opt/sshfs"), true, false));
    let o = updated_options(current.clone(), Some("/new".into()), Some(Backend::Nfs));
    assert_eq!((o.sshfs.as_deref(), o.fskit, o.nfs), (Some("/new"), false, true));
    let o = updated_options(current, None, Some(Backend::Default));
    assert_eq!((o.fskit, o.nfs), (false, false));
}

#[test]
fn git_environment_is_put_in_front_through_env() {
    let command = vec!["git".to_string(), "status".to_string()];
    assert_eq!(with_environment(&[], command.clone()), command);
    assert_eq!(
        with_environment(&[("GIT_DIR".into(), "/srv/x/.git".into())], command),
        ["env", "GIT_DIR=/srv/x/.git", "git", "status"]
    );
}

#[test]
fn default_configuration_and_autostart_outcome() {
    assert_eq!(
        default_config(Some("/Users/dev"), true).unwrap(),
        "/Users/dev/Library/Application Support/RWS/config.json"
    );
    assert_eq!(default_config(Some("/home/dev"), false).unwrap(), "/home/dev/.config/rws/config.json");
    assert_eq!(default_config(None, true).unwrap_err(), "HOME is unset; supply --config");
    assert_eq!(autostart_outcome(&vec![]).unwrap(), 0);
    assert_eq!(
        autostart_outcome(&vec!["a (exit status: 1)".into(), "b: timed out".into()]).unwrap_err(),
        "autostart could not mount: a (exit status: 1); b: timed out"
    );
}

#[test]
fn status_lines_report_each_mount_state() {
    assert_eq!(status_state("demo", StatusMount::Disconnected), ("disconnected".to_string(), false));
    assert!(status_state("demo", StatusMount::Unverified).1);
    assert_eq!(status_state("demo", StatusMount::Unavailable("no table".into())).0, "unavailable: no table");
    assert_eq!(status_state("demo", StatusMount::Verified(Ok(()))).0, "connected (verified RWS mount)");
}

#[test]
fn nfs_mount_point_preparation_decides_from_what_is_there() {
    let root = "/Volumes/RWS-demo";
    let dir = |empty: Result<bool, String>, owned: bool| MountPointState::Directory { empty, owned };
    assert_eq!(
        prepare_step(false, root, Ok(false), MountPointState::Absent).unwrap_err(),
        "native NFS preparation requires a direct child of /Volumes on macOS"
    );
    assert!(prepare_step(true, "/tmp/RWS-demo", Ok(false), MountPointState::Absent).is_err());
    assert!(prepare_step(true, "/Volumes/a/b", Ok(false), MountPointState::Absent).is_err());
    assert_eq!(prepare_step(true, root, Err("table".into()), MountPointState::Absent).unwrap_err(), "table");
    assert_eq!(
        prepare_step(true, root, Ok(true), MountPointState::Absent).unwrap_err(),
        "a filesystem is already mounted at this path; leaving it untouched"
    );
    assert_eq!(prepare_step(true, root, Ok(false), MountPointState::Absent).unwrap(), PrepareStep::RunHelper);
    assert_eq!(prepare_step(true, root, Ok(false), dir(Ok(true), true)).unwrap(), PrepareStep::Ready);
    assert_eq!(prepare_step(true, root, Ok(false), dir(Ok(true), false)).unwrap(), PrepareStep::RunHelper);
    assert_eq!(
        prepare_step(true, root, Ok(false), dir(Ok(false), true)).unwrap_err(),
        "existing NFS mount directory is not empty; leaving it untouched"
    );
    assert_eq!(prepare_step(true, root, Ok(false), dir(Err("denied".into()), true)).unwrap_err(), "denied");
    assert_eq!(
        prepare_step(true, root, Ok(false), MountPointState::Other).unwrap_err(),
        "existing NFS mount point is not a real directory"
    );
    assert_eq!(
        prepare_step(true, root, Ok(false), MountPointState::Unreadable("io".into())).unwrap_err(),
        "inspect NFS mount point: io"
    );
    assert!(check_prepared(true, true).is_ok());
    assert_eq!(check_prepared(true, false).unwrap_err(), "NFS mount point was not created with the expected owner");
    assert!(check_prepared(false, true).is_err());
}

#[test]
fn disconnect_steps_refuse_unverified_and_report_failures() {
    assert_eq!(rws::operations::unmount_step(rws::operations::UnmountMount::Absent).unwrap(), rws::operations::UnmountStep::AlreadyDisconnected);
    assert_eq!(rws::operations::unmount_step(rws::operations::UnmountMount::Verified).unwrap(), rws::operations::UnmountStep::Unmount);
    assert_eq!(
        rws::operations::unmount_step(rws::operations::UnmountMount::Unverified).unwrap_err(),
        "refusing to unmount a filesystem with an unverified identity; close your work and eject it through Finder"
    );
    assert!(rws::operations::unmount_after(0, false).is_ok());
    assert_eq!(
        rws::operations::unmount_after(1, false).unwrap_err(),
        "disconnect failed; close files and terminals using the volume, then retry (no forced unmount performed)"
    );
    assert_eq!(rws::operations::unmount_after(0, true).unwrap_err(), "disconnect returned but the volume is still mounted");
    assert!(rws::operations::ejection_check(true, 0, false).is_ok());
    assert_eq!(rws::operations::ejection_check(true, 0, true).unwrap_err(), "NFS ejection failed; remount stopped");
    assert_eq!(
        rws::operations::ejection_check(false, 3, false).unwrap_err(),
        "forced ejection failed; the volume is still mounted. Close programs using it and retry"
    );
}

fn volume(filesystem: &str, source: &str) -> MountIdentity {
    MountIdentity { source: source.into(), filesystem: filesystem.into(), id: vec![7] }
}

#[test]
fn backend_change_is_refused_while_a_workspace_is_mounted() {
    let c = config(vec![demo("one", "/Volumes/one"), demo("two", "/Volumes/two")]);
    let same = MountOptions::default();
    let nfs = MountOptions { nfs: true, ..MountOptions::default() };
    assert_eq!(backend_change_check(&c, &same, true, &[Ok(true), Ok(true)]), Ok(()));
    assert_eq!(backend_change_check(&c, &nfs, false, &[Ok(true), Ok(true)]), Ok(()));
    assert_eq!(backend_change_check(&c, &nfs, true, &[Ok(false), Ok(false)]), Ok(()));
    assert_eq!(
        backend_change_check(&c, &nfs, true, &[Ok(false), Ok(true)]),
        Err("two is mounted; disconnect it before changing the filesystem backend".to_string())
    );
    assert_eq!(
        backend_change_check(&c, &nfs, true, &[Err("mount table".into()), Ok(true)]),
        Err("mount table".to_string())
    );
}

#[test]
fn nfs_export_is_removed_only_while_its_volume_is_unmounted() {
    let w = demo("demo", "/Volumes/demo");
    let nfs = volume("nfs", "host:/");
    assert_eq!(nfs_remove_guard(Action::Setup, &w, Ok(Some(nfs.clone()))), Ok(()));
    assert_eq!(
        nfs_remove_guard(Action::Remove, &w, Ok(Some(nfs))),
        Err("disconnect the native NFS volume before removing its server export".to_string())
    );
    assert_eq!(nfs_remove_guard(Action::Remove, &w, Ok(Some(volume("macfuse", "x")))), Ok(()));
    assert_eq!(nfs_remove_guard(Action::Remove, &w, Ok(None)), Ok(()));
    assert_eq!(nfs_remove_guard(Action::Remove, &w, Err("mount".into())), Err("mount".to_string()));
}

#[test]
fn nfs_mounts_only_on_an_empty_real_directory() {
    let w = demo("demo", "/Volumes/demo");
    assert_eq!(
        nfs_mount_point_check(&w, NfsMountPoint::Absent),
        Err("NFS mount point /Volumes/demo is absent; run rws nfs-prepare demo once".to_string())
    );
    assert_eq!(
        nfs_mount_point_check(&w, NfsMountPoint::Unreadable("denied".into())),
        Err("inspect NFS mount point: denied".to_string())
    );
    assert_eq!(
        nfs_mount_point_check(&w, NfsMountPoint::NotDirectory),
        Err("NFS mount point must be a real directory".to_string())
    );
    assert_eq!(
        nfs_mount_point_check(&w, NfsMountPoint::Directory(Err("io".into()))),
        Err("inspect NFS mount point contents: io".to_string())
    );
    assert_eq!(
        nfs_mount_point_check(&w, NfsMountPoint::Directory(Ok(false))),
        Err("NFS mount point is not empty; refusing to hide existing files".to_string())
    );
    assert_eq!(nfs_mount_point_check(&w, NfsMountPoint::Directory(Ok(true))), Ok(()));
}

#[test]
fn a_new_nfs_volume_must_be_present_match_and_attest() {
    let w = demo("demo", "/Volumes/demo");
    assert_eq!(nfs_mount_ran(Ok((true, String::new()))), Ok(()));
    assert_eq!(
        nfs_mount_ran(Ok((false, "exit status: 1".into()))),
        Err("native NFS mount failed with status exit status: 1".to_string())
    );
    assert_eq!(nfs_mount_ran(Err("not found".into())), Err("native NFS mount: not found".to_string()));
    assert_eq!(
        nfs_new_volume(&w, None).unwrap_err(),
        "NFS mount returned success but no volume is present"
    );
    let adopted = nfs_new_volume(&w, Some(volume("nfs", "host:/"))).unwrap();
    assert_eq!((adopted.source.as_str(), adopted.filesystem.as_str(), adopted.id), ("host:/", "nfs", vec![7]));
    assert_eq!(
        nfs_new_volume(&w, Some(volume("nfs", "host:/other"))).unwrap_err(),
        "NFS mount source did not match workspace; no ownership receipt saved"
    );
    assert_eq!(nfs_attested(Ok(())), Ok(()));
    assert_eq!(
        nfs_attested(Err("token".into())),
        Err("NFS volume mounted but cross-host verification failed: token; no ownership receipt saved".to_string())
    );
}
