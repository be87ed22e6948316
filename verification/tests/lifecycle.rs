use rws::config::{Config, MountOptions};
use rws::lifecycle::{
    advisory_lock_path, challenge, challenge_command, challenge_failure, cleanup_failure,
    config_namespace, generated_state_directories, generated_state_directory, identity,
    legacy_lock_path, legacy_owner, operation_lock_directory, proof_matches, receipt_file_safe,
    receipt_for, state_directory_check, PathFacts,
    receipt_path, stale_server_pids, verified, MountIdentity, CREATE_CHALLENGE,
};
use rws::lifecycle::{
    attest_advance, attest_start, attest_verdict, creation_failure_detail, identity_unchanged,
    proof_check, AttestNext, AttestStage,
};
use rws::workspace::Workspace;

fn config(generation: Option<&str>) -> Config {
    Config {
        version: 1,
        workspaces: vec![],
        mount: MountOptions::default(),
        mount_intent: vec![],
        mount_state_generation: generation.map(String::from),
    }
}

fn workspace() -> Workspace {
    Workspace {
        name: "demo".into(),
        host: "host".into(),
        remote_root: "/srv/project".into(),
        mount_root: "/Volumes/RWS-demo".into(),
    }
}

fn identity_of(id: u8) -> MountIdentity {
    MountIdentity { source: "macfuse://unique".into(), filesystem: "macfuse".into(), id: vec![id] }
}

#[test]
fn receipt_without_a_generation_uses_the_legacy_adjacent_directory() {
    assert_eq!(
        receipt_path("/tmp/t/config.json", &config(None), &workspace()),
        "/tmp/t/config.json.mount-state/demo.json"
    );
}

#[test]
fn receipt_uses_the_configured_durable_generation() {
    let c = config(Some("release-20260922"));
    assert_eq!(
        receipt_path("/tmp/t/config.json", &c, &workspace()),
        "/tmp/t/mount-state/release-20260922/config-636f6e6669672e6a736f6e/demo.json"
    );
    assert_eq!(
        legacy_lock_path("/tmp/t/config.json", &c, &workspace()),
        "/tmp/t/mount-state/release-20260922/config-636f6e6669672e6a736f6e/demo.lock"
    );
    let receipt = receipt_for(&workspace(), identity_of(1));
    assert!(verified(&c, true, true, Some(&receipt), &workspace(), &identity_of(1)));
    assert!(!verified(&c, true, true, None, &workspace(), &identity_of(1)));
}

#[test]
fn durable_configs_in_the_same_directory_do_not_share_receipts_or_locks() {
    let c = config(Some("release-20260922"));
    let first = receipt_path("/tmp/t/first.json", &c, &workspace());
    let second = receipt_path("/tmp/t/second.json", &c, &workspace());
    assert_ne!(first, second);
    assert_ne!(operation_lock_directory("/tmp/t/first.json"), operation_lock_directory("/tmp/t/second.json"));
}

#[test]
fn receipt_does_not_authorize_a_different_mount_or_destination() {
    let c = config(None);
    let mut w = workspace();
    let mut mount = identity_of(1);
    assert!(!verified(&c, false, false, None, &w, &mount));
    let receipt = receipt_for(&w, mount.clone());
    assert!(verified(&c, false, false, Some(&receipt), &w, &mount));
    // Another configuration file keeps its receipts elsewhere.
    assert_ne!(
        receipt_path("/tmp/t/other.json", &c, &w),
        receipt_path("/tmp/t/config.json", &c, &w)
    );
    mount.id = vec![2];
    assert!(!verified(&c, false, false, Some(&receipt), &w, &mount));
    mount.id = vec![1];
    w.remote_root = "/other".into();
    assert!(!verified(&c, false, false, Some(&receipt), &w, &mount));
}

#[test]
fn a_durable_generation_needs_private_state_and_receipt() {
    let c = config(Some("g"));
    let w = workspace();
    let receipt = receipt_for(&w, identity_of(1));
    assert!(!verified(&c, false, true, Some(&receipt), &w, &identity_of(1)));
    assert!(!verified(&c, true, false, Some(&receipt), &w, &identity_of(1)));
    assert!(verified(&c, true, true, Some(&receipt), &w, &identity_of(1)));
    // Mount roots compare as paths.
    let mut alias = receipt.clone();
    alias.root = "/Volumes/RWS-demo/".into();
    assert!(verified(&c, true, true, Some(&alias), &w, &identity_of(1)));
}

#[test]
fn namespaces_and_state_directories() {
    assert_eq!(config_namespace("/tmp/config.json"), "config-636f6e6669672e6a736f6e");
    assert_eq!(config_namespace("/tmp/é"), "config-c3a9");
    assert_eq!(generated_state_directory("/tmp/t/config.json", &config(None)), None);
    assert_eq!(
        generated_state_directory("config.json", &config(Some("g"))).unwrap(),
        "./mount-state/g/config-636f6e6669672e6a736f6e"
    );
    assert_eq!(
        generated_state_directories("/tmp/t/c.json", &config(Some("g"))).unwrap(),
        ["/tmp/t/mount-state", "/tmp/t/mount-state/g", "/tmp/t/mount-state/g/config-632e6a736f6e"]
    );
    assert_eq!(
        operation_lock_directory("/tmp/t/config.json"),
        "/tmp/t/config-636f6e6669672e6a736f6e.mount-operations"
    );
    assert_eq!(advisory_lock_path("/tmp/d", &workspace()), "/tmp/d/demo.lock");
    assert_eq!(legacy_lock_path("/c.json", &config(None), &workspace()), "/c.json.mount-state/demo.lock");
}

#[test]
fn operation_lock_recovers_dead_legacy_owner_but_refuses_unknown_or_live_owner() {
    assert_eq!(legacy_owner("unknown"), None);
    assert_eq!(legacy_owner("4242\n"), Some(4242));
    assert_eq!(legacy_owner("0"), None);
    assert_eq!(legacy_owner("-5"), None);
    assert_eq!(legacy_owner("99999999999"), None);
}

#[test]
fn stale_servers_are_matched_exactly() {
    let ps = "  101 /tmp/x/sshfs dev@host:/srv/data /tmp/x/mnt -o options\n\
              102 /tmp/x/sshfs dev@host:/srv/data /tmp/x/other -o options\n\
              103 /tmp/x/sshfs dev@host:/srv/other /tmp/x/mnt -o options\n\
              104 /bin/sh /tmp/x/sshfs dev@host:/srv/data /tmp/x/mnt\n\
              abc /tmp/x/sshfs dev@host:/srv/data /tmp/x/mnt\n\
              105 /tmp/x/sshfs  dev@host:/srv/data\t/tmp/x/mnt\n";
    assert_eq!(stale_server_pids(ps, "/tmp/x/sshfs", "dev@host:/srv/data", "/tmp/x/mnt"), [101, 104, 105]);
    assert!(stale_server_pids("", "/p", "s", "/m").is_empty());
}

#[test]
fn challenge_names_and_messages() {
    let (token, directory) = challenge(&[0, 1, 0xab, 0xff]);
    assert_eq!(token, "0001abff");
    assert_eq!(directory, ".rws-verify-0001abff");
    assert!(proof_matches(true, b"0001abff", &token));
    assert!(!proof_matches(false, b"0001abff", &token));
    assert!(!proof_matches(true, b"0001abf", &token));
    assert_eq!(
        challenge_command("/srv/p", CREATE_CHALLENGE, &[directory.clone(), token.clone()]).unwrap(),
        format!(
            "cd '/srv/p' && exec 'sh' '-c' '{}' 'rws-verify' '{}' '{}'",
            CREATE_CHALLENGE.replace('\'', "'\\''"),
            directory,
            token
        )
    );
    assert_eq!(
        challenge_failure("read-only", true, "/srv/p", &directory),
        "cannot create remote verification challenge (workspace must be writable): read-only; removed /srv/p/.rws-verify-0001abff"
    );
    assert_eq!(
        cleanup_failure("/srv/p", ".rws-verify-00"),
        "remote verification cleanup failed; inspect /srv/p/.rws-verify-00; mount not adopted"
    );
    assert_eq!(identity("/Volumes/x").unwrap_err(), "mount inspection is currently supported on macOS only");
}

fn facts(is_symlink: bool, is_dir: bool, owned: bool, mode: u32) -> PathFacts {
    PathFacts { is_symlink, is_dir, is_file: !is_dir && !is_symlink, owned, mode }
}

#[test]
fn private_state_must_be_a_real_private_directory_or_file() {
    let d = "/s/mount-state/g/config-61";
    assert!(state_directory_check(d, Ok(facts(false, true, true, 0o40700))).is_ok());
    assert_eq!(
        state_directory_check(d, Err("gone".into())).unwrap_err(),
        format!("inspect generated mount state {d}: gone")
    );
    assert_eq!(
        state_directory_check(d, Ok(facts(true, false, true, 0o700))).unwrap_err(),
        format!("unsafe generated mount state directory: {d}")
    );
    assert_eq!(
        state_directory_check(d, Ok(facts(false, true, true, 0o750))).unwrap_err(),
        format!("generated mount state directory must be owned by this user and mode 0700: {d}")
    );
    assert!(state_directory_check(d, Ok(facts(false, true, false, 0o700))).is_err());
    assert!(receipt_file_safe(Some(facts(false, false, true, 0o100600))));
    assert!(!receipt_file_safe(Some(facts(false, false, true, 0o100644))));
    assert!(!receipt_file_safe(Some(facts(true, false, true, 0o600))));
    assert!(!receipt_file_safe(Some(facts(false, false, false, 0o600))));
    assert!(!receipt_file_safe(None));
}

#[test]
fn challenge_creation_reports_trimmed_stderr_or_the_ssh_failure() {
    assert_eq!(creation_failure_detail(Ok((true, "ignored".into()))), None);
    assert_eq!(
        creation_failure_detail(Ok((false, "  read-only file system\n".into()))),
        Some("read-only file system".to_string())
    );
    assert_eq!(creation_failure_detail(Err("ssh: not found".into())), Some("ssh: not found".to_string()));
}

#[test]
fn attestation_requires_the_same_mount_identity() {
    let expected = identity_of(1);
    assert_eq!(identity_unchanged(Ok(Some(identity_of(1))), &expected), Ok(()));
    let changed = "mount identity changed during verification".to_string();
    assert_eq!(identity_unchanged(Ok(Some(identity_of(2))), &expected), Err(changed.clone()));
    assert_eq!(identity_unchanged(Ok(None), &expected), Err(changed));
    assert_eq!(identity_unchanged(Err("mount: failed".into()), &expected), Err("mount: failed".to_string()));
}

#[test]
fn attestation_proof_must_hold_the_token() {
    let mismatch = "mounted files do not match the configured SSH destination".to_string();
    assert_eq!(proof_check(Ok((true, b"tok".to_vec())), "tok"), Ok(()));
    assert_eq!(proof_check(Ok((true, b"other".to_vec())), "tok"), Err(mismatch.clone()));
    assert_eq!(proof_check(Ok((false, b"tok".to_vec())), "tok"), Err(mismatch));
    assert_eq!(proof_check(Err("cat failed".into()), "tok"), Err("cat failed".to_string()));
}

#[test]
fn attestation_checks_identity_around_the_proof_read() {
    assert!(matches!(attest_start(), AttestNext::Observe(AttestStage::CheckBefore)));
    assert!(matches!(
        attest_advance(AttestStage::CheckBefore, Ok(())),
        AttestNext::Observe(AttestStage::ReadProof)
    ));
    assert!(matches!(
        attest_advance(AttestStage::ReadProof, Ok(())),
        AttestNext::Observe(AttestStage::CheckAfter)
    ));
    assert!(matches!(attest_advance(AttestStage::CheckAfter, Ok(())), AttestNext::Finish(Ok(()))));
    match attest_advance(AttestStage::ReadProof, Err("bad".into())) {
        AttestNext::Finish(Err(e)) => assert_eq!(e, "bad"),
        _ => panic!("a failed stage must finish the attestation"),
    }
}

#[test]
fn failed_cleanup_overrides_the_attestation_result() {
    assert_eq!(attest_verdict(Ok(()), true, "/srv/p", ".rws-x"), Ok(()));
    assert_eq!(attest_verdict(Err("e".into()), true, "/srv/p", ".rws-x"), Err("e".to_string()));
    let failed = "remote verification cleanup failed; inspect /srv/p/.rws-x; mount not adopted".to_string();
    assert_eq!(attest_verdict(Ok(()), false, "/srv/p", ".rws-x"), Err(failed.clone()));
    assert_eq!(attest_verdict(Err("e".into()), false, "/srv/p", ".rws-x"), Err(failed));
}
