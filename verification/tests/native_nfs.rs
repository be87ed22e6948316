use rws::lifecycle::MountIdentity;
use rws::native_nfs::{
    attest, after_first_attempt, after_retry, matches_source, mount_args, parse_ssh_hostname, resolve_endpoint,
    source, validate_mountpoint_path, RetryStep, SshConfigOutput,
};
use rws::workspace::Workspace;

fn workspace() -> Workspace {
    Workspace {
        name: "demo".into(),
        host: "user@devbox".into(),
        remote_root: "/home/user/Projects".into(),
        mount_root: "/Volumes/RWS-demo".into(),
    }
}

#[test]
fn command_uses_native_nfs_and_preserves_exact_paths() {
    assert_eq!(
        mount_args(&workspace(), "100.106.23.6").unwrap(),
        [
            "-o",
            "vers=4.0,tcp,hard,intr,nocallback,nfc,port=2049",
            "100.106.23.6:/",
            "/Volumes/RWS-demo"
        ]
    );
}

#[test]
fn privileged_path_is_limited_to_exact_rws_volume() {
    let mut w = workspace();
    assert!(validate_mountpoint_path(&w).is_ok());
    w.mount_root = "/Volumes/Other".into();
    assert!(validate_mountpoint_path(&w).is_err());
    assert!(mount_args(&w, "100.106.23.6").is_err());
    w.mount_root = "/private/tmp/RWS-demo".into();
    assert!(validate_mountpoint_path(&w).is_err());
}

#[test]
fn ssh_hostname_resolution_rejects_invalid_endpoints() {
    assert_eq!(
        parse_ssh_hostname("user razer\nhostname 100.106.23.6\n").unwrap(),
        "100.106.23.6"
    );
    assert!(parse_ssh_hostname("hostname host:/other\n").is_err());
    assert!(source("host:/other").is_err());
}

#[test]
fn retries_only_a_transient_initial_nfs_read_timeout() {
    let mut attempts = 0;
    let mut check = || {
        attempts += 1;
        if attempts == 1 {
            Err("/bin/cat timed out after 12s".to_string())
        } else {
            Ok(())
        }
    };
    let first = check();
    assert!(attest(first, check).is_ok());
    assert_eq!(attempts, 2);
    let mut attempts = 0;
    let mut check = || {
        attempts += 1;
        Err("mounted files do not match the configured SSH destination".to_string())
    };
    let first = check();
    let result = attest(first, check);
    assert!(result.is_err());
    assert_eq!(attempts, 1);
}

#[test]
fn a_failed_retry_names_the_initial_timeout() {
    assert_eq!(
        after_retry(Err("still down".into())).unwrap_err(),
        "initial NFS proof read timed out; retry failed: still down"
    );
    assert!(matches!(after_first_attempt(Ok(())), RetryStep::Finished(Ok(()))));
}

#[test]
fn nfs_identity_requires_matching_export_and_filesystem() {
    let mut identity = MountIdentity {
        source: "devbox:/".into(),
        filesystem: "nfs".into(),
        id: vec![1],
    };
    assert!(matches_source(&workspace(), &identity));
    identity.source = "devbox:/other".into();
    assert!(!matches_source(&workspace(), &identity));
    identity.source = "devbox:/".into();
    identity.filesystem = "smbfs".into();
    assert!(!matches_source(&workspace(), &identity));
    identity.filesystem = "nfs".into();
    identity.source = ":/".into();
    assert!(!matches_source(&workspace(), &identity));
}

#[test]
fn hostname_line_is_the_first_one_and_is_trimmed() {
    assert_eq!(
        parse_ssh_hostname("hostname  box.example \r\nhostname other\n").unwrap(),
        "box.example"
    );
    assert_eq!(
        parse_ssh_hostname("user dev\nport 22\n").unwrap_err(),
        "SSH configuration did not provide a HostName"
    );
    assert_eq!(
        parse_ssh_hostname("hostname \n").unwrap_err(),
        "NFS requires an IPv4 address or DNS name in SSH HostName"
    );
    assert_eq!(source("10.0.0.1").unwrap(), "10.0.0.1:/");
    assert_eq!(source("").unwrap_err(), "NFS endpoint must be an IPv4 address or DNS name");
}

#[test]
fn endpoint_resolution_reports_each_failure() {
    let ok = |text: &str| Ok(SshConfigOutput { success: true, status: "exit status: 0".into(), stdout: Ok(text.into()) });
    assert_eq!(resolve_endpoint(&workspace(), ok("hostname 100.64.0.1\n")).unwrap(), "100.64.0.1");
    let failed = Ok(SshConfigOutput { success: false, status: "exit status: 255".into(), stdout: Ok(String::new()) });
    assert_eq!(resolve_endpoint(&workspace(), failed).unwrap_err(), "resolve SSH host for NFS: exit status: 255");
    assert_eq!(resolve_endpoint(&workspace(), Err("could not start ssh".into())).unwrap_err(), "could not start ssh");
    let mut bad = workspace();
    bad.name = "bad name".into();
    assert_eq!(
        resolve_endpoint(&bad, ok("hostname 1.2.3.4\n")).unwrap_err(),
        "workspace name must contain only letters, digits, _ or -"
    );
}
