use rws::nfs_server::{
    check_server_ip, cleanup_command, client_ip, digest, dry_run_message, hash_command, hashes_match,
    outcome, parse_u8, quote, setup_command, stage_path, valid_tailscale_ip, Action,
};
use rws::workspace::Workspace;

#[test]
fn accepts_only_expected_remote_staging_paths() {
    assert_eq!(
        stage_path("/tmp/rws-nfs-stage.Ab12cd34\n").unwrap(),
        "/tmp/rws-nfs-stage.Ab12cd34"
    );
    assert!(stage_path("/tmp/rws-nfs-stage.ok; touch /tmp/evil").is_err());
    assert!(stage_path("/etc/exports").is_err());
}

#[test]
fn validates_a_complete_sha256_before_trusting_transfer() {
    assert!(digest(&format!("{}  script.sh", "a".repeat(64))).is_ok());
    assert!(digest("bad  script.sh").is_err());
    assert!(digest(&format!("{}  script.sh", "z".repeat(64))).is_err());
}

#[test]
fn requires_tailscale_ipv4_addresses() {
    assert!(valid_tailscale_ip("100.64.59.41"));
    assert!(!valid_tailscale_ip("100.999.2.3"));
    assert!(!valid_tailscale_ip("192.168.1.1"));
    assert!(!valid_tailscale_ip("100.1.2.3; true"));
}

#[test]
fn quotes_remote_path_as_one_literal_argument() {
    assert_eq!(quote("/home/a'b"), "'/home/a'\\''b'");
}

#[test]
fn bytes_parse_as_str_parse_does() {
    assert_eq!(parse_u8("0"), Some(0));
    assert_eq!(parse_u8("+7"), Some(7));
    assert_eq!(parse_u8("007"), Some(7));
    assert_eq!(parse_u8("255"), Some(255));
    assert_eq!(parse_u8("256"), None);
    assert_eq!(parse_u8(""), None);
    assert_eq!(parse_u8("+"), None);
    assert_eq!(parse_u8("-1"), None);
    assert_eq!(parse_u8(" 1"), None);
    for s in ["0", "+7", "007", "255", "256", "", "+", "-1", " 1", "99999999999"] {
        assert_eq!(parse_u8(s), s.parse::<u8>().ok(), "{s}");
    }
    assert!(valid_tailscale_ip("+100.0.0.0"));
    assert!(!valid_tailscale_ip("100.1.2"));
    assert!(!valid_tailscale_ip("100.1.2.3.4"));
}

#[test]
fn digest_and_staging_errors_have_exact_messages() {
    assert_eq!(digest("   ").unwrap_err(), "missing script SHA-256");
    assert_eq!(digest(&format!("{}", "F".repeat(64))).unwrap(), "F".repeat(64));
    assert_eq!(digest(&format!("{}x", "a".repeat(64))).unwrap_err(), "invalid script SHA-256");
    assert_eq!(
        stage_path(&format!("/tmp/rws-nfs-stage.{}", "a".repeat(82))).unwrap_err(),
        "remote staging path has an unexpected shape"
    );
    assert!(stage_path(&format!("/tmp/rws-nfs-stage.{}", "a".repeat(81))).is_ok());
}

#[test]
fn client_and_server_addresses_must_be_tailscale() {
    assert_eq!(client_ip(" 100.64.1.2 \n").unwrap(), "100.64.1.2");
    assert_eq!(client_ip("10.0.0.1\n").unwrap_err(), "SSH did not arrive from a Tailscale IPv4 address");
    assert!(check_server_ip("100.100.100.100").is_ok());
    assert_eq!(
        check_server_ip("box.example").unwrap_err(),
        "the SSH endpoint must resolve to a Tailscale IPv4 address"
    );
}

#[test]
fn remote_commands_quote_every_variable_part() {
    assert_eq!(hash_command("/tmp/rws-nfs-stage.x"), "sha256sum -- '/tmp/rws-nfs-stage.x'");
    assert_eq!(cleanup_command("/tmp/a'b"), "rm -- '/tmp/a'\\''b'");
    assert_eq!(
        setup_command("/tmp/s", Action::Remove, "/srv/my root", "100.64.0.2", "100.64.0.1"),
        "sudo /bin/bash '/tmp/s' remove '/srv/my root' '100.64.0.2' '100.64.0.1'"
    );
    assert_eq!(Action::Setup.name(), "setup");
}

#[test]
fn transfer_is_trusted_only_on_equal_digests() {
    assert!(hashes_match(&Ok("abc".into()), "abc"));
    assert!(!hashes_match(&Ok("abd".into()), "abc"));
    assert!(!hashes_match(&Err("ssh failed".into()), "abc"));
}

#[test]
fn dry_run_and_outcome_messages() {
    let w = Workspace {
        name: "demo".into(),
        host: "dev@box".into(),
        remote_root: "/srv/demo".into(),
        mount_root: "/Volumes/RWS-demo".into(),
    };
    assert_eq!(
        dry_run_message(Action::Setup, &w, "100.64.0.2", "100.64.0.1"),
        "Would run audited RWS NFS setup for demo on dev@box: export /srv/demo, client 100.64.0.2, server 100.64.0.1"
    );
    assert!(outcome(Action::Setup, "/tmp/s", Ok((true, "exit status: 0".into())), Ok(())).is_ok());
    assert_eq!(
        outcome(Action::Remove, "/tmp/s", Ok((false, "exit status: 3".into())), Ok(())).unwrap_err(),
        "remote NFS remove failed with exit status: 3"
    );
    assert_eq!(
        outcome(Action::Setup, "/tmp/s", Ok((true, "x".into())), Err("timeout".into())).unwrap_err(),
        "remote setup finished, but private staging file /tmp/s could not be removed: timeout"
    );
    assert_eq!(
        outcome(Action::Setup, "/tmp/s", Err("ssh timed out".into()), Ok(())).unwrap_err(),
        "ssh timed out"
    );
}
