use rws::config::{Config, MountOptions};
use rws::installation::{
    activated, binding_matches, generation_name, path_string, select_sshfs, source_receipt_directory,
    private_directory_check, sshfs_candidates, sshfs_not_found, state_directory, validate_executable,
    FileFacts, Layout,
};
use rws::workspace::Workspace;

fn config(sshfs: Option<&str>, generation: Option<&str>) -> Config {
    Config {
        version: 1,
        workspaces: vec![Workspace {
            name: "demo".into(),
            host: "dev@host".into(),
            remote_root: "/srv/demo".into(),
            mount_root: "/Volumes/RWS-demo".into(),
        }],
        mount: MountOptions { sshfs: sshfs.map(String::from), fskit: false, nfs: false },
        mount_state_generation: generation.map(String::from),
        mount_intent: vec![],
    }
}

#[test]
fn layout_places_every_part_under_the_root() {
    let l = Layout::macos("/Users/dev");
    assert_eq!(l.root, "/Users/dev/Library/Application Support/RWS");
    assert_eq!(l.config_path(), "/Users/dev/Library/Application Support/RWS/config.json");
    assert_eq!(l.binary(), "/Users/dev/Library/Application Support/RWS/bin/rws");
    let l = Layout::at("/s".into());
    assert_eq!((l.bin(), l.releases(), l.mount_state()), ("/s/bin".to_string(), "/s/releases".to_string(), "/s/mount-state".to_string()));
    assert_eq!(l.release_sshfs("g1"), "/s/releases/g1/sshfs/sshfs");
    assert_eq!(l.staged_binary(77), "/s/bin/rws.77.tmp");
    assert_eq!(generation_name(12, 3456), "release-12-3456");
}

#[test]
fn canonical_installation_rejects_a_conflicting_sshfs_override() {
    let c = config(Some("/r/sshfs/sshfs"), Some("g"));
    assert_eq!(select_sshfs(&c, true, None).unwrap(), "/r/sshfs/sshfs");
    assert_eq!(select_sshfs(&c, true, Some("/r/sshfs//sshfs")).unwrap(), "/r/sshfs/sshfs");
    assert_eq!(
        select_sshfs(&c, true, Some("/opt/other")).unwrap_err(),
        "RWS_SSHFS=/opt/other conflicts with the canonical configured SSHFS /r/sshfs/sshfs; unset RWS_SSHFS or use the managed configuration"
    );
    assert_eq!(select_sshfs(&c, false, Some("/opt/other")).unwrap(), "/opt/other");
    assert_eq!(select_sshfs(&config(None, None), false, None).unwrap(), "sshfs");
}

#[test]
fn relative_sshfs_is_searched_along_path() {
    assert_eq!(sshfs_candidates("/usr/bin:/opt/homebrew/bin", "sshfs"), ["/usr/bin/sshfs", "/opt/homebrew/bin/sshfs"]);
    assert_eq!(sshfs_candidates("", "sshfs"), ["sshfs"]);
    assert_eq!(sshfs_not_found("sshfs"), "cannot find executable SSHFS program sshfs");
}

#[test]
fn executables_must_be_absolute_regular_and_executable() {
    assert_eq!(validate_executable("rel", "RWS", Ok(FileFacts { is_file: true, mode: 0o755 })).unwrap_err(), "RWS executable must be an absolute path");
    assert_eq!(validate_executable("/a", "SSHFS", Err("No such file".into())).unwrap_err(), "inspect SSHFS executable /a: No such file");
    assert_eq!(validate_executable("/a", "SSHFS", Ok(FileFacts { is_file: false, mode: 0o755 })).unwrap_err(), "SSHFS executable must be a regular file: /a");
    assert_eq!(validate_executable("/a", "SSHFS", Ok(FileFacts { is_file: true, mode: 0o644 })).unwrap_err(), "SSHFS executable is not executable: /a");
    assert!(validate_executable("/a", "SSHFS", Ok(FileFacts { is_file: true, mode: 0o700 })).is_ok());
    let l = Layout::at("/s".into());
    assert_eq!(l.require_binary(Ok(FileFacts { is_file: true, mode: 0o700 })).unwrap(), "/s/bin/rws");
    assert!(l.require_binary(Ok(FileFacts { is_file: true, mode: 0o600 })).is_err());
}

#[test]
fn receipts_are_found_and_migrated_only_when_bound_to_the_workspace() {
    assert_eq!(path_string("/r/sshfs/sshfs").unwrap(), "/r/sshfs/sshfs");
    assert_eq!(path_string("r").unwrap_err(), "staged SSHFS path is not absolute");
    assert_eq!(state_directory("/t/source.json", "g"), "/t/mount-state/g/config-736f757263652e6a736f6e");
    assert_eq!(state_directory("config.json", "g"), "mount-state/g/config-636f6e6669672e6a736f6e");
    assert_eq!(source_receipt_directory("/t/source.json", &config(None, None)), "/t/source.json.mount-state");
    assert_eq!(source_receipt_directory("/t/source.json", &config(None, Some("g"))), "/t/mount-state/g/config-736f757263652e6a736f6e");
    let w = &config(None, None).workspaces[0];
    assert!(binding_matches("dev@host", "/srv/demo", "/Volumes/RWS-demo", w));
    assert!(!binding_matches("attacker", "/", "/Volumes/RWS-demo", w));
}

#[test]
fn activation_changes_only_sshfs_and_generation() {
    let c = activated(config(None, None), "/r/sshfs/sshfs".into(), "g".into());
    assert_eq!(c.mount.sshfs.as_deref(), Some("/r/sshfs/sshfs"));
    assert_eq!(c.mount_state_generation.as_deref(), Some("g"));
    assert_eq!(c.workspaces.len(), 1);
    assert_eq!(c.version, 1);
}

#[test]
fn private_directories_must_be_real_and_are_narrowed_when_open() {
    let facts = |is_symlink: bool, is_dir: bool, mode: u32| rws::lifecycle::PathFacts {
        is_symlink,
        is_dir,
        is_file: false,
        owned: true,
        mode,
    };
    let p = "/R/releases";
    assert_eq!(private_directory_check(p, Ok(facts(false, true, 0o700))).unwrap(), false);
    assert_eq!(private_directory_check(p, Ok(facts(false, true, 0o755))).unwrap(), true);
    assert_eq!(private_directory_check(p, Ok(facts(true, false, 0o700))).unwrap_err(), "private directory is unsafe: /R/releases");
    assert_eq!(private_directory_check(p, Ok(facts(false, false, 0o700))).unwrap_err(), "private directory is unsafe: /R/releases");
    assert_eq!(private_directory_check(p, Err("gone".into())).unwrap_err(), "inspect private directory /R/releases: gone");
}
