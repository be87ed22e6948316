use rws::config::{validate_mount_state_generation, Config, MountIntent, MountOptions};
use rws::workspace::Workspace;

fn workspace(name: &str, root: &str) -> Workspace {
    Workspace {
        name: name.into(),
        host: "host".into(),
        remote_root: format!("/srv/{name}"),
        mount_root: root.into(),
    }
}

fn config(generation: Option<&str>) -> Config {
    Config {
        version: 1,
        workspaces: vec![],
        mount: MountOptions::default(),
        mount_state_generation: generation.map(String::from),
        mount_intent: vec![],
    }
}

#[test]
fn rejects_an_unsafe_mount_state_generation() {
    let result = config(Some("../other")).validate();
    assert!(matches!(result, Err(ref error) if error.contains("mount-state generation")));
}

#[test]
fn generation_names_are_plain_tokens() {
    assert!(validate_mount_state_generation("release-20260922_1").is_ok());
    for g in ["", "a/b", "..", "a b", "é"] {
        assert!(validate_mount_state_generation(g).is_err(), "{g}");
    }
}

#[test]
fn loading_checks_version_sshfs_and_workspaces() {
    let mut c = config(None);
    assert!(c.validate().is_ok());
    c.version = 2;
    assert_eq!(c.validate().unwrap_err(), "unsupported config version");
    c.version = 1;
    c.mount.sshfs = Some("sshfs".into());
    assert!(c.validate().is_err());
    c.mount.sshfs = Some("/opt/sshfs".into());
    assert!(c.validate().is_ok());
    c.workspaces = vec![workspace("a", "/Volumes/A"), workspace("a", "/Volumes/B")];
    assert_eq!(c.validate().unwrap_err(), "workspace name already exists or mount roots overlap");
    c.workspaces = vec![workspace("a", "/Volumes/A"), workspace("b", "/Volumes/A/nested")];
    assert!(c.validate().is_err());
    c.workspaces = vec![workspace("a", "/Volumes/A"), workspace("b", "/Volumes/AB")];
    assert!(c.validate().is_ok());
}

#[test]
fn mount_intent_roundtrips_and_preserves_other_settings() {
    let mut c = config(Some("release"));
    c.mount = MountOptions { sshfs: Some("/opt/sshfs".into()), fskit: true, nfs: false };
    c.workspaces = vec![workspace("demo", "/Volumes/demo"), workspace("other", "/Volumes/other")];
    assert_eq!(c.mount_intent("demo"), MountIntent::Connected);
    c.set_mount_intent("demo", MountIntent::Paused).unwrap();
    assert_eq!(c.mount_intent("demo"), MountIntent::Paused);
    assert_eq!(c.mount_intent("other"), MountIntent::Connected);
    assert_eq!(c.mount.sshfs.as_deref(), Some("/opt/sshfs"));
    assert!(c.mount.fskit);
    assert_eq!(c.mount_state_generation.as_deref(), Some("release"));
    c.set_mount_intent("demo", MountIntent::Connected).unwrap();
    assert_eq!(c.mount_intent("demo"), MountIntent::Connected);
    assert_eq!(c.set_mount_intent("missing", MountIntent::Paused).unwrap_err(), "unknown workspace: missing");
}

#[test]
fn registration_rejects_duplicates_and_overlapping_roots() {
    let mut c = config(None);
    c.add(workspace("a", "/Volumes/A"), &Ok("/Volumes/A".into()), &vec![]).unwrap();
    assert_eq!(c.workspaces.len(), 1);
    let roots = vec![Ok("/Volumes/A".to_string())];
    assert!(c.add(workspace("a", "/Volumes/Z"), &Ok("/Volumes/Z".into()), &roots).is_err());
    assert!(c.add(workspace("b", "/Volumes/A/x"), &Ok("/Volumes/A/x".into()), &roots).is_err());
    assert!(c.add(workspace("b bad", "/Volumes/B"), &Ok("/Volumes/B".into()), &roots).is_err());
    assert_eq!(
        c.add(workspace("b", "/Volumes/B"), &Err("resolve mount path: denied".into()), &roots).unwrap_err(),
        "resolve mount path: denied"
    );
    c.add(workspace("b", "/Volumes/B"), &Ok("/Volumes/B".into()), &roots).unwrap();
    assert_eq!(c.workspaces.len(), 2);
    assert_eq!(c.find("b").unwrap().mount_root, "/Volumes/B");
}

#[test]
fn settings_are_checked_before_they_are_saved() {
    let mut c = config(None);
    assert!(c.set_mount_options(MountOptions { sshfs: Some("relative".into()), fskit: false, nfs: false }).is_err());
    assert!(c.mount.sshfs.is_none());
    c.set_mount_options(MountOptions { sshfs: None, fskit: false, nfs: true }).unwrap();
    assert!(c.mount.nfs);
}

#[test]
fn an_empty_registry_is_version_one() {
    let c = Config::empty();
    assert_eq!(c.version, 1);
    assert!(c.workspaces.is_empty());
    assert!(c.validate().is_ok());
}

#[test]
fn updates_keep_a_loadable_registry_loadable() {
    let mut c = config(None);
    for (name, root) in [("a", "/Volumes/RWS-a"), ("b", "/Volumes/RWS-b"), ("c", "/Users/me/c")] {
        let roots: Vec<Result<String, String>> = c.workspaces.iter().map(|w| Ok(w.mount_root.clone())).collect();
        c.add(workspace(name, root), &Ok(root.to_string()), &roots).unwrap();
        assert!(c.validate().is_ok());
    }
    let roots: Vec<Result<String, String>> = c.workspaces.iter().map(|w| Ok(w.mount_root.clone())).collect();
    assert!(c.add(workspace("d", "/Volumes/RWS-a/inner"), &Ok("/Volumes/RWS-a/inner".to_string()), &roots).is_err());
    c.set_mount_intent("b", MountIntent::Paused).unwrap();
    c.set_mount_options(MountOptions { sshfs: Some("/opt/sshfs".into()), fskit: true, nfs: false }).unwrap();
    assert!(c.validate().is_ok());
}

#[test]
fn repeated_intent_updates_keep_one_entry_per_workspace() {
    let mut c = config(None);
    c.workspaces = vec![workspace("demo", "/Volumes/demo"), workspace("other", "/Volumes/other")];
    c.set_mount_intent("demo", MountIntent::Paused).unwrap();
    c.set_mount_intent("other", MountIntent::Paused).unwrap();
    c.set_mount_intent("demo", MountIntent::Connected).unwrap();
    c.set_mount_intent("demo", MountIntent::Paused).unwrap();
    let demo_entries = c.mount_intent.iter().filter(|(n, _)| n == "demo").count();
    let other_entries = c.mount_intent.iter().filter(|(n, _)| n == "other").count();
    assert_eq!((demo_entries, other_entries), (1, 1));
    assert_eq!(c.mount_intent("demo"), MountIntent::Paused);
    assert_eq!(c.mount_intent("other"), MountIntent::Paused);
}
