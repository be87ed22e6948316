use rws::config::{Config, MountOptions};
use rws::routing::{git_environment, git_path, gitdir_value, resolve_directory, trim_line_end_exec};
use rws::workspace::Workspace;

fn workspace(name: &str, root: &str) -> Workspace {
    Workspace {
        name: name.into(),
        host: "dev@host".into(),
        remote_root: format!("/srv/{name}"),
        mount_root: root.into(),
    }
}

fn config(ws: Vec<Workspace>) -> Config {
    Config { version: 1, workspaces: ws, mount: MountOptions::default(), mount_state_generation: None, mount_intent: vec![] }
}

fn ok(s: &str) -> Result<String, String> {
    Ok(s.to_string())
}

#[test]
fn directory_inside_a_workspace_maps_to_its_remote_path() {
    let c = config(vec![workspace("a", "/Volumes/A"), workspace("b", "/Volumes/B")]);
    let roots = [ok("/Volumes/A"), ok("/Volumes/B")];
    let (w, remote) = resolve_directory(&c, "/Volumes/B/src", "/Volumes/B/src", true, &[ok("/Volumes/B").unwrap(), ok("/Volumes").unwrap(), ok("/").unwrap()], &roots, &roots)
        .unwrap()
        .unwrap();
    assert_eq!((w.name.as_str(), remote.as_str()), ("b", "/srv/b/src"));
}

#[test]
fn outside_every_workspace_is_local_unless_on_an_rws_volume() {
    let c = config(vec![workspace("a", "/Volumes/A")]);
    let roots = [ok("/Volumes/A")];
    assert!(resolve_directory(&c, "/Users/dev/p", "/Users/dev/p", true, &["/Users/dev".into(), "/Users".into(), "/".into()], &roots, &roots)
        .unwrap()
        .is_none());
    assert_eq!(
        resolve_directory(&c, "/Volumes/RWS-x/y", "/Volumes/RWS-x/y", true, &["/Volumes/RWS-x".into(), "/Volumes".into(), "/".into()], &roots, &roots)
            .unwrap_err(),
        "unregistered RWS volume; register it before running commands; no local fallback"
    );
}

#[test]
fn escapes_relative_paths_and_ambiguity_are_refused() {
    let c = config(vec![workspace("a", "/Volumes/A")]);
    let roots = [ok("/Volumes/A")];
    assert_eq!(
        resolve_directory(&c, "/Volumes/A/link", "/Users/dev/elsewhere", true, &["/Volumes/A".into(), "/Volumes".into(), "/".into()], &roots, &roots)
            .unwrap_err(),
        "working directory escapes its registered RWS workspace through a symlink"
    );
    assert_eq!(
        resolve_directory(&c, "worktree://x", "/x", true, &[], &roots, &roots).unwrap_err(),
        "working directory must be an absolute filesystem path, not a worktree:// URI"
    );
    assert_eq!(
        resolve_directory(&c, "/Volumes/A/f", "/Volumes/A/f", false, &[], &roots, &roots).unwrap_err(),
        "working directory must be a directory"
    );
    let twice = config(vec![workspace("a", "/Volumes/A"), workspace("b", "/Volumes/A2")]);
    let same = [ok("/Volumes/A"), ok("/Volumes/A")];
    assert_eq!(
        resolve_directory(&twice, "/Volumes/A/x", "/Volumes/A/x", true, &[], &same, &same).unwrap_err(),
        "working directory matches multiple RWS workspaces"
    );
    assert_eq!(
        resolve_directory(&c, "/x", "/x", true, &[], &[Err("resolve mount path: denied".into())], &roots).unwrap_err(),
        "resolve mount path: denied"
    );
}

#[test]
fn git_paths_map_remote_metadata_back_to_the_mount() {
    let w = workspace("p", "/Volumes/P");
    assert_eq!(git_path(&w, "/Volumes/P/repo", "/srv/p/repo/.git/worktrees/x").unwrap(), "/Volumes/P/repo/.git/worktrees/x");
    assert_eq!(git_path(&w, "/Volumes/P/repo", "../main/.git").unwrap(), "/Volumes/P/repo/../main/.git");
    assert_eq!(git_path(&w, "/Volumes/P/repo", "/Volumes/P/x/.git").unwrap(), "/Volumes/P/x/.git");
    assert_eq!(git_path(&w, "/b", "").unwrap_err(), "unsupported Git metadata path");
    assert_eq!(gitdir_value("gitdir: /srv/p/.git/worktrees/a\r\n").unwrap(), "/srv/p/.git/worktrees/a");
    assert_eq!(gitdir_value("nope").unwrap_err(), "unsupported .git file (expected gitdir:)");
    assert_eq!(trim_line_end_exec("x\n\r\n"), "x");
}

#[test]
fn git_environment_scopes_one_repository_and_rewrites_mounted_urls() {
    let w = workspace("p", "/tmp/P");
    let env = git_environment(&w, "/private/tmp/P", "/srv/p/r/.git".into(), "/srv/p/r".into(), "/srv/p/r/.git".into());
    let pairs: Vec<(&str, &str)> = env.iter().map(|(k, v)| (k.as_str(), v.as_str())).collect();
    assert_eq!(
        pairs,
        [
            ("GIT_DIR", "/srv/p/r/.git"),
            ("GIT_WORK_TREE", "/srv/p/r"),
            ("GIT_COMMON_DIR", "/srv/p/r/.git"),
            ("GIT_CONFIG_COUNT", "2"),
            ("GIT_CONFIG_KEY_0", "url./srv/p/.insteadOf"),
            ("GIT_CONFIG_VALUE_0", "/tmp/P/"),
            ("GIT_CONFIG_KEY_1", "url./srv/p/.insteadOf"),
            ("GIT_CONFIG_VALUE_1", "/private/tmp/P/"),
        ]
    );
    let env = git_environment(&w, "/tmp/P/", "a".into(), "b".into(), "c".into());
    assert_eq!(env[3], ("GIT_CONFIG_COUNT".to_string(), "1".to_string()));
}
