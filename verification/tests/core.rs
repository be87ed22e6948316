use rws::transport::{remote_agent, remote_command, remote_shell};
use rws::workspace::Workspace;

fn workspace(root: &str) -> Workspace {
    Workspace {
        name: "demo".into(),
        host: "dev@server".into(),
        remote_root: "/srv/my project".into(),
        mount_root: root.into(),
    }
}

#[test]
fn rejects_option_injection_and_relative_or_traversing_roots() {
    let mut w = workspace("/tmp/rws-demo");
    assert!(w.validate().is_ok());
    for host in ["-oProxyCommand=bad", "host name", "host;id", "", "user@@host"] {
        w.host = host.into();
        assert!(w.validate().is_err(), "{host}");
    }
    w.host = "dev@server".into();
    for path in ["relative", "/srv/../etc", "/srv\0bad"] {
        w.remote_root = path.into();
        assert!(w.validate().is_err(), "{path}");
    }
}

#[test]
fn validation_reports_the_first_broken_rule() {
    let mut w = workspace("/tmp/rws-demo");
    w.name = "a b".into();
    assert_eq!(w.validate().unwrap_err(), "workspace name must contain only letters, digits, _ or -");
    w.name = "demo".into();
    w.host = "@host".into();
    assert_eq!(
        w.validate().unwrap_err(),
        "use an SSH alias or user@host (configure ports and IPv6 in SSH config)"
    );
    w.host = "user@".into();
    assert!(w.validate().is_err());
    w.host = "dev@server".into();
    w.mount_root = "/".into();
    assert_eq!(w.validate().unwrap_err(), "the filesystem root cannot be a mount point");
    w.mount_root = "/a/../b".into();
    assert_eq!(w.validate().unwrap_err(), "workspace roots must be absolute UTF-8 paths without .. or NUL");
}

#[test]
fn maps_nested_paths_but_rejects_sibling_prefix() {
    let w = workspace("/tmp/x/project");
    assert_eq!(
        w.remote_path("/private/tmp/x/project", "/private/tmp/x/project/src").unwrap(),
        "/srv/my project/src"
    );
    assert_eq!(w.remote_path("/private/tmp/x/project", "/private/tmp/x/project").unwrap(), "/srv/my project");
    assert_eq!(
        w.remote_path("/private/tmp/x/project", "/private/tmp/x/project-other").unwrap_err(),
        "path is outside workspace"
    );
    let mut slash = workspace("/tmp/x/project");
    slash.remote_root = "/srv/data/".into();
    assert_eq!(slash.remote_path("/r", "/r/a/b").unwrap(), "/srv/data/a/b");
}

#[test]
fn remote_commands_quote_every_argument() {
    assert_eq!(
        remote_command("/srv/my project", &["printf".into(), "a'b".into(), "".into()]).unwrap(),
        "cd '/srv/my project' && exec 'printf' 'a'\\''b' ''"
    );
    assert_eq!(
        remote_command("relative", &["pwd".into()]).unwrap_err(),
        "remote directory must be absolute and contain no NUL"
    );
    assert_eq!(
        remote_command("/srv", &["-rf".into()]).unwrap_err(),
        "provide a command after --; arguments must contain no NUL"
    );
    assert!(remote_command("/srv", &[]).is_err());
    assert_eq!(remote_shell("/srv").unwrap(), "cd '/srv' && exec \"${SHELL:-/bin/sh}\" -l");
    assert_eq!(
        remote_agent("/srv", &["build-tool".into()]).unwrap(),
        "exec \"${SHELL:-/bin/sh}\" -lc 'cd '\\''/srv'\\'' && { printf '\\''RWS remote identity: '\\'' >&2; hostname >&2; uname -s >&2; pwd >&2; } && exec '\\''build-tool'\\'''"
    );
}
