//! Concrete instances of the laws that the library proves in general.
use rws::agent_rules::{managed_rules, merge, updated_rules, BEGIN, END};
use rws::autostart::{is_managed, plist, status, xml, Status};
use rws::lifecycle::{receipt_for, receipt_path, verified, MountIdentity};
use rws::maintenance::shell_word;
use rws::config::{Config, MountOptions};
use rws::shell_hook::{install, references_current, refresh_existing};
use rws::text::shell_quote;
use rws::workspace::Workspace;

#[test]
fn shell_word_reads_back_every_quoted_word() {
    for x in ["", "plain", "it's", "''", "a b\tc", "$(rm -rf /)", "\\n", "日本語"] {
        let q = shell_quote(x);
        assert_eq!(shell_word(&q).unwrap(), (x.to_string(), String::new()));
        assert_eq!(shell_word(&format!("{q} tail")).unwrap(), (x.to_string(), " tail".to_string()));
    }
}

#[test]
fn installing_rules_twice_equals_installing_once() {
    let block = managed_rules("/c/config.json", "/b/rws").unwrap();
    for original in ["", "mine\n", "mine", &format!("a\n{BEGIN}\nold\n{END}\nb")] {
        let once = merge(original, &block).unwrap();
        assert_eq!(merge(&once, &block).unwrap(), once);
    }
}

#[test]
fn refresh_without_an_active_hook_changes_nothing() {
    for text in ["", "export X=1\n", "# eval \"$('/o' hook zsh)\" # RWS auto-shell hook\n\u{ff}"] {
        assert_eq!(refresh_existing(Some(text.as_bytes()), "/new/rws", None).unwrap(), None);
    }
}

#[test]
fn separate_configuration_files_never_share_receipts() {
    let c = Config {
        version: 1,
        workspaces: vec![],
        mount: MountOptions::default(),
        mount_state_generation: Some("g".into()),
        mount_intent: vec![],
    };
    let w = Workspace { name: "demo".into(), host: "h".into(), remote_root: "/r".into(), mount_root: "/m".into() };
    let names = ["a.json", "b.json", "a.jso", "config.json", "é.json"];
    for x in names {
        for y in names {
            if x != y {
                assert_ne!(receipt_path(&format!("/d/{x}"), &c, &w), receipt_path(&format!("/d/{y}"), &c, &w));
            }
        }
    }
}

#[test]
fn the_mount_root_maps_to_the_remote_root() {
    let w = Workspace { name: "demo".into(), host: "h".into(), remote_root: "/srv/x/".into(), mount_root: "/Volumes/X".into() };
    assert_eq!(w.remote_path("/Volumes/X", "/Volumes/X").unwrap(), "/srv/x/");
}

#[test]
fn a_receipt_vouches_exactly_for_its_identity() {
    let w = Workspace { name: "demo".into(), host: "h".into(), remote_root: "/r".into(), mount_root: "/m".into() };
    let recorded = MountIdentity { source: "s".into(), filesystem: "f".into(), id: vec![1, 2] };
    let c = Config { version: 1, workspaces: vec![], mount: MountOptions::default(), mount_state_generation: None, mount_intent: vec![] };
    let r = receipt_for(&w, recorded.clone());
    assert!(verified(&c, false, false, Some(&r), &w, &recorded));
    let other = MountIdentity { id: vec![1, 3], ..recorded };
    assert!(!verified(&c, false, false, Some(&r), &w, &other));
}

#[test]
fn an_installed_hook_is_the_current_one() {
    let stale = "  eval \"$('/old/rws' hook zsh)\" # RWS auto-shell hook # mine\n";
    for original in [None, Some(""), Some("export X=1"), Some(stale), Some("a\n\u{e9}\n")] {
        let bytes = original.map(str::as_bytes);
        let (_, written) = install(bytes, "/opt/rws", Some("/c/config.json")).unwrap();
        let after = written.unwrap_or_else(|| bytes.unwrap().to_vec());
        assert!(references_current(Some(&after), "/opt/rws", Some("/c/config.json")).unwrap());
        assert!(!references_current(Some(&after), "/other/rws", Some("/c/config.json")).unwrap());
    }
}

#[test]
fn a_written_agent_is_recognized_as_managed() {
    for binary in ["/A/RWS/bin/rws", "/Users/a&b/<x>/bin/rws", "/o/&amp;/bin/rws", "/u/Program Files/bin/rws"] {
        let written = plist(binary).unwrap();
        assert!(is_managed(&written), "{written}");
        assert_eq!(status(Some(&written), true, binary).unwrap(), Status::Current);
        assert!(!is_managed(&written.replace("autostart", "doctor")));
    }
    assert_eq!(xml("a&<b>"), "a&amp;&lt;b&gt;");
}

#[test]
fn installed_rules_are_current() {
    let current = |text: &str| rws::agent_rules::references_current("/c/config.json", "/b/rws", Some(text)).unwrap();
    for existing in [None, Some("mine\n"), Some("mine")] {
        let written = updated_rules("/c/config.json", "/b/rws", "/d/AGENT.md", existing).unwrap().unwrap();
        assert!(current(&written));
        assert_eq!(updated_rules("/c/config.json", "/b/rws", "/d/AGENT.md", Some(&written)).unwrap(), None);
    }
    assert!(!current("mine\n"));
}

#[test]
fn a_quoted_command_line_reads_back_as_its_arguments() {
    let argv: Vec<String> = ["git", "commit", "-m", "it's $(done)", "a b", "", "\\n", "\u{e9}t\u{e9}"]
        .iter()
        .map(|s| s.to_string())
        .collect();
    let mut rest = rws::transport::quote_words(&argv);
    let mut read = Vec::new();
    while !rest.trim_start().is_empty() {
        let (word, after) = shell_word(&rest).unwrap();
        read.push(word);
        rest = after;
    }
    assert_eq!(read, argv);
}

#[test]
fn a_refreshed_hook_is_current() {
    let stale = "export A=1\n  eval \"$('/old/rws' hook zsh)\" # RWS auto-shell hook # note\nexport B=2";
    let updated = refresh_existing(Some(stale.as_bytes()), "/new/rws", None).unwrap().unwrap();
    assert!(references_current(Some(&updated), "/new/rws", None).unwrap());
    assert!(!references_current(Some(stale.as_bytes()), "/new/rws", None).unwrap());
    assert_eq!(refresh_existing(Some(&updated), "/new/rws", None).unwrap(), None);
}
