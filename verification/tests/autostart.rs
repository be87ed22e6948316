use rws::autostart::{is_legacy_plist_filename, is_managed, log_directory, plist, status, xml, Status};

#[test]
fn plist_starts_the_generic_autostart_runner() {
    let text = plist("/opt/rws").unwrap();
    assert!(text.contains("<key>StartInterval</key><integer>30</integer>"));
    assert!(text.contains("<key>Label</key><string>io.rws.mounts</string>"));
    assert!(text.contains(
        "<key>ProgramArguments</key><array><string>/opt/rws</string><string>autostart</string><string>run</string></array>"
    ));
    assert!(text.contains("<key>RunAtLoad</key><true/>"));
    assert!(text.contains("<key>SuccessfulExit</key><false/>"));
    assert!(!text.contains("--config"));
    assert!(!text.contains("<string>mount</string>"));
}

#[test]
fn plist_requires_an_absolute_binary_path() {
    assert_eq!(
        plist("rws").unwrap_err(),
        "autostart requires an absolute binary path"
    );
}

#[test]
fn recognizes_only_exact_validated_legacy_agent_filenames() {
    for name in ["io.rws.mount.demo.plist", "io.rws.mount.-demo_42.plist"] {
        assert!(is_legacy_plist_filename(name), "{name}");
    }
    for name in [
        "io.rws.mounts.plist",
        "io.rws.mount..plist",
        "io.rws.mount.demo.extra.plist",
        "io.rws.mount.demo",
        "com.example.plist",
        "io.rws.mount.démo.plist",
    ] {
        assert!(!is_legacy_plist_filename(name), "{name}");
    }
}

#[test]
fn legacy_filenames_are_judged_by_their_last_component() {
    assert!(is_legacy_plist_filename("/Users/a/Library/LaunchAgents/io.rws.mount.demo.plist"));
    assert!(is_legacy_plist_filename("/Users/a/io.rws.mount.demo.plist/"));
    assert!(!is_legacy_plist_filename("/Users/a/io.rws.mount.demo.plist/.."));
}

#[test]
fn plist_writes_the_exact_agent_text() {
    let text = plist("/Users/dev/Library/Application Support/RWS/bin/rws").unwrap();
    assert_eq!(
        text,
        "<?xml version=\"1.0\" encoding=\"UTF-8\"?>\n<!DOCTYPE plist PUBLIC \"-//Apple//DTD PLIST 1.0//EN\" \"http://www.apple.com/DTDs/PropertyList-1.0.dtd\">\n<plist version=\"1.0\"><dict>\n<key>Label</key><string>io.rws.mounts</string>\n<key>ProgramArguments</key><array><string>/Users/dev/Library/Application Support/RWS/bin/rws</string><string>autostart</string><string>run</string></array>\n<key>RunAtLoad</key><true/><key>KeepAlive</key><dict><key>SuccessfulExit</key><false/></dict><key>ThrottleInterval</key><integer>30</integer>\n<key>StartInterval</key><integer>30</integer>\n<key>StandardOutPath</key><string>/Users/dev/Library/Application Support/RWS/logs/autostart.log</string>\n<key>StandardErrorPath</key><string>/Users/dev/Library/Application Support/RWS/logs/autostart.err.log</string>\n</dict></plist>\n"
    );
}

#[test]
fn plist_escapes_xml_in_paths() {
    let text = plist("/old & <setup>/bin/rws").unwrap();
    assert!(text.contains("<string>/old &amp; &lt;setup&gt;/bin/rws</string>"));
    assert_eq!(xml("a&b<c>d"), "a&amp;b&lt;c&gt;d");
    assert_eq!(xml("&lt;"), "&amp;lt;");
}

#[test]
fn log_directory_is_beside_bin_and_needs_an_installation_root() {
    assert_eq!(log_directory("/opt/RWS/bin/rws").unwrap(), "/opt/RWS/logs");
    assert_eq!(log_directory("/opt/rws").unwrap(), "/logs");
    assert_eq!(log_directory("/rws").unwrap_err(), "binary has no installation root");
    assert_eq!(plist("/rws").unwrap_err(), "binary has no installation root");
}

fn old_forms(current: &str) -> (String, String, String) {
    let legacy: String = current
        .lines()
        .filter(|l| !l.starts_with("<key>StandardOutPath") && !l.starts_with("<key>StandardErrorPath"))
        .map(|l| format!("{l}\n"))
        .collect();
    let old = current.replace("<key>StartInterval</key><integer>30</integer>\n", "");
    let old_without_logs = legacy.replace("<key>StartInterval</key><integer>30</integer>\n", "");
    (legacy, old, old_without_logs)
}

#[test]
fn every_generation_of_the_agent_is_recognized_and_nothing_else() {
    let current = plist("/old & setup/bin/rws").unwrap();
    let (legacy, old, old_without_logs) = old_forms(&current);
    assert!(is_managed(&current));
    assert!(is_managed(&legacy));
    assert!(is_managed(&old));
    assert!(is_managed(&old_without_logs));
    assert!(!is_managed("custom"));
    let disabled = current.replace("<key>RunAtLoad</key><true/>", "<key>RunAtLoad</key><false/>");
    assert!(!is_managed(&disabled));
    assert!(!is_managed(&format!("{current}extra")));
}

#[test]
fn status_distinguishes_absent_custom_current_and_stale() {
    let binary = "/x/RWS/bin/rws";
    let current = plist(binary).unwrap();
    let (legacy, _, _) = old_forms(&current);
    assert_eq!(status(None, false, binary).unwrap(), Status::Absent);
    assert_eq!(status(None, true, binary).unwrap(), Status::Custom);
    assert_eq!(status(Some(&current), true, binary).unwrap(), Status::Current);
    assert_eq!(status(Some(&legacy), true, binary).unwrap(), Status::Stale);
    assert_eq!(status(Some(&current), true, "rws").unwrap_err(), "autostart requires an absolute binary path");
}
