use rws::autostart::Status;
use rws::maintenance::{
    check, check_line, configuration_claims, launch_agent_result, line_claim, managed_hook_lines,
    manages_configuration, mount_result, nfs_client_result, repair_action, repair_allowed,
    report_failed, rules_block, rules_result, shell_hook_result, shell_word, ssh_result, tool_result,
    Check, Claim, MountState, RepairAction,
};
use rws::maintenance::hook_refresh_allowed;
use rws::shell_hook::{install_line, MARKER};

fn manages(text: &str, path: &str) -> bool {
    match configuration_claims(text) {
        None => false,
        Some(claims) => {
            let same = vec![false; claims.len()];
            manages_configuration(&claims, path, Some("/canonical/config.json"), false, &same)
        }
    }
}

#[test]
fn configuration_authority_comes_from_the_argument_only() {
    let current = "/durable/config's.json";
    let custom = "/opt/custom.json";
    let hook = |binary: &str, config: &str| install_line(binary, Some(config)).unwrap();
    assert!(manages(&hook("/opt/rws", current), current));
    assert!(manages(&hook("/opt/rws", "/old/.rws-local/setup.json"), current));
    assert!(!manages(&hook("/old/.rws-local/rws", custom), current));
    assert!(!manages(
        &format!("{} # migrated from /old/.rws-local/setup.json", hook("/opt/rws", custom)),
        current
    ));
    assert!(!manages(
        &format!("{} # --config '/durable/config'\\''s.json'", hook("/opt/rws", custom)),
        current
    ));
}

#[test]
fn a_hook_without_config_needs_the_canonical_configuration() {
    let line = install_line("/opt/rws", None).unwrap();
    let claims = configuration_claims(&line).unwrap();
    assert!(matches!(claims.as_slice(), [Claim::Canonical]));
    assert!(manages_configuration(&claims, "/canonical/config.json", Some("/canonical/config.json"), false, &[false]));
    assert!(!manages_configuration(&claims, "/other.json", Some("/canonical/config.json"), false, &[false]));
    assert!(manages_configuration(&claims, "/alias.json", Some("/canonical/config.json"), true, &[false]));
    assert!(!manages_configuration(&claims, "/canonical/config.json", None, true, &[false]));
    assert!(!manages_configuration(&[], "/x", None, false, &[]));
    let same = configuration_claims(&install_line("/opt/rws", Some("/link.json")).unwrap()).unwrap();
    assert!(manages_configuration(&same, "/real.json", None, false, &[true]));
}

#[test]
fn unrecognized_managed_commands_reject_the_whole_text() {
    assert!(configuration_claims("eval \"$(rws $(evil) hook zsh)\"").is_none());
    assert!(configuration_claims("'/opt/rws' --other x").is_none());
    assert_eq!(configuration_claims("export X=1\n# note").unwrap().len(), 0);
    assert!(matches!(line_claim("  '/r' --config '/c' hook zsh)\""), Ok(Some(Claim::Config(ref c))) if c == "/c"));
    assert!(matches!(line_claim("plain"), Ok(None)));
}

#[test]
fn shell_words_decode_quotes_and_escapes() {
    assert_eq!(shell_word("  'a b'c\\ d rest").unwrap(), ("a bc d".to_string(), " rest".to_string()));
    assert_eq!(shell_word("'it'\\''s'").unwrap(), ("it's".to_string(), String::new()));
    assert!(shell_word("'open").is_none());
    assert!(shell_word("a$b").is_none());
    assert!(shell_word("   ").is_none());
    assert!(shell_word("x\\").is_none());
}

#[test]
fn rules_block_is_taken_between_the_markers() {
    let text = "a\n<!-- BEGIN RWS REMOTE EXECUTION -->\nbody\n<!-- END RWS REMOTE EXECUTION -->\nz";
    assert_eq!(rules_block(text).unwrap(), "\nbody\n");
    assert_eq!(rules_block("none").unwrap_err(), "missing managed rules block");
}

#[test]
fn hook_lines_are_the_active_marked_ones() {
    let text = format!("# {MARKER}\n  eval x {MARKER}\nother\n");
    assert_eq!(managed_hook_lines(&text), [format!("  eval x {MARKER}")]);
}

#[test]
fn check_results_read_as_reports_spell_them() {
    let c = check("mount:demo".into(), Err("disconnected".into()));
    assert_eq!(check_line("before", &c), "before mount:demo [error]: disconnected");
    assert_eq!(check_line("after", &check("ssh".into(), Ok("available".into()))), "after ssh [ok]: available");
    assert_eq!(
        mount_result(MountState::Verified(Err("no response within 4 seconds".into())), "demo").unwrap_err(),
        "verified but unresponsive: no response within 4 seconds; use repair --mounts --workspace demo"
    );
    assert_eq!(mount_result(MountState::Verified(Ok(())), "d").unwrap(), "verified and responsive");
    assert_eq!(mount_result(MountState::Disconnected, "d").unwrap_err(), "disconnected");
    assert!(mount_result(MountState::Unverified, "d").unwrap_err().contains("unverified"));
    assert_eq!(mount_result(MountState::Unreadable("boom".into()), "d").unwrap_err(), "boom");
    assert_eq!(ssh_result(true, "/srv/x\n", "").unwrap(), "reachable: /srv/x");
    assert_eq!(ssh_result(false, "", " denied \n").unwrap_err(), "SSH failed: denied");
    assert_eq!(tool_result(false).unwrap_err(), "missing");
    assert_eq!(nfs_client_result(true).unwrap(), "macOS native NFS client available");
    assert!(launch_agent_result(Status::Current).is_none());
    assert_eq!(
        launch_agent_result(Status::Stale).unwrap().unwrap_err(),
        "stale on-disk configuration; run repair (effective at next login)"
    );
    assert_eq!(shell_hook_result(false, false, false).unwrap(), "not enabled (left unchanged)");
    assert_eq!(shell_hook_result(true, true, false).unwrap_err(), "stale or duplicate managed hook references; run repair");
    assert_eq!(rules_result(true, false, false).unwrap(), "custom configuration retained; not reconciled by this setup");
}

fn c(id: &str, ok: bool, detail: &str) -> Check {
    Check { id: id.into(), ok, detail: detail.into() }
}

#[test]
fn repairs_touch_only_known_dead_mounts_with_reachable_ssh() {
    let before = vec![
        c("configuration", true, "/cfg"),
        c("mount:a", true, "verified and responsive"),
        c("mount:b", false, "disconnected"),
        c("ssh:b", true, "reachable: /srv/b"),
        c("mount:d", false, "verified but unresponsive: timeout"),
        c("ssh:d", true, "reachable"),
        c("mount:e", false, "unverified mount; not eligible for automatic repair"),
        c("ssh:e", true, "reachable"),
        c("mount:f", false, "disconnected"),
        c("ssh:f", false, "SSH failed"),
    ];
    assert!(repair_allowed(&before));
    assert_eq!(repair_action(&before, "a"), RepairAction::Healthy);
    assert_eq!(repair_action(&before, "b"), RepairAction::Reconnect { repair: false });
    assert_eq!(repair_action(&before, "d"), RepairAction::Reconnect { repair: true });
    assert_eq!(repair_action(&before, "e"), RepairAction::Refuse);
    assert_eq!(repair_action(&before, "f"), RepairAction::Refuse);
    assert_eq!(repair_action(&before, "missing"), RepairAction::Refuse);
    assert!(!repair_allowed(&[c("configuration", false, "missing")]));
    assert!(!repair_allowed(&[c("workspace", false, "unknown workspace: x")]));
    assert!(report_failed(&before, &[], None));
    assert!(!report_failed(&before, &[], Some(&[c("x", true, "")])));
    assert!(report_failed(&[], &[c("repair:b", false, "")], Some(&[])));
}

#[test]
fn hook_lines_are_refreshed_only_when_all_manage_this_configuration() {
    assert!(hook_refresh_allowed(&[]));
    assert!(hook_refresh_allowed(&[true, true]));
    assert!(!hook_refresh_allowed(&[true, false]));
    assert!(!hook_refresh_allowed(&[false]));
}
