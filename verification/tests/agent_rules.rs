use rws::agent_rules::{
    backup_directory, managed_block_present, managed_rules, merge, quoted_absolute, references_current,
    rules_candidates, rules_directories, selects, updated_rules, BEGIN, END,
};

const CONFIG: &str = "/tmp/t/rws config's.toml";
const BINARY: &str = "/tmp/t/rws binary's";

#[test]
fn preserves_custom_rules_and_replaces_idempotently() {
    let block = managed_rules(CONFIG, BINARY).unwrap();
    let first = merge("Custom rules.\n", &block).unwrap();
    assert!(first.starts_with("Custom rules.\n"));
    assert_eq!(first.matches(BEGIN).count(), 1);
    assert!(first.contains("rws binary'\\''s' --config '"));
    assert!(first.contains("context --cwd"));
    assert!(first.contains("--git-context -- sh -c"));
    assert_eq!(merge(&first, &block).unwrap(), first);
    let replaced = merge(&format!("before\n{BEGIN}\nold\n{END}\nafter\n"), &block).unwrap();
    assert!(replaced.starts_with("before\n"));
    assert!(replaced.ends_with("\nafter\n"));
    assert_eq!(replaced, format!("before\n{block}\nafter\n"));
}

#[test]
fn malformed_markers_are_refused() {
    let block = managed_rules(CONFIG, BINARY).unwrap();
    for original in [
        BEGIN.to_string(),
        END.to_string(),
        format!("{END}\n{BEGIN}"),
        format!("{BEGIN}\n{BEGIN}\n{END}"),
    ] {
        assert_eq!(
            merge(&original, &block).unwrap_err(),
            "malformed or duplicate RWS remote-execution markers; rules left unchanged"
        );
    }
}

#[test]
fn a_block_is_appended_on_a_line_of_its_own() {
    assert_eq!(merge("", "B").unwrap(), "B\n");
    assert_eq!(merge("x", "B").unwrap(), "x\nB\n");
    assert_eq!(merge("x\n", "B").unwrap(), "x\nB\n");
}

#[test]
fn rules_name_absolute_quoted_paths_only() {
    assert_eq!(quoted_absolute("/a'b").unwrap(), "'/a'\\''b'");
    assert_eq!(quoted_absolute("rel").unwrap_err(), "path must be absolute: rel");
    assert_eq!(quoted_absolute("/a\nb").unwrap_err(), "path contains a control character");
    assert_eq!(managed_rules("relative", BINARY).unwrap_err(), "path must be absolute: relative");
    let block = managed_rules(CONFIG, BINARY).unwrap();
    assert!(block.starts_with(BEGIN));
    assert!(block.ends_with(END));
    assert_eq!(block.matches("'/tmp/t/rws binary'\\''s' --config '/tmp/t/rws config'\\''s.toml'").count(), 2);
}

#[test]
fn install_plan_writes_only_when_something_changes() {
    let target = "/tmp/t/AGENT.md";
    let fresh = updated_rules(CONFIG, BINARY, target, None).unwrap().unwrap();
    assert_eq!(fresh, format!("{}\n", managed_rules(CONFIG, BINARY).unwrap()));
    assert_eq!(updated_rules(CONFIG, BINARY, target, Some(&fresh)).unwrap(), None);
    assert!(updated_rules(CONFIG, BINARY, "relative", None).is_err());
    assert!(references_current(CONFIG, BINARY, Some(&fresh)).unwrap());
    assert!(!references_current(CONFIG, "/other/rws", Some(&fresh)).unwrap());
    assert!(!references_current(CONFIG, BINARY, None).unwrap());
    assert!(managed_block_present(Some(&fresh)));
    assert!(!managed_block_present(Some("Custom")));
    assert!(!managed_block_present(None));
    assert_eq!(backup_directory(CONFIG).unwrap(), "/tmp/t/agent-rule-backups");
    assert_eq!(backup_directory("/").unwrap_err(), "config must have a parent directory");
}

#[test]
fn selects_first_nonempty_personal_file_then_fallback() {
    assert_eq!(
        rules_candidates("/p", Some("/f")),
        ["/p/AGENT.md", "/p/AGENTS.md", "/f/AGENT.md", "/f/AGENTS.md"]
    );
    assert_eq!(rules_candidates("/o", None), ["/o/AGENT.md", "/o/AGENTS.md"]);
    assert!(!selects(" \n"));
    assert!(selects("plural"));
    assert_eq!(
        rules_directories(None, Some("/Users/dev")).unwrap(),
        (
            "/Users/dev/.config/delta".to_string(),
            Some("/Users/dev/Library/Application Support/delta".to_string())
        )
    );
    assert_eq!(rules_directories(Some("/d"), Some("/h")).unwrap(), ("/d".to_string(), None));
    assert_eq!(rules_directories(Some(""), None).unwrap_err(), "DELTA_CONFIG_DIR is empty");
    assert_eq!(rules_directories(None, None).unwrap_err(), "HOME is not set");
}
