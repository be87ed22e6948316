use rws::shell_hook::{
    install, install_line, managed_range, quote, references_current, refresh_existing, rewrite, update,
    zsh_snippet, MARKER,
};

#[test]
fn snippet_bakes_config_path_used_when_rws_config_is_unset() {
    let snippet = zsh_snippet("/opt/rws", Some("/home/dev/.rws-local/config.json")).unwrap();
    assert!(snippet.contains("'/home/dev/.rws-local/config.json'"));
    // The environment variable must keep priority over the baked path.
    assert!(snippet.contains("RWS_CONFIG"));
}

#[test]
fn install_line_embeds_quoted_binary_and_config() {
    let line = install_line("/opt/my tools/rws", Some("/cfg/o'brien.json")).unwrap();
    assert!(
        line.contains(r#"eval "$('/opt/my tools/rws' --config '/cfg/o'\''brien.json' hook zsh)""#),
        "{line}"
    );
    assert!(line.contains(MARKER));
    let bare = install_line("/opt/rws", None).unwrap();
    assert!(!bare.contains("--config"));
}

#[test]
fn snippet_registers_chpwd_hook_and_embeds_quoted_binary() {
    let snippet = zsh_snippet("/opt/my tools/rws", None).unwrap();
    assert!(snippet.contains("chpwd_functions"));
    assert!(snippet.contains("_rws_auto_shell"));
    assert!(snippet.contains("'/opt/my tools/rws'"));
    // Detection queries context for the current directory before switching.
    assert!(snippet.contains("context --cwd"));
    // Opt-out and re-entry guard are part of the contract.
    assert!(snippet.contains("RWS_NO_AUTO_SHELL"));
    assert!(snippet.contains("_RWS_AUTO_SUPPRESS"));
    // Per-shell mode choice: prompt with remote default, forced mode,
    // per-workspace memory.
    assert!(snippet.contains("[Y/n]"));
    assert!(snippet.contains("RWS_AUTO_MODE"));
    assert!(snippet.contains("_RWS_AUTO_CHOICE"));
}

#[test]
fn snippet_escapes_single_quotes_in_binary_path() {
    let snippet = zsh_snippet("/opt/o'brien/rws", None).unwrap();
    assert!(snippet.contains(r"'/opt/o'\''brien/rws'"));
}

#[test]
fn snippet_rejects_paths_with_newlines() {
    assert!(zsh_snippet("/opt/bad\nname/rws", None).is_err());
    assert!(zsh_snippet("/opt/rws", Some("/cfg\n.json")).is_err());
}

#[test]
fn install_line_is_exact_and_errors_name_the_path() {
    assert_eq!(
        install_line("/opt/rws", None).unwrap(),
        "eval \"$('/opt/rws' hook zsh)\" # RWS auto-shell hook"
    );
    assert_eq!(quote("rws executable", "/a\rb").unwrap_err(), "rws executable path must not contain newlines or NUL");
    assert_eq!(
        install_line("/opt/rws", Some("/c\0")).unwrap_err(),
        "configuration path must not contain newlines or NUL"
    );
    let baked = zsh_snippet("/opt/rws", Some("/c.json")).unwrap();
    assert!(baked.contains("  if [[ -n ${RWS_CONFIG-} ]]; then\n    rws_cmd+=(--config \"$RWS_CONFIG\")\n  else\n    rws_cmd+=(--config '/c.json')\n  fi\n"));
    let plain = zsh_snippet("/opt/rws", None).unwrap();
    assert!(plain.contains("  rws_cmd=('/opt/rws')\n  [[ -n ${RWS_CONFIG-} ]] && rws_cmd+=(--config \"$RWS_CONFIG\")\n  local context\n"));
    assert!(plain.starts_with("# RWS: switch into the workspace's remote shell when entering its mount.\n"));
    assert!(plain.ends_with("# Also cover a shell that starts inside a mounted workspace.\n_rws_auto_shell\n"));
}

#[test]
fn managed_range_covers_the_command_through_the_marker() {
    let line = install_line("/opt/rws", None).unwrap();
    let indented = format!("  {line} # keep me\n");
    assert_eq!(managed_range(&indented), Some((2, 2 + line.chars().count())));
    assert_eq!(managed_range(&format!("# {line}")), None);
    assert_eq!(managed_range("eval \"$(other)\""), None);
}

#[test]
fn current_hook_accepts_indent_and_comments_but_not_duplicates() {
    let line = install_line("/opt/rws", None).unwrap();
    assert!(!references_current(None, "/opt/rws", None).unwrap());
    let text = format!("# {line}\n  {line} # keep me\r\n");
    assert!(references_current(Some(text.as_bytes()), "/opt/rws", None).unwrap());
    assert!(!references_current(Some(text.as_bytes()), "/new/rws", None).unwrap());
    let text = format!("{line}\n\t{line}\n");
    assert!(!references_current(Some(text.as_bytes()), "/opt/rws", None).unwrap());
    let text = format!("# {line}\n");
    assert!(!references_current(Some(text.as_bytes()), "/opt/rws", None).unwrap());
}

#[test]
fn duplicate_hook_repair_refuses_without_changing_user_file() {
    let old = install_line("/old/rws", None).unwrap();
    let original = format!("{old} # first\n# {old}\n{old} # second\n");
    let error = refresh_existing(Some(original.as_bytes()), "/new/rws", None).unwrap_err();
    assert!(error.contains("duplicate") && error.contains("one active"), "{error}");
}

#[test]
fn refresh_preserves_bytes_comments_and_disabled_hooks() {
    let old = install_line("/old/rws", None).unwrap();
    let before = format!("# disabled: {old}\r\n\r\n  {old} # personal note\r\n\nexport X=1\n\n");
    let after = refresh_existing(Some(before.as_bytes()), "/new/rws", None).unwrap().unwrap();
    let expected = before.replacen(
        &format!("  {old}"),
        &format!("  {}", install_line("/new/rws", None).unwrap()),
        1,
    );
    assert_eq!(String::from_utf8(after.clone()).unwrap(), expected);
    assert_eq!(refresh_existing(Some(&after), "/new/rws", None).unwrap(), None);
}

#[test]
fn refresh_missing_and_disabled_are_untouched_but_install_enables() {
    assert_eq!(refresh_existing(None, "/new/rws", None).unwrap(), None);
    let original = format!("# {}\n\n\n", install_line("/old/rws", None).unwrap());
    assert_eq!(refresh_existing(Some(original.as_bytes()), "/new/rws", None).unwrap(), None);
    let (line, written) = install(Some(original.as_bytes()), "/new/rws", None).unwrap();
    assert_eq!(line, install_line("/new/rws", None).unwrap());
    assert_eq!(
        String::from_utf8(written.unwrap()).unwrap(),
        format!("{original}{}\n", install_line("/new/rws", None).unwrap())
    );
}

#[test]
fn install_appends_once_and_replaces_a_stale_line() {
    let (_, first) = install(Some(b"export EDITOR=vim\n"), "/opt/rws", None).unwrap();
    let first = first.unwrap();
    let (_, second) = install(Some(&first), "/opt/rws", None).unwrap();
    assert_eq!(second, None);
    let content = String::from_utf8(first.clone()).unwrap();
    assert_eq!(content.matches(MARKER).count(), 1, "{content}");
    assert!(content.starts_with("export EDITOR=vim\n"));
    let (_, third) = install(Some(&first), "/new/rws", None).unwrap();
    let content = String::from_utf8(third.unwrap()).unwrap();
    assert_eq!(content.matches(MARKER).count(), 1);
    assert!(content.contains("/new/rws"));
    assert!(!content.contains("/opt/rws"));
}

#[test]
fn install_creates_a_missing_zshrc() {
    let (line, written) = install(None, "/opt/rws", None).unwrap();
    let text = String::from_utf8(written.unwrap()).unwrap();
    assert!(text.contains(MARKER));
    assert_eq!(text, format!("{line}\n"));
}

#[test]
fn rewrite_adds_a_line_break_before_appending_and_keeps_invalid_utf8() {
    let mut original = b"no newline \xff".to_vec();
    let updated = rewrite(&original, "eval \"$(x)\" # RWS auto-shell hook", true).unwrap();
    original.extend_from_slice(b"\neval \"$(x)\" # RWS auto-shell hook\n");
    assert_eq!(updated, original);
    let unchanged = b"\xfe\xff\nplain\n".to_vec();
    assert_eq!(update(&unchanged, "eval", false).unwrap(), None);
}
