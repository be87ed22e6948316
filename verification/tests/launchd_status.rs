use rws::launchd_status::verify_output;

#[test]
fn refuses_disabled_spelling_unknown_output_and_wrong_arguments() {
    let binary = "/app/bin/rws";
    let plist = "/user/io.rws.mounts.plist";
    let current = format!(
        "program = {}\npath = {}\nrun interval = 30 seconds\narguments = {{\n{}\nautostart\nrun\n}}\n",
        binary, plist, binary
    );
    assert!(verify_output(
        &current,
        "disabled services = {\n\"io.rws.mounts\" => disabled\n}",
        binary,
        plist
    )
    .is_err());
    assert!(verify_output(&current, "unrecognized output", binary, plist).is_err());
    assert!(verify_output(
        &current.replace("autostart", "doctor"),
        "disabled services = {\n}",
        binary,
        plist
    )
    .is_err());
}

#[test]
fn rejects_old_schedule_wrong_installation_and_disabled_jobs() {
    let binary = "/app/bin/rws";
    let plist = "/user/Library/LaunchAgents/io.rws.mounts.plist";
    let current = format!(
        "\tprogram = {}\n\tpath = {}\n\trun interval = 30 seconds\narguments = {{\n{}\nautostart\nrun\n}}\n",
        binary, plist, binary
    );
    assert!(verify_output(&current, "disabled services = {\n}", binary, plist).is_ok());
    assert!(verify_output(
        &current.replace("run interval = 30 seconds", "runs = 1"),
        "disabled services = {\n}",
        binary,
        plist
    )
    .is_err());
    assert!(verify_output(&current, "disabled services = {\n}", "/other/rws", plist).is_err());
    assert!(verify_output(
        &current,
        "disabled services = {\n\t\"io.rws.mounts\" => true\n}",
        binary,
        plist
    )
    .unwrap_err()
    .contains("disabled"));
}

#[test]
fn each_verdict_has_its_exact_message() {
    let binary = "/app/bin/rws";
    let plist = "/p.plist";
    let current = format!(
        "program = {binary}\npath = {plist}\nrun interval = 30 seconds\narguments = {{\n{binary}\nautostart\nrun\n}}\n"
    );
    assert_eq!(
        verify_output(&current, "  disabled services = {\n\"other\" => true\n\"io.rws.mounts\" => false;\n}\n", binary, plist).unwrap(),
        "current executable and 30-second schedule observed in launchd; this does not prove mount health"
    );
    assert_eq!(
        verify_output(&current, "disabled services = {\n\"io.rws.mounts\" => enabled\n}", binary, plist).unwrap(),
        "current executable and 30-second schedule observed in launchd; this does not prove mount health"
    );
    assert_eq!(
        verify_output(&current, "disabled services = {\n\"io.rws.mounts\" => maybe\n}", binary, plist).unwrap_err(),
        "unknown launchd disabled state; activation not verified"
    );
    assert_eq!(
        verify_output(&current, "disabled services = {\nno arrow here\n}", binary, plist).unwrap_err(),
        "cannot recognize launchd disabled-service entry; activation not verified"
    );
    assert_eq!(
        verify_output(&current, "disabled services = {", binary, plist).unwrap_err(),
        "cannot recognize launchd disabled-service output; activation not verified"
    );
    assert_eq!(
        verify_output("program = /app/bin/rws\n", "disabled services = {\n}", binary, plist).unwrap_err(),
        "on-disk agent is current, but its loaded executable/path/30-second schedule is stale or unrecognized; log out and in to load the updated agent, or inspect launchctl; no service changes made"
    );
}
