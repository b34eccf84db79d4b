use cosmic_nas_indicator::config::Config;
use cosmic_nas_indicator::mounts::{
    cifs_helper_paths, helper_found, mount_cifs_available, mount_command, mount_table_lists, outcome_report, unescaped_spaces,
    unmount_command, without_trailing, words_of, CommandOutcome,
};

fn configured() -> Config {
    let mut c = Config::defaults();
    c.host = "nas.local".to_string();
    c.share = Some("data".to_string());
    c.mount_point = Some("/mnt/nas".to_string());
    c
}

fn strings(v: &[&str]) -> Vec<String> {
    v.iter().map(|s| s.to_string()).collect()
}

#[test]
fn mount_through_pkexec() {
    let c = configured();
    assert_eq!(
        mount_command(&c),
        Some(strings(&["pkexec", "mount", "-t", "cifs", "//nas.local/data", "/mnt/nas"]))
    );
    assert_eq!(unmount_command(&c), Some(strings(&["pkexec", "umount", "/mnt/nas"])));
}

#[test]
fn mount_without_pkexec_and_with_options() {
    let mut c = configured();
    c.use_pkexec = false;
    c.mount_options = Some("credentials=/c,uid=1000".to_string());
    assert_eq!(
        mount_command(&c),
        Some(strings(&[
            "mount",
            "-t",
            "cifs",
            "//nas.local/data",
            "/mnt/nas",
            "-o",
            "credentials=/c,uid=1000"
        ]))
    );
    assert_eq!(unmount_command(&c), Some(strings(&["umount", "/mnt/nas"])));
}

#[test]
fn no_commands_without_share_or_mount_point() {
    let mut c = configured();
    c.mount_point = None;
    assert_eq!(mount_command(&c), None);
    assert_eq!(unmount_command(&c), None);
    let mut c = configured();
    c.share = None;
    assert_eq!(mount_command(&c), None);
    assert!(unmount_command(&c).is_some());
}

#[test]
fn successful_commands_report_nothing() {
    let done = CommandOutcome::Finished { success: true, stderr: b"noise".to_vec() };
    assert_eq!(outcome_report("mount", &done), None);
}

#[test]
fn failures_report_the_first_stderr_line() {
    let failed = CommandOutcome::Finished {
        success: false,
        stderr: b"\n   \n  mount error(13): Permission denied  \nRefer to the mount.cifs(8) manual page\n"
            .to_vec(),
    };
    assert_eq!(
        outcome_report("mount", &failed).as_deref(),
        Some("mount failed: mount error(13): Permission denied")
    );
}

#[test]
fn failures_without_stderr_say_command_failed() {
    let failed = CommandOutcome::Finished { success: false, stderr: b" \n\t\n".to_vec() };
    assert_eq!(outcome_report("umount", &failed).as_deref(), Some("umount failed: command failed"));
}

#[test]
fn invalid_utf8_in_stderr_is_replaced() {
    let failed = CommandOutcome::Finished { success: false, stderr: vec![b'b', b'a', 0xff, b'd'] };
    assert_eq!(outcome_report("mount", &failed).as_deref(), Some("mount failed: ba\u{FFFD}d"));
}

#[test]
fn commands_that_did_not_start() {
    let missing = CommandOutcome::NotStarted { reason: "No such file or directory (os error 2)".to_string() };
    assert_eq!(
        outcome_report("umount", &missing).as_deref(),
        Some("could not run umount: No such file or directory (os error 2)")
    );
}

#[test]
fn fields_of_a_mount_table_line() {
    assert_eq!(
        words_of("//nas/data /mnt/my\\040nas cifs rw 0 0"),
        strings(&["//nas/data", "/mnt/my\\040nas", "cifs", "rw", "0", "0"])
    );
    assert_eq!(words_of("  a\t b  "), strings(&["a", "b"]));
    assert_eq!(words_of(" "), Vec::<String>::new());
}

#[test]
fn escaped_spaces_and_trailing_slashes() {
    assert_eq!(unescaped_spaces("/mnt/my\\040nas"), "/mnt/my nas");
    assert_eq!(unescaped_spaces("\\04"), "\\04");
    assert_eq!(unescaped_spaces("\\040\\040"), "  ");
    assert_eq!(without_trailing("/mnt/nas//", '/'), "/mnt/nas");
    assert_eq!(without_trailing("/", '/'), "");
}

#[test]
fn mount_table_lookup() {
    let table = "proc /proc proc rw 0 0\n//nas/data /mnt/my\\040nas cifs rw 0 0\n//nas/x /srv/ cifs rw 0 0\n";
    assert!(mount_table_lists(table, "/mnt/my nas"));
    assert!(mount_table_lists(table, "/mnt/my nas/"));
    assert!(mount_table_lists(table, "/srv"));
    assert!(!mount_table_lists(table, "/mnt"));
    assert!(!mount_table_lists(table, "proc"));
    assert!(!mount_table_lists("", "/mnt/nas"));
}

#[test]
fn helper_probe_runs() {
    let first = mount_cifs_available();
    let second = mount_cifs_available();
    let expected = ["/sbin/mount.cifs", "/usr/sbin/mount.cifs", "/bin/mount.cifs"]
        .iter()
        .any(|p| std::path::Path::new(p).exists());
    assert_eq!(first, expected);
    assert_eq!(second, expected);
}

#[test]
fn helper_is_looked_for_in_three_places() {
    assert_eq!(
        cifs_helper_paths(),
        strings(&["/sbin/mount.cifs", "/usr/sbin/mount.cifs", "/bin/mount.cifs"])
    );
}

#[test]
fn helper_found_when_any_look_found_it() {
    assert!(!helper_found(&vec![]));
    assert!(!helper_found(&vec![false, false, false]));
    assert!(helper_found(&vec![false, true]));
    assert!(helper_found(&vec![true]));
    assert!(helper_found(&vec![false, false, true]));
}
