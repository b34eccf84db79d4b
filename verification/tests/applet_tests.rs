use cosmic_nas_indicator::applet::{
    Applet, Effect, Event, LabelColor, MountAction, SettingsForm, Status,
};
use cosmic_nas_indicator::config::Config;

fn config(host: &str, share: Option<&str>, mount_point: Option<&str>) -> Config {
    let mut c = Config::defaults();
    c.host = host.to_string();
    c.share = share.map(|s| s.to_string());
    c.mount_point = mount_point.map(|s| s.to_string());
    c
}

fn applet(c: Config) -> Applet {
    Applet::new(c).0
}

fn reachable(mounted: bool) -> Status {
    Status::reachable(Some("192.168.1.10".to_string()), "1.5".to_string(), mounted)
}

#[test]
fn start_up_probes_only_when_configured() {
    let (a, effects) = Applet::new(config("", None, None));
    assert!(effects.is_empty());
    assert_eq!(a.label_color(), LabelColor::Grey);
    let (_, effects) = Applet::new(config("nas.local", None, Some("/mnt/nas")));
    assert_eq!(effects.len(), 1);
    match &effects[0] {
        Effect::Probe { host, port, mount_point } => {
            assert_eq!(host, "nas.local");
            assert_eq!(*port, 445);
            assert_eq!(mount_point.as_deref(), Some("/mnt/nas"));
        }
        _ => panic!("expected a probe"),
    }
}

#[test]
fn label_colors_and_summaries() {
    let mut a = applet(config("", Some("data"), Some("/mnt/nas")));
    assert_eq!(a.label_color(), LabelColor::Grey);
    assert_eq!(a.status_summary(), "NAS — Not configured");
    a.config.host = "nas".to_string();
    assert_eq!(a.label_color(), LabelColor::Red);
    assert_eq!(a.status_summary(), "NAS — Unreachable");
    a.status = reachable(false);
    assert_eq!(a.label_color(), LabelColor::Orange);
    assert_eq!(a.status_summary(), "NAS — Reachable, not mounted");
    a.status = reachable(true);
    assert_eq!(a.label_color(), LabelColor::Green);
    assert_eq!(a.status_summary(), "NAS — Mounted");
    a.config.mount_point = None;
    a.status = reachable(false);
    assert_eq!(a.label_color(), LabelColor::Green);
    assert_eq!(a.status_summary(), "NAS — Connected");
    a.status = Status::unreachable(false);
    assert_eq!(a.label_color(), LabelColor::Red);
}

#[test]
fn tooltip_when_unconfigured() {
    let a = applet(config(" ", None, None));
    assert_eq!(a.tooltip_text(), "NAS — Not configured\nRight-click → Settings to configure");
}

#[test]
fn tooltip_when_mounted() {
    let mut a = applet(config("nas.local", Some("data"), Some("/mnt/nas")));
    a.status = reachable(true);
    assert_eq!(
        a.tooltip_text(),
        "NAS — Mounted\nHost: nas.local:445\nAddress: 192.168.1.10\nLatency: 1.5 ms\nMounted at /mnt/nas\nChecked every 10s"
    );
}

#[test]
fn tooltip_when_unreachable_with_error() {
    let mut a = applet(config("nas.local", Some("data"), Some("/mnt/nas")));
    a.last_error = Some("mount failed: boom".to_string());
    assert_eq!(
        a.tooltip_text(),
        "NAS — Unreachable\nHost: nas.local:445\nNo response on port 445\nNot mounted\nChecked every 10s\n⚠ mount failed: boom"
    );
}

#[test]
fn menu_offers_connect_or_disconnect_only_when_mountable() {
    let mut a = applet(config("nas", Some("data"), Some("/mnt/nas")));
    let m = a.menu();
    assert_eq!(m.header, "NAS — Unreachable");
    assert_eq!(m.host_line.as_deref(), Some("nas:445"));
    assert_eq!(m.error_line, None);
    assert_eq!(m.mount_action, Some(MountAction::Connect));
    a.status = reachable(true);
    a.last_error = Some("x".to_string());
    let m = a.menu();
    assert_eq!(m.mount_action, Some(MountAction::Disconnect));
    assert_eq!(m.error_line.as_deref(), Some("⚠ x"));
    a.config.share = None;
    assert_eq!(a.menu().mount_action, None);
    a.config.host = String::new();
    assert_eq!(a.menu().host_line, None);
}

#[test]
fn connect_closes_popup_and_mounts() {
    let mut a = applet(config("nas", Some("data"), Some("/mnt/nas")));
    a.last_error = Some("old".to_string());
    a.handle(Event::PopupOpened(7), false);
    assert_eq!(a.popup, Some(7));
    let effects = a.handle(Event::Connect, true);
    assert_eq!(a.popup, None);
    assert_eq!(a.last_error, None);
    assert_eq!(effects.len(), 2);
    assert!(matches!(effects[0], Effect::ClosePopup { popup: 7 }));
    match &effects[1] {
        Effect::RunCommand { verb, argv } => {
            assert_eq!(verb, "mount");
            assert_eq!(argv[0], "pkexec");
            assert_eq!(argv[4], "//nas/data");
        }
        _ => panic!("expected a mount command"),
    }
}

#[test]
fn connect_without_helper_is_refused() {
    let mut a = applet(config("nas", Some("data"), Some("/mnt/nas")));
    let effects = a.handle(Event::Connect, false);
    assert_eq!(effects.len(), 1);
    match &effects[0] {
        Effect::RefuseMount { message } => {
            assert_eq!(message, "cifs-utils not installed (mount.cifs missing)")
        }
        _ => panic!("expected a refusal"),
    }
    let effects = a.handle(Event::MountDone(Some("cifs-utils not installed (mount.cifs missing)".to_string())), false);
    assert_eq!(effects.len(), 1);
    assert!(matches!(effects[0], Effect::Probe { .. }));
    assert!(a.tooltip_text().ends_with("\n⚠ cifs-utils not installed (mount.cifs missing)"));
}

#[test]
fn connect_without_mount_settings_does_nothing() {
    let mut a = applet(config("nas", None, Some("/mnt/nas")));
    let effects = a.handle(Event::Connect, true);
    assert!(effects.is_empty());
    let effects = a.update(Event::Connect);
    assert!(effects.is_empty());
}

#[test]
fn disconnect_unmounts() {
    let mut a = applet(config("nas", Some("data"), Some("/mnt/nas")));
    a.config.use_pkexec = false;
    let effects = a.update(Event::Disconnect);
    assert_eq!(effects.len(), 1);
    match &effects[0] {
        Effect::RunCommand { verb, argv } => {
            assert_eq!(verb, "umount");
            assert_eq!(argv, &vec!["umount".to_string(), "/mnt/nas".to_string()]);
        }
        _ => panic!("expected an unmount command"),
    }
}

#[test]
fn status_reports_and_ticks() {
    let mut a = applet(config("nas", None, None));
    let effects = a.handle(Event::StatusReport(reachable(false)), false);
    assert!(effects.is_empty());
    assert!(a.status.connected);
    let effects = a.handle(Event::Tick, false);
    assert_eq!(effects.len(), 1);
    let mut b = applet(config("", None, None));
    assert!(b.handle(Event::Tick, false).is_empty());
}

#[test]
fn closing_another_popup_changes_nothing() {
    let mut a = applet(config("nas", None, None));
    a.handle(Event::PopupOpened(3), false);
    a.handle(Event::OpenSettings, false);
    a.handle(Event::PopupClosed(4), false);
    assert_eq!(a.popup, Some(3));
    assert!(a.editing);
    a.handle(Event::PopupClosed(3), false);
    assert_eq!(a.popup, None);
    assert!(!a.editing);
}

#[test]
fn settings_form_round_trip() {
    let mut c = config("nas", Some("data"), None);
    c.interval_secs = 30;
    let mut a = applet(c);
    a.handle(Event::PopupOpened(1), false);
    a.handle(Event::OpenSettings, false);
    assert!(a.editing);
    assert_eq!(a.form.port, "445");
    assert_eq!(a.form.interval_secs, "30");
    assert_eq!(a.form.share, "data");
    assert_eq!(a.form.mount_point, "");
    let effects = a.handle(Event::SaveSettings, false);
    assert!(!a.editing);
    assert_eq!(a.popup, None);
    assert_eq!(effects.len(), 3);
    assert!(matches!(effects[0], Effect::SaveConfig));
    assert!(matches!(effects[1], Effect::ClosePopup { popup: 1 }));
    assert!(matches!(effects[2], Effect::Probe { .. }));
    assert_eq!(a.config.host, "nas");
    assert_eq!(a.config.port, 445);
    assert_eq!(a.config.interval_secs, 30);
    assert_eq!(a.config.share.as_deref(), Some("data"));
    assert_eq!(a.config.mount_point, None);
}

#[test]
fn edited_settings_are_applied_on_save_only() {
    let mut a = applet(config("nas", None, None));
    a.handle(Event::OpenSettings, false);
    a.handle(Event::EditHost("  other.local ".to_string()), false);
    a.handle(Event::EditPort(" 0 ".to_string()), false);
    a.handle(Event::EditInterval("1".to_string()), false);
    a.handle(Event::EditShare("  ".to_string()), false);
    a.handle(Event::EditMountPoint(" /mnt/x ".to_string()), false);
    a.handle(Event::EditMountOptions("uid=1000".to_string()), false);
    a.handle(Event::EditPkexec(false), false);
    assert_eq!(a.config.host, "nas");
    a.handle(Event::CancelSettings, false);
    assert!(!a.editing);
    assert_eq!(a.config.host, "nas");
    let effects = a.handle(Event::SaveSettings, false);
    assert_eq!(effects.len(), 2);
    assert_eq!(a.config.host, "other.local");
    assert_eq!(a.config.port, 445);
    assert_eq!(a.config.interval_secs, 2);
    assert_eq!(a.config.share, None);
    assert_eq!(a.config.mount_point.as_deref(), Some("/mnt/x"));
    assert_eq!(a.config.mount_options.as_deref(), Some("uid=1000"));
    assert!(!a.config.use_pkexec);
}

#[test]
fn bad_numbers_in_the_form_keep_the_old_values() {
    let mut a = applet(config("nas", None, None));
    a.form = SettingsForm::from_config(&a.config);
    a.form.port = "http".to_string();
    a.form.interval_secs = "-3".to_string();
    a.apply_settings();
    assert_eq!(a.config.port, 445);
    assert_eq!(a.config.interval_secs, 10);
    a.form.port = " +8080 ".to_string();
    a.form.interval_secs = "60".to_string();
    a.apply_settings();
    assert_eq!(a.config.port, 8080);
    assert_eq!(a.config.interval_secs, 60);
}

#[test]
fn clearing_the_host_stops_probing() {
    let mut a = applet(config("nas", None, None));
    a.handle(Event::OpenSettings, false);
    a.handle(Event::EditHost("   ".to_string()), false);
    let effects = a.handle(Event::SaveSettings, false);
    assert_eq!(effects.len(), 1);
    assert!(matches!(effects[0], Effect::SaveConfig));
    assert_eq!(a.label_color(), LabelColor::Grey);
}

#[test]
fn blank_form_and_tasks() {
    let f = SettingsForm::default();
    assert_eq!(f.host, "");
    assert!(!f.use_pkexec);
    let mut a = applet(config("nas", Some("data"), Some("/m")));
    assert!(a.close_popup_task().is_none());
    a.popup = Some(9);
    assert!(matches!(a.close_popup_task(), Some(Effect::ClosePopup { popup: 9 })));
    assert!(a.popup.is_none());
    assert!(matches!(a.mount_plan(false), Some(Effect::RefuseMount { .. })));
    assert!(matches!(a.mount_plan(true), Some(Effect::RunCommand { .. })));
    assert!(a.mount_task().is_some());
    assert!(matches!(a.unmount_task(), Some(Effect::RunCommand { .. })));
    assert!(matches!(a.check_task(), Some(Effect::Probe { .. })));
}
