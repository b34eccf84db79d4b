use cosmic_nas_indicator::config::{
    joined, key_of_line, line_entry, merged_settings_text, non_empty, Config, DEFAULT_INTERVAL_SECS,
    DEFAULT_PORT,
};

fn sample_file() -> &'static str {
    "# NAS indicator\n\
     host=SGIAB-NAS.local\n\
     port=445\n\
     interval_secs=10\n\
     font_size=14\n\
     \n\
     # Optional: enable the Connect/Disconnect (mount/unmount) menu item.\n\
     share=data\n\
     mount_point=/mnt/nas\n\
     mount_options=credentials=/home/me/.smbcredentials,uid=1000,gid=1000\n\
     use_pkexec=true\n"
}

#[test]
fn non_empty_keeps_only_text() {
    assert_eq!(non_empty(""), None);
    assert_eq!(non_empty("x"), Some("x".to_string()));
    assert_eq!(non_empty(" "), Some(" ".to_string()));
}

#[test]
fn defaults_when_file_is_empty() {
    let (c, fonts) = Config::parse("");
    assert_eq!(c.host, "");
    assert_eq!(c.port, DEFAULT_PORT);
    assert_eq!(c.interval_secs, DEFAULT_INTERVAL_SECS);
    assert_eq!(c.share, None);
    assert_eq!(c.mount_point, None);
    assert_eq!(c.mount_options, None);
    assert!(c.use_pkexec);
    assert!(fonts.is_empty());
    assert!(!c.is_configured());
}

#[test]
fn readme_example_is_read() {
    let (c, fonts) = Config::parse(sample_file());
    assert_eq!(c.host, "SGIAB-NAS.local");
    assert_eq!(c.port, 445);
    assert_eq!(c.interval_secs, 10);
    assert_eq!(fonts, vec!["14".to_string()]);
    assert_eq!(c.share.as_deref(), Some("data"));
    assert_eq!(c.mount_point.as_deref(), Some("/mnt/nas"));
    assert_eq!(
        c.mount_options.as_deref(),
        Some("credentials=/home/me/.smbcredentials,uid=1000,gid=1000")
    );
    assert!(c.use_pkexec);
    assert!(c.is_configured());
    assert!(c.is_mountable());
    assert_eq!(c.mount_source().as_deref(), Some("//SGIAB-NAS.local/data"));
}

#[test]
fn lines_are_trimmed_and_comments_skipped() {
    let (c, _) = Config::parse("  host =  nas  \r\n#port=1\n   # share=x\nshare =\n");
    assert_eq!(c.host, "nas");
    assert_eq!(c.port, 445);
    assert_eq!(c.share, None);
}

#[test]
fn invalid_values_keep_the_earlier_setting() {
    let (c, _) = Config::parse(
        "port=8445\nport=70000\nport=abc\ninterval_secs=30\ninterval_secs=-5\nuse_pkexec=false\nuse_pkexec=yes\n",
    );
    assert_eq!(c.port, 8445);
    assert_eq!(c.interval_secs, 30);
    assert!(!c.use_pkexec);
}

#[test]
fn interval_has_a_floor_of_two_seconds() {
    let (c, _) = Config::parse("interval_secs=0\n");
    assert_eq!(c.interval_secs, 2);
    let (c, _) = Config::parse("interval_secs=1");
    assert_eq!(c.interval_secs, 2);
    let (c, _) = Config::parse("interval_secs=3");
    assert_eq!(c.interval_secs, 3);
}

#[test]
fn the_last_setting_wins_and_empty_unsets() {
    let (c, fonts) = Config::parse(
        "share=one\nshare=two\nhost=a\nhost=\nfont_size=12\nfont_size=big\nmount_point=/m\nmount_point=\n",
    );
    assert_eq!(c.share.as_deref(), Some("two"));
    assert_eq!(c.host, "");
    assert_eq!(c.mount_point, None);
    assert_eq!(fonts, vec!["12".to_string(), "big".to_string()]);
}

#[test]
fn unknown_keys_and_lines_without_equals_are_ignored() {
    let (c, _) = Config::parse("colour=red\njust words\nport 80\n");
    assert_eq!(c.port, 445);
    assert_eq!(c.host, "");
}

#[test]
fn whitespace_host_is_not_configured() {
    let mut c = Config::defaults();
    c.host = " \t ".to_string();
    assert!(!c.is_configured());
    c.host = " nas ".to_string();
    assert!(c.is_configured());
}

#[test]
fn mount_sources() {
    let mut c = Config::defaults();
    c.host = "nas.local".to_string();
    assert_eq!(c.mount_source(), None);
    c.share = Some("data".to_string());
    assert_eq!(c.mount_source().as_deref(), Some("//nas.local/data"));
    c.share = Some("///data".to_string());
    assert_eq!(c.mount_source().as_deref(), Some("///data"));
    c.share = Some("/data".to_string());
    assert_eq!(c.mount_source().as_deref(), Some("//nas.local/data"));
    c.share = Some("//other/share".to_string());
    assert_eq!(c.mount_source().as_deref(), Some("//other/share"));
    c.share = Some("\\\\other\\share\\sub".to_string());
    assert_eq!(c.mount_source().as_deref(), Some("//other/share/sub"));
    assert!(!c.is_mountable());
    c.mount_point = Some("/mnt/nas".to_string());
    assert!(c.is_mountable());
}

#[test]
fn saving_rewrites_known_keys_in_place() {
    let (mut c, _) = Config::parse(sample_file());
    c.port = 8445;
    c.share = None;
    let text = c.saved_text(sample_file(), Some("16".to_string()));
    assert_eq!(
        text,
        "# NAS indicator\n\
         host = SGIAB-NAS.local\n\
         port = 8445\n\
         interval_secs = 10\n\
         font_size = 16\n\
         \n\
         # Optional: enable the Connect/Disconnect (mount/unmount) menu item.\n\
         mount_point = /mnt/nas\n\
         mount_options = credentials=/home/me/.smbcredentials,uid=1000,gid=1000\n\
         use_pkexec = true\n"
    );
}

#[test]
fn saving_into_an_empty_file_appends_everything_set() {
    let mut c = Config::defaults();
    c.host = "nas".to_string();
    let text = c.saved_text("", None);
    assert_eq!(text, "host = nas\nport = 445\ninterval_secs = 10\nuse_pkexec = true\n");
}

#[test]
fn saving_keeps_unknown_lines_and_drops_unset_keys() {
    let existing = "# keep me\ncolour = blue\nfont_size = 12\nhost=old\nhost=older\n";
    let c = Config::defaults();
    let text = c.saved_text(existing, None);
    assert_eq!(
        text,
        "# keep me\ncolour = blue\nport = 445\ninterval_secs = 10\nuse_pkexec = true\n"
    );
}

#[test]
fn saved_settings_read_back() {
    let (c, _) = Config::parse(sample_file());
    for existing in ["", sample_file(), "junk\r\nport=1\nfont_size=x\n\n", "host=a\nhost=b"] {
        let text = c.saved_text(existing, Some("13.5".to_string()));
        let (back, fonts) = Config::parse(&text);
        assert_eq!(back.host, c.host);
        assert_eq!(back.port, c.port);
        assert_eq!(back.interval_secs, c.interval_secs);
        assert_eq!(back.share, c.share);
        assert_eq!(back.mount_point, c.mount_point);
        assert_eq!(back.mount_options, c.mount_options);
        assert_eq!(back.use_pkexec, c.use_pkexec);
        assert!(!fonts.is_empty());
        assert!(fonts.iter().all(|f| f == "13.5"));
        let text = c.saved_text(existing, None);
        let (_, fonts) = Config::parse(&text);
        assert!(fonts.is_empty());
    }
}

#[test]
fn what_was_read_saves_and_reads_back_the_same() {
    let texts = [
        "host =  nas \nport=+0080\ninterval_secs=1\nshare=  data  \nmount_point=\nuse_pkexec=false\n",
        "\u{A0}host\u{A0}=\u{A0}x y\u{A0}\r\nmount_options = a=b=c\n",
        "",
    ];
    for text in texts {
        let (c, _) = Config::parse(text);
        let saved = c.saved_text("# header\nport = 1\n", None);
        let (back, _) = Config::parse(&saved);
        assert_eq!(back.host, c.host);
        assert_eq!(back.port, c.port);
        assert_eq!(back.interval_secs, c.interval_secs);
        assert_eq!(back.share, c.share);
        assert_eq!(back.mount_point, c.mount_point);
        assert_eq!(back.mount_options, c.mount_options);
        assert_eq!(back.use_pkexec, c.use_pkexec);
        assert!(saved.starts_with("# header\n"));
    }
}

#[test]
fn line_entries_and_keys() {
    assert_eq!(line_entry("  port = 80 "), Some(("port".to_string(), "80".to_string())));
    assert_eq!(line_entry("# port = 80"), None);
    assert_eq!(line_entry("   "), None);
    assert_eq!(line_entry("no equals"), None);
    assert_eq!(key_of_line("#host=x"), Some("#host".to_string()));
    assert_eq!(key_of_line(" host =x"), Some("host".to_string()));
    assert_eq!(key_of_line("plain"), None);
}

#[test]
fn merging_arbitrary_settings() {
    let desired = vec![
        ("a".to_string(), Some("1".to_string())),
        ("b".to_string(), None),
        ("c".to_string(), Some("3".to_string())),
    ];
    assert_eq!(merged_settings_text("b=2\nx\na=0\n", &desired), "x\na = 1\nc = 3\n");
    assert_eq!(merged_settings_text("", &Vec::new()), "\n");
    assert_eq!(joined(&vec!["p".to_string(), "q".to_string()]), "p\nq");
    assert_eq!(joined(&Vec::new()), "");
}

fn same_settings(a: &Config, b: &Config) -> bool {
    a.host == b.host
        && a.port == b.port
        && a.interval_secs == b.interval_secs
        && a.share == b.share
        && a.mount_point == b.mount_point
        && a.mount_options == b.mount_options
        && a.use_pkexec == b.use_pkexec
}

#[test]
fn an_added_line_that_sets_nothing_changes_nothing() {
    let bases = [sample_file(), "", "host=a", "port=80\r", "share=x\n"];
    let ignored = ["", "   ", "# port=1", "no equals here", "colour = red", "=5", "hostname=x"];
    for c in bases {
        let (before, fonts_before) = Config::parse(c);
        for l in ignored {
            let text = format!("{}\n{}", c, l);
            let (after, fonts_after) = Config::parse(&text);
            assert!(same_settings(&before, &after), "{:?} + {:?}", c, l);
            assert_eq!(fonts_before, fonts_after);
        }
    }
}

#[test]
fn a_later_port_line_overrides() {
    for c in [sample_file(), "", "port=80", "port=80\r"] {
        let (before, fonts_before) = Config::parse(c);
        for n in [0u16, 1, 445, 8080, u16::MAX] {
            let text = format!("{}\nport={}", c, n);
            let (after, fonts_after) = Config::parse(&text);
            assert_eq!(after.port, n);
            let mut expected = Config::parse(c).0;
            expected.port = n;
            assert!(same_settings(&expected, &after));
            assert!(same_settings(&before, &Config::parse(c).0));
            assert_eq!(fonts_before, fonts_after);
        }
    }
}

#[test]
fn saving_twice_writes_the_same_text() {
    let (c, _) = Config::parse(sample_file());
    for existing in ["", sample_file(), "# a\r\nport=1\r\ncolour=x\n\n", "host=a\nhost=b"] {
        let first = c.saved_text(existing, Some("15".to_string()));
        let second = c.saved_text(&first, Some("15".to_string()));
        assert_eq!(first, second);
    }
}

#[test]
fn saving_twice_differs_after_an_unterminated_carriage_return() {
    let c = Config::defaults();
    let first = c.saved_text("# note\r", None);
    let second = c.saved_text(&first, None);
    assert!(first.starts_with("# note\r\n"));
    assert!(second.starts_with("# note\n"));
}

#[test]
fn unrelated_lines_come_back_in_order() {
    let existing = "# one\nport=1\ncolour = blue\n\nhost=x\n# two\r\nsize=3";
    let c = Config::defaults();
    let saved = c.saved_text(existing, None);
    let kept: Vec<&str> = saved
        .lines()
        .filter(|l| match l.split_once('=') {
            Some((k, _)) => !["host", "port", "interval_secs", "font_size", "share", "mount_point", "mount_options", "use_pkexec"].contains(&k.trim()),
            None => true,
        })
        .collect();
    assert_eq!(kept, vec!["# one", "colour = blue", "", "# two", "size=3"]);
}
