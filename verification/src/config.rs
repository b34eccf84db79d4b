//! The applet's settings: reading them from the `KEY=VALUE` file, writing
//! them back, and what they imply (the mount source, whether anything is
//! configured).

use vstd::prelude::*;
use crate::text::{
    chars_of, decimal, decimal_text, has_prefix, lines_of, parse_u16, parse_u64, parsed_u16,
    parsed_u64, same_text, split_once, split_once_at, starts_with, text_lines, trim, trimmed,
};

verus! {

broadcast use vstd::string::group_string_axioms;

/// Port probed when none is configured (SMB).
pub const DEFAULT_PORT: u16 = 445;

/// Seconds between probes when none is configured.
pub const DEFAULT_INTERVAL_SECS: u64 = 10;

/// The shortest probe interval that a setting can ask for.
pub const MIN_INTERVAL_SECS: u64 = 2;

/// The settings that the applet reads from its configuration file.
///
/// The label's font size is a floating-point setting and is held by the
/// caller; `parse` hands back its raw values and `saved_text` takes its
/// rendering.
pub struct Config {
    /// Host to probe; empty until configured.
    pub host: String,
    pub port: u16,
    pub interval_secs: u64,
    /// SMB share: a bare share name or a full `//host/share` source.
    pub share: Option<String>,
    /// Local directory the share is mounted onto.
    pub mount_point: Option<String>,
    /// Extra options for `mount -o`.
    pub mount_options: Option<String>,
    /// Run mount and umount through `pkexec`.
    pub use_pkexec: bool,
}

#[verifier::ext_equal]
pub struct ConfigView {
    pub host: Seq<char>,
    pub port: u16,
    pub interval_secs: u64,
    pub share: Option<Seq<char>>,
    pub mount_point: Option<Seq<char>>,
    pub mount_options: Option<Seq<char>>,
    pub use_pkexec: bool,
}

impl View for Config {
    type V = ConfigView;

    open spec fn view(&self) -> ConfigView {
        ConfigView {
            host: self.host@,
            port: self.port,
            interval_secs: self.interval_secs,
            share: self.share.deep_view(),
            mount_point: self.mount_point.deep_view(),
            mount_options: self.mount_options.deep_view(),
            use_pkexec: self.use_pkexec,
        }
    }
}

/// The settings in force when the file says nothing.
pub open spec fn default_config() -> ConfigView {
    ConfigView {
        host: Seq::empty(),
        port: DEFAULT_PORT,
        interval_secs: DEFAULT_INTERVAL_SECS,
        share: None,
        mount_point: None,
        mount_options: None,
        use_pkexec: true,
    }
}

/// `None` for an empty value, else the value.
pub open spec fn non_empty_value(v: Seq<char>) -> Option<Seq<char>> {
    if v.len() == 0 {
        None
    } else {
        Some(v)
    }
}

/// `None` for an empty string, else the string.
pub fn non_empty(value: &str) -> (r: Option<String>)
    ensures
        r.deep_view() == non_empty_value(value@),
{
    if value.unicode_len() == 0 {
        None
    } else {
        Some(String::from_str(value))
    }
}

/// The setting that a line of the file holds: the trimmed line, unless it
/// is empty or a `#` comment, cut at its first `=`, both halves trimmed.
pub open spec fn entry(line: Seq<char>) -> Option<(Seq<char>, Seq<char>)> {
    let t = trim(line);
    if t.len() == 0 || t[0] == '#' {
        None
    } else {
        match split_once(t, '=') {
            Some(p) => Some((trim(p.0), trim(p.1))),
            None => None,
        }
    }
}

/// Whether `value` is one that `key` takes; a value that is not leaves the
/// earlier setting in force.
pub open spec fn acceptable(key: Seq<char>, value: Seq<char>) -> bool {
    if key == "port"@ {
        parsed_u16(value) is Some
    } else if key == "interval_secs"@ {
        parsed_u64(value) is Some
    } else if key == "use_pkexec"@ {
        value == "true"@ || value == "false"@
    } else {
        true
    }
}

/// The value of the last line of `lines` that sets `key` to a value it takes.
pub open spec fn setting(lines: Seq<Seq<char>>, key: Seq<char>) -> Option<Seq<char>>
    decreases lines.len(),
{
    if lines.len() == 0 {
        None
    } else {
        match entry(lines.last()) {
            Some((k, v)) => if k == key && acceptable(key, v) {
                Some(v)
            } else {
                setting(lines.drop_last(), key)
            },
            None => setting(lines.drop_last(), key),
        }
    }
}

/// The values of every `font_size` line, in file order.
pub open spec fn font_size_values(lines: Seq<Seq<char>>) -> Seq<Seq<char>>
    decreases lines.len(),
{
    if lines.len() == 0 {
        Seq::empty()
    } else {
        let before = font_size_values(lines.drop_last());
        match entry(lines.last()) {
            Some((k, v)) => if k == "font_size"@ {
                before.push(v)
            } else {
                before
            },
            None => before,
        }
    }
}

pub open spec fn max_u64(a: u64, b: u64) -> u64 {
    if a >= b {
        a
    } else {
        b
    }
}

/// The names of the settings are all different.
pub proof fn lemma_keys_distinct()
    ensures
        "host"@ != "port"@,
        "host"@ != "interval_secs"@,
        "host"@ != "font_size"@,
        "host"@ != "share"@,
        "host"@ != "mount_point"@,
        "host"@ != "mount_options"@,
        "host"@ != "use_pkexec"@,
        "port"@ != "interval_secs"@,
        "port"@ != "font_size"@,
        "port"@ != "share"@,
        "port"@ != "mount_point"@,
        "port"@ != "mount_options"@,
        "port"@ != "use_pkexec"@,
        "interval_secs"@ != "font_size"@,
        "interval_secs"@ != "share"@,
        "interval_secs"@ != "mount_point"@,
        "interval_secs"@ != "mount_options"@,
        "interval_secs"@ != "use_pkexec"@,
        "font_size"@ != "share"@,
        "font_size"@ != "mount_point"@,
        "font_size"@ != "mount_options"@,
        "font_size"@ != "use_pkexec"@,
        "share"@ != "mount_point"@,
        "share"@ != "mount_options"@,
        "share"@ != "use_pkexec"@,
        "mount_point"@ != "mount_options"@,
        "mount_point"@ != "use_pkexec"@,
        "mount_options"@ != "use_pkexec"@,
        "true"@ != "false"@,
{
    reveal_strlit("host");
    reveal_strlit("port");
    reveal_strlit("interval_secs");
    reveal_strlit("font_size");
    reveal_strlit("share");
    reveal_strlit("mount_point");
    reveal_strlit("mount_options");
    reveal_strlit("use_pkexec");
    reveal_strlit("true");
    reveal_strlit("false");
    assert("host"@[0] == 'h');
    assert("port"@[0] == 'p');
    assert("interval_secs"@[0] == 'i');
    assert("font_size"@[0] == 'f');
    assert("share"@[0] == 's');
    assert("mount_point"@[0] == 'm');
    assert("mount_options"@[0] == 'm');
    assert("mount_point"@.len() != "mount_options"@.len());
    assert("use_pkexec"@[0] == 'u');
    assert("true"@[0] == 't');
    assert("false"@[0] == 'f');
}

/// The settings that `lines` give, each the last accepted one, over the
/// defaults.
pub open spec fn config_from_lines(lines: Seq<Seq<char>>) -> ConfigView {
    ConfigView {
        host: match setting(lines, "host"@) {
            Some(v) => v,
            None => Seq::empty(),
        },
        port: match setting(lines, "port"@) {
            Some(v) => parsed_u16(v)->0,
            None => DEFAULT_PORT,
        },
        interval_secs: match setting(lines, "interval_secs"@) {
            Some(v) => max_u64(parsed_u64(v)->0, MIN_INTERVAL_SECS),
            None => DEFAULT_INTERVAL_SECS,
        },
        share: match setting(lines, "share"@) {
            Some(v) => non_empty_value(v),
            None => None,
        },
        mount_point: match setting(lines, "mount_point"@) {
            Some(v) => non_empty_value(v),
            None => None,
        },
        mount_options: match setting(lines, "mount_options"@) {
            Some(v) => non_empty_value(v),
            None => None,
        },
        use_pkexec: match setting(lines, "use_pkexec"@) {
            Some(v) => v == "true"@,
            None => true,
        },
    }
}

/// The settings that the text of a configuration file gives.
pub open spec fn parsed_config(text: Seq<char>) -> ConfigView {
    config_from_lines(lines_of(text))
}

/// Whether the host names anything to probe.
pub open spec fn configured(c: ConfigView) -> bool {
    trim(c.host).len() > 0
}

/// `s` with its leading `c` characters removed.
pub open spec fn trim_leading(s: Seq<char>, c: char) -> Seq<char>
    decreases s.len(),
{
    if s.len() > 0 && s[0] == c {
        trim_leading(s.drop_first(), c)
    } else {
        s
    }
}

/// `s` with every backslash turned into a slash.
pub open spec fn slashes_forward(s: Seq<char>) -> Seq<char> {
    s.map_values(|c: char| if c == '\\' { '/' } else { c })
}

/// The `mount -t cifs` source for a share: a value that already starts with
/// `//` or `\\` stands as it is (backslashes made slashes); a bare share
/// name becomes `//<host>/<share>`.
pub open spec fn mount_source_of(host: Seq<char>, share: Option<Seq<char>>) -> Option<Seq<char>> {
    match share {
        None => None,
        Some(s) => if has_prefix(s, "//"@) || has_prefix(s, "\\\\"@) {
            Some(slashes_forward(s))
        } else {
            Some("//"@ + host + "/"@ + trim_leading(s, '/'))
        },
    }
}

/// Whether both a share and a mount point are configured.
pub open spec fn mountable(c: ConfigView) -> bool {
    mount_source_of(c.host, c.share) is Some && c.mount_point is Some
}

/// The setting that `line` holds, if any.
pub fn line_entry(line: &str) -> (r: Option<(String, String)>)
    ensures
        r.deep_view() == entry(line@),
{
    let t = trimmed(line);
    if t.as_str().unicode_len() == 0 || starts_with(t.as_str(), "#") {
        proof {
            reveal_strlit("#");
            if t@.len() > 0 && has_prefix(t@, "#"@) {
                assert(t@.subrange(0, 1)[0] == t@[0]);
            }
        }
        return None;
    }
    proof {
        reveal_strlit("#");
        if t@[0] == '#' {
            assert(t@.subrange(0, 1) =~= "#"@);
        }
    }
    match split_once_at(t.as_str(), '=') {
        Some((k, v)) => {
            let key = trimmed(k.as_str());
            let value = trimmed(v.as_str());
            Some((key, value))
        },
        None => None,
    }
}

/// `s` with every backslash turned into a slash.
pub fn forward_slashes(s: &str) -> (r: String)
    ensures
        r@ == slashes_forward(s@),
{
    let v = chars_of(s);
    let mut out = String::new();
    let mut i: usize = 0;
    proof {
        reveal_strlit("/");
    }
    while i < v.len()
        invariant
            i <= v.len(),
            v@ == s@,
            "/"@ == seq!['/'],
            out@ == slashes_forward(v@.take(i as int)),
        decreases v.len() - i,
    {
        if v[i] == '\\' {
            out.append("/");
        } else {
            out.append(s.substring_char(i, i + 1));
        }
        proof {
            assert(slashes_forward(v@.take(i + 1)) =~= slashes_forward(v@.take(i as int)).push(
                if v@[i as int] == '\\' {
                    '/'
                } else {
                    v@[i as int]
                },
            ));
            assert(out@ =~= slashes_forward(v@.take(i + 1)));
        }
        i = i + 1;
    }
    proof {
        assert(v@.take(v.len() as int) =~= v@);
    }
    out
}

/// `s` with its leading `c` characters removed.
pub fn without_leading(s: &str, c: char) -> (r: String)
    ensures
        r@ == trim_leading(s@, c),
{
    let v = chars_of(s);
    let mut i: usize = 0;
    assert(v@.subrange(0, v.len() as int) =~= v@);
    while i < v.len() && v[i] == c
        invariant
            i <= v.len(),
            v@ == s@,
            trim_leading(v@, c) == trim_leading(v@.subrange(i as int, v.len() as int), c),
        decreases v.len() - i,
    {
        proof {
            let rest = v@.subrange(i as int, v.len() as int);
            assert(rest.drop_first() =~= v@.subrange(i + 1, v.len() as int));
        }
        i = i + 1;
    }
    proof {
        assert(v@.subrange(0, v.len() as int) =~= v@);
    }
    String::from_str(s.substring_char(i, v.len()))
}

/// A setting to write: its name, and its value or `None` for "leave it out".
pub type SettingView = (Seq<char>, Option<Seq<char>>);

/// The name of the setting that a line of the file is about when it is
/// written back: the trimmed text before its first `=`.
pub open spec fn line_key(line: Seq<char>) -> Option<Seq<char>> {
    match split_once(line, '=') {
        Some(p) => Some(trim(p.0)),
        None => None,
    }
}

/// Position of the first setting named `key`.
pub open spec fn first_key_index(d: Seq<SettingView>, key: Seq<char>) -> Option<int>
    decreases d.len(),
{
    if d.len() == 0 {
        None
    } else if d[0].0 == key {
        Some(0)
    } else {
        match first_key_index(d.drop_first(), key) {
            Some(j) => Some(j + 1),
            None => None,
        }
    }
}

pub proof fn lemma_first_key_index_found(d: Seq<SettingView>, key: Seq<char>, j: int)
    requires
        0 <= j < d.len(),
        d[j].0 == key,
        forall|k: int| 0 <= k < j ==> (#[trigger] d[k]).0 != key,
    ensures
        first_key_index(d, key) == Some(j),
    decreases j,
{
    if j > 0 {
        assert forall|k: int| 0 <= k < j - 1 implies (#[trigger] d.drop_first()[k]).0 != key by {
            assert(d.drop_first()[k] == d[k + 1]);
        }
        lemma_first_key_index_found(d.drop_first(), key, j - 1);
    }
}

pub proof fn lemma_first_key_index_absent(d: Seq<SettingView>, key: Seq<char>)
    requires
        forall|k: int| 0 <= k < d.len() ==> (#[trigger] d[k]).0 != key,
    ensures
        first_key_index(d, key) is None,
    decreases d.len(),
{
    if d.len() > 0 {
        assert forall|k: int| 0 <= k < d.len() - 1 implies (#[trigger] d.drop_first()[k]).0
            != key by {
            assert(d.drop_first()[k] == d[k + 1]);
        }
        lemma_first_key_index_absent(d.drop_first(), key);
    }
}

/// The line that records setting `key` with value `value`.
pub open spec fn setting_line(key: Seq<char>, value: Seq<char>) -> Seq<char> {
    key + " = "@ + value
}

/// What becomes of one line of the old file: a line about a setting to
/// write gives that setting's line (or nothing when the setting is left
/// out); every other line stays as it is.
pub open spec fn rewritten_line(line: Seq<char>, d: Seq<SettingView>) -> Seq<Seq<char>> {
    match line_key(line) {
        Some(k) => match first_key_index(d, k) {
            Some(j) => match d[j].1 {
                Some(v) => seq![setting_line(d[j].0, v)],
                None => Seq::empty(),
            },
            None => seq![line],
        },
        None => seq![line],
    }
}

/// The old file's lines, each rewritten.
pub open spec fn rewritten_lines(lines: Seq<Seq<char>>, d: Seq<SettingView>) -> Seq<Seq<char>>
    decreases lines.len(),
{
    if lines.len() == 0 {
        Seq::empty()
    } else {
        rewritten_lines(lines.drop_last(), d) + rewritten_line(lines.last(), d)
    }
}

/// Whether some line is about setting `key`.
pub open spec fn mentions(lines: Seq<Seq<char>>, key: Seq<char>) -> bool {
    exists|i: int| 0 <= i < lines.len() && line_key(#[trigger] lines[i]) == Some(key)
}

/// The lines for the settings that have a value and that no old line was
/// about, in the order of `d`.
pub open spec fn missing_lines(lines: Seq<Seq<char>>, d: Seq<SettingView>) -> Seq<Seq<char>>
    decreases d.len(),
{
    if d.len() == 0 {
        Seq::empty()
    } else {
        let before = missing_lines(lines, d.drop_last());
        match d.last().1 {
            Some(v) => if !mentions(lines, d.last().0) {
                before.push(setting_line(d.last().0, v))
            } else {
                before
            },
            None => before,
        }
    }
}

/// Lines joined with `'\n'` between them.
pub open spec fn join_lines(ls: Seq<Seq<char>>) -> Seq<char>
    decreases ls.len(),
{
    if ls.len() == 0 {
        Seq::empty()
    } else if ls.len() == 1 {
        ls[0]
    } else {
        join_lines(ls.drop_last()) + seq!['\n'] + ls.last()
    }
}

/// The new text of a configuration file whose old text is `existing`, with
/// the settings `d` written in: lines about those settings rewritten in
/// place, every other line kept, the settings that no line was about added
/// at the end, and a final newline.
pub open spec fn merged_text(existing: Seq<char>, d: Seq<SettingView>) -> Seq<char> {
    let lines = lines_of(existing);
    join_lines(rewritten_lines(lines, d) + missing_lines(lines, d)).push('\n')
}

/// `"true"` or `"false"`.
pub open spec fn bool_text(b: bool) -> Seq<char> {
    if b {
        "true"@
    } else {
        "false"@
    }
}

/// The settings that saving writes, in file order: each key with the value
/// to write, or `None` to leave the key out of the file.
pub open spec fn desired_settings(c: ConfigView, font_size: Option<Seq<char>>) -> Seq<SettingView> {
    seq![
        ("host"@, non_empty_value(trim(c.host))),
        ("port"@, Some(decimal(c.port as nat))),
        ("interval_secs"@, Some(decimal(c.interval_secs as nat))),
        ("font_size"@, font_size),
        ("share"@, c.share),
        ("mount_point"@, c.mount_point),
        ("mount_options"@, c.mount_options),
        ("use_pkexec"@, Some(bool_text(c.use_pkexec))),
    ]
}

/// A copy of an optional string.
pub fn copy_opt(o: &Option<String>) -> (r: Option<String>)
    ensures
        r.deep_view() == o.deep_view(),
{
    match o {
        Some(s) => Some(s.clone()),
        None => None,
    }
}

/// `"true"` or `"false"`, as `b.to_string()` writes it.
pub fn bool_str(b: bool) -> (r: &'static str)
    ensures
        r@ == bool_text(b),
{
    if b {
        "true"
    } else {
        "false"
    }
}

/// The name of the setting that `line` is about when it is written back.
pub fn key_of_line(line: &str) -> (r: Option<String>)
    ensures
        r.deep_view() == line_key(line@),
{
    match split_once_at(line, '=') {
        Some((k, _)) => Some(trimmed(k.as_str())),
        None => None,
    }
}

/// Position of the first setting of `d` named `key`.
pub fn find_setting(d: &Vec<(String, Option<String>)>, key: &str) -> (r: Option<usize>)
    ensures
        r matches Some(j) ==> first_key_index(d.deep_view(), key@) == Some(j as int) && j < d.len(),
        r is None ==> first_key_index(d.deep_view(), key@) is None,
{
    let mut j: usize = 0;
    while j < d.len()
        invariant
            j <= d.len(),
            forall|k: int| 0 <= k < j ==> (#[trigger] d.deep_view()[k]).0 != key@,
        decreases d.len() - j,
    {
        if same_text(d[j].0.as_str(), key) {
            proof {
                lemma_first_key_index_found(d.deep_view(), key@, j as int);
            }
            return Some(j);
        }
        j = j + 1;
    }
    proof {
        lemma_first_key_index_absent(d.deep_view(), key@);
    }
    None
}

/// The line `key = value`.
pub fn setting_line_text(key: &str, value: &str) -> (r: String)
    ensures
        r@ == setting_line(key@, value@),
{
    let mut s = String::from_str(key);
    s.append(" = ");
    s.append(value);
    s
}

/// Whether some line of `lines` is about setting `key`.
pub fn lines_mention(lines: &Vec<String>, key: &str) -> (r: bool)
    ensures
        r == mentions(lines.deep_view(), key@),
{
    let mut i: usize = 0;
    while i < lines.len()
        invariant
            i <= lines.len(),
            forall|k: int| 0 <= k < i ==> line_key(#[trigger] lines.deep_view()[k]) != Some(key@),
        decreases lines.len() - i,
    {
        let k = key_of_line(lines[i].as_str());
        match k {
            Some(name) => {
                if same_text(name.as_str(), key) {
                    assert(line_key(lines.deep_view()[i as int]) == Some(key@));
                    return true;
                }
            },
            None => {},
        }
        i = i + 1;
    }
    false
}

/// `lines` joined with `'\n'` between them.
pub fn joined(lines: &Vec<String>) -> (r: String)
    ensures
        r@ == join_lines(lines.deep_view()),
{
    proof {
        reveal_strlit("\n");
    }
    let mut out = String::new();
    let mut i: usize = 0;
    proof {
        assert(lines.deep_view().take(0) =~= Seq::<Seq<char>>::empty());
    }
    while i < lines.len()
        invariant
            i <= lines.len(),
            "\n"@ == seq!['\n'],
            out@ == join_lines(lines.deep_view().take(i as int)),
        decreases lines.len() - i,
    {
        let ghost ls = lines.deep_view().take(i + 1);
        assert(ls.drop_last() =~= lines.deep_view().take(i as int));
        if i > 0 {
            out.append("\n");
        }
        out.append(lines[i].as_str());
        proof {
            if i == 0 {
                assert(out@ =~= ls[0]);
            } else {
                assert(out@ =~= join_lines(ls.drop_last()) + seq!['\n'] + ls.last());
            }
        }
        i = i + 1;
    }
    assert(lines.deep_view().take(lines.len() as int) =~= lines.deep_view());
    out
}

/// `lines` joined with `'\n'` between them, and a final `'\n'`.
pub fn joined_lines(lines: &Vec<String>) -> (r: String)
    ensures
        r@ == join_lines(lines.deep_view()).push('\n'),
{
    proof {
        reveal_strlit("\n");
    }
    let mut out = joined(lines);
    out.append("\n");
    out
}

/// The new text of a configuration file: `existing` with the settings `d`
/// written in (see `merged_text`).
pub fn merged_settings_text(existing: &str, d: &Vec<(String, Option<String>)>) -> (r: String)
    ensures
        r@ == merged_text(existing@, d.deep_view()),
{
    let lines = text_lines(existing);
    let ghost ls = lines.deep_view();
    let ghost dv = d.deep_view();
    let mut out: Vec<String> = Vec::new();
    let mut i: usize = 0;
    proof {
        assert(ls.take(0) =~= Seq::<Seq<char>>::empty());
        assert(out.deep_view() =~= Seq::<Seq<char>>::empty());
    }
    while i < lines.len()
        invariant
            i <= lines.len(),
            ls == lines.deep_view(),
            dv == d.deep_view(),
            out.deep_view() == rewritten_lines(ls.take(i as int), dv),
        decreases lines.len() - i,
    {
        let ghost prev = out.deep_view();
        assert(ls.take(i + 1).drop_last() =~= ls.take(i as int));
        assert(ls.take(i + 1).last() == lines[i as int]@);
        let line = lines[i].as_str();
        let mut kept = true;
        match key_of_line(line) {
            Some(name) => {
                match find_setting(d, name.as_str()) {
                    Some(j) => {
                        kept = false;
                        match &d[j].1 {
                            Some(v) => {
                                out.push(setting_line_text(d[j].0.as_str(), v.as_str()));
                            },
                            None => {},
                        }
                        proof {
                            assert(rewritten_line(line@, dv) == match dv[j as int].1 {
                                Some(v) => seq![setting_line(dv[j as int].0, v)],
                                None => Seq::<Seq<char>>::empty(),
                            });
                        }
                    },
                    None => {},
                }
            },
            None => {},
        }
        if kept {
            out.push(String::from_str(line));
            proof {
                assert(rewritten_line(line@, dv) == seq![line@]);
            }
        }
        proof {
            assert(out.deep_view() =~= prev + rewritten_line(line@, dv));
        }
        i = i + 1;
    }
    assert(ls.take(lines.len() as int) =~= ls);
    let ghost body = out.deep_view();
    let mut j: usize = 0;
    proof {
        assert(dv.take(0) =~= Seq::<SettingView>::empty());
        assert(body + missing_lines(ls, dv.take(0)) =~= body);
    }
    while j < d.len()
        invariant
            j <= d.len(),
            ls == lines.deep_view(),
            dv == d.deep_view(),
            body == rewritten_lines(ls, dv),
            out.deep_view() == body + missing_lines(ls, dv.take(j as int)),
        decreases d.len() - j,
    {
        assert(dv.take(j + 1).drop_last() =~= dv.take(j as int));
        assert(dv.take(j + 1).last() == dv[j as int]);
        match &d[j].1 {
            Some(v) => {
                assert(dv[j as int].1 == Some(v@));
                assert(dv[j as int].0 == d[j as int].0@);
                if !lines_mention(&lines, d[j].0.as_str()) {
                    let ghost before = out.deep_view();
                    out.push(setting_line_text(d[j].0.as_str(), v.as_str()));
                    proof {
                        assert(missing_lines(ls, dv.take(j + 1)) == missing_lines(ls, dv.take(j as int)).push(setting_line(dv[j as int].0, v@)));
                        assert(out.deep_view() =~= before.push(setting_line(dv[j as int].0, v@)));
                        assert(out.deep_view() =~= body + missing_lines(ls, dv.take(j + 1)));
                    }
                }
            },
            None => {},
        }
        j = j + 1;
    }
    assert(dv.take(d.len() as int) =~= dv);
    joined_lines(&out)
}

impl Config {
    /// The settings in force before any file is read.
    pub fn defaults() -> (c: Config)
        ensures
            c@ == default_config(),
    {
        Config {
            host: String::new(),
            port: DEFAULT_PORT,
            interval_secs: DEFAULT_INTERVAL_SECS,
            share: None,
            mount_point: None,
            mount_options: None,
            use_pkexec: true,
        }
    }

    /// Whether the applet has a host to probe.
    pub fn is_configured(&self) -> (r: bool)
        ensures
            r == configured(self@),
    {
        trimmed(self.host.as_str()).as_str().unicode_len() != 0
    }

    /// The source to mount for the configured share, if there is one.
    pub fn mount_source(&self) -> (r: Option<String>)
        ensures
            r.deep_view() == mount_source_of(self@.host, self@.share),
    {
        let share = match &self.share {
            Some(s) => s.as_str(),
            None => {
                return None;
            },
        };
        if starts_with(share, "//") || starts_with(share, "\\\\") {
            Some(forward_slashes(share))
        } else {
            let mut out = String::from_str("//");
            out.append(self.host.as_str());
            out.append("/");
            out.append(without_leading(share, '/').as_str());
            proof {
                reveal_strlit("//");
                reveal_strlit("/");
            }
            Some(out)
        }
    }

    /// Whether the connect and disconnect actions make sense.
    pub fn is_mountable(&self) -> (r: bool)
        ensures
            r == mountable(self@),
    {
        self.mount_source().is_some() && self.mount_point.is_some()
    }

    /// The settings that saving writes (see `desired_settings`), with the
    /// given rendering of the label font size.
    pub fn desired_settings(&self, font_size: Option<String>) -> (d: Vec<(String, Option<String>)>)
        ensures
            d.deep_view() == desired_settings(self@, font_size.deep_view()),
    {
        let mut d: Vec<(String, Option<String>)> = Vec::new();
        d.push((String::from_str("host"), non_empty(trimmed(self.host.as_str()).as_str())));
        d.push((String::from_str("port"), Some(decimal_text(self.port as u64))));
        d.push((String::from_str("interval_secs"), Some(decimal_text(self.interval_secs))));
        d.push((String::from_str("font_size"), font_size));
        d.push((String::from_str("share"), copy_opt(&self.share)));
        d.push((String::from_str("mount_point"), copy_opt(&self.mount_point)));
        d.push((String::from_str("mount_options"), copy_opt(&self.mount_options)));
        d.push((String::from_str("use_pkexec"), Some(String::from_str(bool_str(self.use_pkexec)))));
        proof {
            assert(d.deep_view() =~= desired_settings(self@, font_size.deep_view()));
        }
        d
    }

    /// The text to store for these settings when the file held `existing`:
    /// lines about known settings rewritten in place (or dropped when a
    /// setting is unset), comments and other lines kept, and the remaining
    /// settings added at the end.
    pub fn saved_text(&self, existing: &str, font_size: Option<String>) -> (r: String)
        ensures
            r@ == merged_text(existing@, desired_settings(self@, font_size.deep_view())),
    {
        let d = self.desired_settings(font_size);
        merged_settings_text(existing, &d)
    }

    /// The settings that the text of a configuration file gives, and the
    /// raw value of each `font_size` line in file order.
    pub fn parse(contents: &str) -> (r: (Config, Vec<String>))
        ensures
            r.0@ == parsed_config(contents@),
            r.1.deep_view() == font_size_values(lines_of(contents@)),
    {
        let lines = text_lines(contents);
        let mut config = Config::defaults();
        let mut fonts: Vec<String> = Vec::new();
        let mut i: usize = 0;
        proof {
            assert(lines.deep_view().take(0) =~= Seq::<Seq<char>>::empty());
        }
        while i < lines.len()
            invariant
                i <= lines.len(),
                config@ == config_from_lines(lines.deep_view().take(i as int)),
                fonts.deep_view() == font_size_values(lines.deep_view().take(i as int)),
            decreases lines.len() - i,
        {
            proof {
                reveal_strlit("host");
                reveal_strlit("port");
                reveal_strlit("interval_secs");
                reveal_strlit("font_size");
                reveal_strlit("share");
                reveal_strlit("mount_point");
                reveal_strlit("mount_options");
                reveal_strlit("use_pkexec");
                reveal_strlit("true");
                reveal_strlit("false");
                lemma_keys_distinct();
            }
            let ghost ls = lines.deep_view().take(i + 1);
            assert(ls.drop_last() =~= lines.deep_view().take(i as int));
            assert(ls.last() == lines[i as int]@);
            let found = line_entry(lines[i].as_str());
            match found {
                Some((key, value)) => {
                    assert(found.deep_view() == Some((key@, value@)));
                    assert(entry(ls.last()) == Some((key@, value@)));
                    let k = key.as_str();
                    let v = value.as_str();
                    if same_text(k, "host") {
                        config.host = value;
                    } else if same_text(k, "port") {
                        if let Some(port) = parse_u16(v) {
                            config.port = port;
                        }
                    } else if same_text(k, "interval_secs") {
                        if let Some(secs) = parse_u64(v) {
                            config.interval_secs = if secs >= MIN_INTERVAL_SECS {
                                secs
                            } else {
                                MIN_INTERVAL_SECS
                            };
                        }
                    } else if same_text(k, "font_size") {
                        fonts.push(value);
                        proof {
                            assert(fonts.deep_view() =~= font_size_values(ls));
                        }
                    } else if same_text(k, "share") {
                        config.share = non_empty(v);
                    } else if same_text(k, "mount_point") {
                        config.mount_point = non_empty(v);
                    } else if same_text(k, "mount_options") {
                        config.mount_options = non_empty(v);
                    } else if same_text(k, "use_pkexec") {
                        if same_text(v, "true") {
                            config.use_pkexec = true;
                        } else if same_text(v, "false") {
                            config.use_pkexec = false;
                        }
                    }
                },
                None => {},
            }
            i = i + 1;
        }
        proof {
            assert(lines.deep_view().take(lines.len() as int) =~= lines.deep_view());
        }
        (config, fonts)
    }
}

} // verus!
