//! Mounting and unmounting the share: the command lines, what their
//! outcome tells the user, and whether the share is in the mount table.

use vstd::prelude::*;
use vstd::utf8::{valid_utf8, decode_utf8};
use crate::text::{
    chars_of, is_whitespace, is_ws, lines_of, same_text, text_lines, trim, trimmed,
};
use crate::config::{Config, ConfigView, mount_source_of};

verus! {

broadcast use vstd::string::group_string_axioms;

/// The decoding of `bytes` that `String::from_utf8_lossy` gives.
pub uninterp spec fn lossy_text(bytes: Seq<u8>) -> Seq<char>;

/// `String::from_utf8_lossy`: a deterministic decoding of the bytes, which
/// is the exact UTF-8 decoding when the bytes are valid UTF-8 (invalid
/// sequences become U+FFFD, which is not stated here).
#[verifier::external_body]
fn decode_lossy(bytes: &[u8]) -> (r: String)
    ensures
        r@ == lossy_text(bytes@),
        valid_utf8(bytes@) ==> r@ == decode_utf8(bytes@),
{
    String::from_utf8_lossy(bytes).into_owned()
}

/// `std::path::Path::exists`: whether something is found at `path` on disk
/// now. What is on disk is outside the library, so nothing is stated of the
/// result.
#[verifier::external_body]
fn path_exists(path: &str) -> bool {
    std::path::Path::new(path).exists()
}


/// Where the CIFS mount helper (`mount.cifs` from `cifs-utils`) is looked
/// for, in order.
pub open spec fn cifs_helper_locations() -> Seq<Seq<char>> {
    seq!["/sbin/mount.cifs"@, "/usr/sbin/mount.cifs"@, "/bin/mount.cifs"@]
}

/// The places where the CIFS mount helper is looked for, in order.
pub fn cifs_helper_paths() -> (r: Vec<String>)
    ensures
        r.deep_view() == cifs_helper_locations(),
{
    let mut r: Vec<String> = Vec::new();
    r.push(String::from_str("/sbin/mount.cifs"));
    r.push(String::from_str("/usr/sbin/mount.cifs"));
    r.push(String::from_str("/bin/mount.cifs"));
    proof {
        assert(r.deep_view() =~= cifs_helper_locations());
    }
    r
}

/// Whether the CIFS mount helper was found, given what looking for it at
/// each place gave: whether any look found it.
pub fn helper_found(found: &Vec<bool>) -> (r: bool)
    ensures
        r == found@.contains(true),
{
    let mut i: usize = 0;
    while i < found.len()
        invariant
            i <= found.len(),
            forall|k: int| 0 <= k < i ==> !found@[k],
        decreases found.len() - i,
    {
        if found[i] {
            assert(found@[i as int] == true);
            return true;
        }
        i = i + 1;
    }
    false
}

/// Whether the CIFS mount helper is installed: something is looked for at
/// each of `cifs_helper_paths` in order, stopping at the first found, and
/// `helper_found` decides on what the looks gave; without the helper
/// `mount -t cifs` fails with an unhelpful error. What is found is on disk,
/// outside the library, so the result is not stated.
pub fn mount_cifs_available() -> bool {
    let paths = cifs_helper_paths();
    let mut found: Vec<bool> = Vec::new();
    let mut i: usize = 0;
    while i < paths.len()
        invariant
            i <= paths.len(),
        decreases paths.len() - i,
    {
        let here = path_exists(paths[i].as_str());
        found.push(here);
        if here {
            break;
        }
        i = i + 1;
    }
    helper_found(&found)
}

/// The message shown when the CIFS mount helper is missing.
pub open spec fn missing_helper_message() -> Seq<char> {
    "cifs-utils not installed (mount.cifs missing)"@
}

/// The start of a command line that runs `verb`, through `pkexec` or not.
pub open spec fn launcher(use_pkexec: bool, verb: Seq<char>) -> Seq<Seq<char>> {
    if use_pkexec {
        seq!["pkexec"@, verb]
    } else {
        seq![verb]
    }
}

/// The command line that mounts the configured share, when a source and a
/// mount point are both configured:
/// `[pkexec] mount -t cifs <source> <mount point> [-o <options>]`.
pub open spec fn mount_argv(c: ConfigView) -> Option<Seq<Seq<char>>> {
    match (mount_source_of(c.host, c.share), c.mount_point) {
        (Some(source), Some(mp)) => Some(
            launcher(c.use_pkexec, "mount"@) + seq!["-t"@, "cifs"@, source, mp] + match c.mount_options {
                Some(o) => seq!["-o"@, o],
                None => Seq::<Seq<char>>::empty(),
            },
        ),
        _ => None,
    }
}

/// The command line that unmounts the configured mount point:
/// `[pkexec] umount <mount point>`.
pub open spec fn unmount_argv(c: ConfigView) -> Option<Seq<Seq<char>>> {
    match c.mount_point {
        Some(mp) => Some(launcher(c.use_pkexec, "umount"@).push(mp)),
        None => None,
    }
}

fn launcher_argv(use_pkexec: bool, verb: &str) -> (r: Vec<String>)
    ensures
        r.deep_view() == launcher(use_pkexec, verb@),
{
    let mut argv: Vec<String> = Vec::new();
    if use_pkexec {
        argv.push(String::from_str("pkexec"));
    }
    argv.push(String::from_str(verb));
    proof {
        assert(argv.deep_view() =~= launcher(use_pkexec, verb@));
    }
    argv
}

/// The command line that mounts the configured share, if there is one.
pub fn mount_command(config: &Config) -> (r: Option<Vec<String>>)
    ensures
        r.deep_view() == mount_argv(config@),
{
    let source = match config.mount_source() {
        Some(s) => s,
        None => {
            return None;
        },
    };
    let mount_point = match &config.mount_point {
        Some(m) => m.clone(),
        None => {
            return None;
        },
    };
    let mut argv = launcher_argv(config.use_pkexec, "mount");
    let ghost start = argv.deep_view();
    argv.push(String::from_str("-t"));
    argv.push(String::from_str("cifs"));
    argv.push(source);
    argv.push(mount_point);
    let ghost middle = argv.deep_view();
    match &config.mount_options {
        Some(o) => {
            argv.push(String::from_str("-o"));
            argv.push(o.clone());
        },
        None => {},
    }
    proof {
        assert(argv.deep_view() =~= mount_argv(config@)->0);
    }
    Some(argv)
}

/// The command line that unmounts the configured mount point, if any.
pub fn unmount_command(config: &Config) -> (r: Option<Vec<String>>)
    ensures
        r.deep_view() == unmount_argv(config@),
{
    match &config.mount_point {
        Some(m) => {
            let mut argv = launcher_argv(config.use_pkexec, "umount");
            argv.push(m.clone());
            proof {
                assert(argv.deep_view() =~= unmount_argv(config@)->0);
            }
            Some(argv)
        },
        None => None,
    }
}

/// How a mount or unmount command ended.
pub enum CommandOutcome {
    /// It ran; whether it exited successfully, and what it wrote to stderr.
    Finished { success: bool, stderr: Vec<u8> },
    /// It could not be started; the reason, as text.
    NotStarted { reason: String },
}

/// The first line of `lines` that is not blank, trimmed.
pub open spec fn first_nonblank(lines: Seq<Seq<char>>) -> Option<Seq<char>>
    decreases lines.len(),
{
    if lines.len() == 0 {
        None
    } else if trim(lines[0]).len() > 0 {
        Some(trim(lines[0]))
    } else {
        first_nonblank(lines.drop_first())
    }
}

/// The message for a command `verb` that failed after writing `stderr`:
/// `<verb> failed: ` and the first non-blank line of `stderr`, trimmed (or
/// `command failed` when there is none).
pub open spec fn failure_message(verb: Seq<char>, stderr: Seq<char>) -> Seq<char> {
    verb + " failed: "@ + match first_nonblank(lines_of(stderr)) {
        Some(m) => m,
        None => "command failed"@,
    }
}

/// What the user is told of a finished mount or unmount: nothing on
/// success; else `<verb> failed: ` and the first non-blank line of its
/// stderr (or `command failed`); or, when it could not be started,
/// `could not run <verb>: ` and the reason.
pub open spec fn outcome_message(verb: Seq<char>, outcome: CommandOutcome) -> Option<Seq<char>> {
    match outcome {
        CommandOutcome::Finished { success, stderr } => if success {
            None
        } else {
            Some(failure_message(verb, lossy_text(stderr@)))
        },
        CommandOutcome::NotStarted { reason } => Some("could not run "@ + verb + ": "@ + reason@),
    }
}

/// The first non-blank line of `lines`, trimmed.
pub fn first_nonblank_line(lines: &Vec<String>) -> (r: Option<String>)
    ensures
        r.deep_view() == first_nonblank(lines.deep_view()),
{
    let mut i: usize = 0;
    assert(lines.deep_view().skip(0) =~= lines.deep_view());
    while i < lines.len()
        invariant
            i <= lines.len(),
            first_nonblank(lines.deep_view()) == first_nonblank(lines.deep_view().skip(i as int)),
        decreases lines.len() - i,
    {
        let ghost rest = lines.deep_view().skip(i as int);
        assert(rest[0] == lines[i as int]@);
        assert(rest.drop_first() =~= lines.deep_view().skip(i + 1));
        let t = trimmed(lines[i].as_str());
        if t.as_str().unicode_len() > 0 {
            return Some(t);
        }
        i = i + 1;
    }
    assert(lines.deep_view().skip(i as int) =~= Seq::<Seq<char>>::empty());
    None
}

/// What the user is told of how a mount or unmount command ended (`None`
/// when it succeeded).
pub fn outcome_report(verb: &str, outcome: &CommandOutcome) -> (r: Option<String>)
    ensures
        r.deep_view() == outcome_message(verb@, *outcome),
        match *outcome {
            CommandOutcome::Finished { success, stderr } => !success && valid_utf8(stderr@)
                ==> r.deep_view() == Some(failure_message(verb@, decode_utf8(stderr@))),
            CommandOutcome::NotStarted { .. } => true,
        },
{
    match outcome {
        CommandOutcome::Finished { success, stderr } => {
            if *success {
                None
            } else {
                let text = decode_lossy(stderr.as_slice());
                let lines = text_lines(text.as_str());
                let mut msg = String::from_str(verb);
                msg.append(" failed: ");
                match first_nonblank_line(&lines) {
                    Some(m) => msg.append(m.as_str()),
                    None => msg.append("command failed"),
                }
                Some(msg)
            }
        },
        CommandOutcome::NotStarted { reason } => {
            let mut msg = String::from_str("could not run ");
            msg.append(verb);
            msg.append(": ");
            msg.append(reason.as_str());
            Some(msg)
        },
    }
}


/// The whitespace-separated words of `t`, as `str::split_whitespace` gives.
pub open spec fn words(t: Seq<char>) -> Seq<Seq<char>>
    decreases t.len(),
{
    if t.len() == 0 {
        Seq::empty()
    } else {
        let w = words(t.drop_last());
        let c = t.last();
        if is_ws(c) {
            w
        } else if t.len() >= 2 && !is_ws(t[t.len() - 2]) {
            w.update(w.len() - 1, w.last().push(c))
        } else {
            w.push(seq![c])
        }
    }
}

/// The whitespace-separated words of `s`.
pub fn words_of(s: &str) -> (r: Vec<String>)
    ensures
        r.deep_view() == words(s@),
{
    let v = chars_of(s);
    let n = v.len();
    let mut out: Vec<String> = Vec::new();
    let mut start: usize = 0;
    let mut in_word = false;
    let mut i: usize = 0;
    assert(v@.take(0) =~= Seq::<char>::empty());
    while i < n
        invariant
            n == v.len(),
            v@ == s@,
            i <= n,
            in_word <==> (i > 0 && !is_ws(v@[i - 1])),
            in_word ==> start < i,
            in_word ==> words(v@.take(i as int)) == out.deep_view().push(
                v@.subrange(start as int, i as int),
            ),
            !in_word ==> words(v@.take(i as int)) == out.deep_view(),
        decreases n - i,
    {
        let ghost t = v@.take(i + 1);
        assert(t.drop_last() =~= v@.take(i as int));
        assert(t.last() == v@[i as int]);
        if i > 0 {
            assert(t[t.len() - 2] == v@[i - 1]);
        }
        if is_whitespace(v[i]) {
            if in_word {
                out.push(String::from_str(s.substring_char(start, i)));
                in_word = false;
            }
        } else {
            if !in_word {
                start = i;
                in_word = true;
                proof {
                    assert(v@.subrange(start as int, i + 1) =~= seq![v@[i as int]]);
                }
            } else {
                proof {
                    let w = words(v@.take(i as int));
                    assert(v@.subrange(start as int, i + 1) =~= v@.subrange(start as int, i as int).push(
                        v@[i as int],
                    ));
                    assert(w.update(w.len() - 1, w.last().push(v@[i as int])) =~= out.deep_view().push(
                        v@.subrange(start as int, i + 1),
                    ));
                }
            }
        }
        i = i + 1;
    }
    assert(v@.take(n as int) =~= v@);
    if in_word {
        out.push(String::from_str(s.substring_char(start, n)));
    }
    out
}

/// `m` with each `\040` (how the mount table writes a space) made a space,
/// scanning from the left as `str::replace` does.
pub open spec fn unescape_spaces(m: Seq<char>) -> Seq<char>
    decreases m.len(),
{
    if m.len() >= 4 && m.subrange(0, 4) == seq!['\\', '0', '4', '0'] {
        seq![' '] + unescape_spaces(m.subrange(4, m.len() as int))
    } else if m.len() > 0 {
        seq![m[0]] + unescape_spaces(m.drop_first())
    } else {
        Seq::empty()
    }
}

/// `m` with each `\040` made a space.
pub fn unescaped_spaces(m: &str) -> (r: String)
    ensures
        r@ == unescape_spaces(m@),
{
    let v = chars_of(m);
    let n = v.len();
    let mut out = String::new();
    let mut i: usize = 0;
    proof {
        reveal_strlit(" ");
        assert(v@.subrange(0, n as int) =~= v@);
    }
    while i < n
        invariant
            n == v.len(),
            v@ == m@,
            i <= n,
            " "@ == seq![' '],
            unescape_spaces(m@) == out@ + unescape_spaces(v@.subrange(i as int, n as int)),
        decreases n - i,
    {
        let ghost rest = v@.subrange(i as int, n as int);
        if n - i >= 4 && v[i] == '\\' && v[i + 1] == '0' && v[i + 2] == '4' && v[i + 3] == '0' {
            proof {
                assert(rest.subrange(0, 4) =~= seq!['\\', '0', '4', '0']);
                assert(rest.subrange(4, rest.len() as int) =~= v@.subrange(i + 4, n as int));
                assert(out@ + " "@ + unescape_spaces(v@.subrange(i + 4, n as int)) =~= out@ + (seq![' '] + unescape_spaces(v@.subrange(i + 4, n as int))));
            }
            out.append(" ");
            i = i + 4;
        } else {
            proof {
                if rest.len() >= 4 {
                    if rest.subrange(0, 4) == seq!['\\', '0', '4', '0'] {
                        assert(rest.subrange(0, 4)[0] == v@[i as int]);
                        assert(rest.subrange(0, 4)[1] == v@[i + 1]);
                        assert(rest.subrange(0, 4)[2] == v@[i + 2]);
                        assert(rest.subrange(0, 4)[3] == v@[i + 3]);
                    }
                }
                assert(rest.drop_first() =~= v@.subrange(i + 1, n as int));
                assert(rest[0] == v@[i as int]);
            }
            let piece = m.substring_char(i, i + 1);
            proof {
                assert(piece@ =~= seq![v@[i as int]]);
                assert(out@ + piece@ + unescape_spaces(v@.subrange(i + 1, n as int)) =~= out@ + (seq![v@[i as int]] + unescape_spaces(v@.subrange(i + 1, n as int))));
            }
            out.append(piece);
            i = i + 1;
        }
    }
    proof {
        assert(v@.subrange(n as int, n as int) =~= Seq::<char>::empty());
        assert(out@ + Seq::<char>::empty() =~= out@);
    }
    out
}

/// `s` with its trailing `c` characters removed.
pub open spec fn trim_trailing(s: Seq<char>, c: char) -> Seq<char>
    decreases s.len(),
{
    if s.len() > 0 && s.last() == c {
        trim_trailing(s.drop_last(), c)
    } else {
        s
    }
}

/// `s` with its trailing `c` characters removed.
pub fn without_trailing(s: &str, c: char) -> (r: String)
    ensures
        r@ == trim_trailing(s@, c),
{
    let v = chars_of(s);
    let mut j: usize = v.len();
    assert(v@.subrange(0, v.len() as int) =~= v@);
    while j > 0 && v[j - 1] == c
        invariant
            j <= v.len(),
            v@ == s@,
            trim_trailing(v@, c) == trim_trailing(v@.subrange(0, j as int), c),
        decreases j,
    {
        proof {
            assert(v@.subrange(0, j as int).drop_last() =~= v@.subrange(0, j - 1));
        }
        j = j - 1;
    }
    String::from_str(s.substring_char(0, j))
}

/// Whether a line of the mount table has `target` as its mount point (its
/// second field, spaces unescaped, trailing slashes dropped).
pub open spec fn lists_mount(line: Seq<char>, target: Seq<char>) -> bool {
    words(line).len() >= 2 && trim_trailing(unescape_spaces(words(line)[1]), '/') == target
}

/// Whether the mount table text lists `mount_point` (compared without
/// trailing slashes) as a mount target.
pub open spec fn mount_listed(table: Seq<char>, mount_point: Seq<char>) -> bool {
    exists|i: int|
        0 <= i < lines_of(table).len() && lists_mount(
            #[trigger] lines_of(table)[i],
            trim_trailing(mount_point, '/'),
        )
}

/// Whether the mount table (the text of `/proc/mounts`) lists
/// `mount_point` as a mount target.
pub fn mount_table_lists(table: &str, mount_point: &str) -> (r: bool)
    ensures
        r == mount_listed(table@, mount_point@),
{
    let target = without_trailing(mount_point, '/');
    let lines = text_lines(table);
    let mut i: usize = 0;
    while i < lines.len()
        invariant
            i <= lines.len(),
            lines.deep_view() == lines_of(table@),
            target@ == trim_trailing(mount_point@, '/'),
            forall|k: int| 0 <= k < i ==> !lists_mount(#[trigger] lines_of(table@)[k], target@),
        decreases lines.len() - i,
    {
        let fields = words_of(lines[i].as_str());
        if fields.len() >= 2 {
            let m = without_trailing(unescaped_spaces(fields[1].as_str()).as_str(), '/');
            if same_text(m.as_str(), target.as_str()) {
                assert(lists_mount(lines_of(table@)[i as int], target@));
                return true;
            }
        }
        assert(!lists_mount(lines_of(table@)[i as int], target@));
        i = i + 1;
    }
    false
}

} // verus!
