//! What reading a configuration file makes of a line added at its end: a
//! line that sets nothing changes nothing, and a valid setting overrides
//! what came before.

use vstd::prelude::*;
use crate::text::{
    is_ws, trim, trim_start, trim_end, segments, lines_of, strip_cr, lemma_segments_nonempty,
    lemma_index_of_found, decimal, lemma_decimal_reads_back, parsed_u16,
};
use crate::config::{
    entry, setting, acceptable, font_size_values, parsed_config, ConfigView,
    lemma_keys_distinct,
};
use crate::persistence::{
    single_line, value_for, lemma_segments_extend, lemma_trim_start_offset,
    lemma_trim_unpadded, lemma_trimmed_ends, lemma_keys_plain, lemma_decimal_storable,
};

verus! {

/// Appending whitespace does not change what trimming gives.
pub proof fn lemma_trim_push_ws(x: Seq<char>, c: char)
    requires
        is_ws(c),
    ensures
        trim(x.push(c)) == trim(x),
{
    let y = x.push(c);
    let s = lemma_trim_start_offset(x);
    let s2 = lemma_trim_start_offset(y);
    if s < x.len() {
        if s2 > s {
            assert(is_ws(y[s]));
            assert(y[s] == x[s]);
        }
        if s2 < s {
            assert(y[s2] == x[s2]);
        }
        assert(s2 == s);
        let t = x.subrange(s, x.len() as int);
        assert(trim_start(y) =~= t.push(c));
        assert(trim_start(y).drop_last() =~= t);
    } else {
        if s2 < y.len() {
            if s2 < x.len() {
                assert(y[s2] == x[s2]);
            }
        }
        assert(trim_start(y) =~= Seq::<char>::empty());
        assert(trim_start(x) =~= Seq::<char>::empty());
    }
}

/// Dropping a carriage return at the end of a line does not change what
/// the line sets.
pub proof fn lemma_entry_strip_cr(x: Seq<char>)
    ensures
        entry(strip_cr(x)) == entry(x),
{
    if x.len() > 0 && x.last() == '\r' {
        let p = x.drop_last();
        assert(p.push('\r') =~= x);
        lemma_trim_push_ws(p, '\r');
    }
}

/// Two lines that set the same thing give the same setting as a last line.
pub proof fn lemma_setting_last_same_entry(p: Seq<Seq<char>>, y: Seq<char>, z: Seq<char>, key: Seq<char>)
    requires
        entry(y) == entry(z),
    ensures
        setting(p.push(y), key) == setting(p.push(z), key),
        font_size_values(p.push(y)) == font_size_values(p.push(z)),
{
    assert(p.push(y).drop_last() =~= p);
    assert(p.push(z).drop_last() =~= p);
}

/// A last line that is not about `key` leaves its setting as it was.
pub proof fn lemma_setting_last_irrelevant(p: Seq<Seq<char>>, y: Seq<char>, key: Seq<char>)
    requires
        value_for(entry(y), key) is None,
    ensures
        setting(p.push(y), key) == setting(p, key),
{
    assert(p.push(y).drop_last() =~= p);
}

/// A last line that is not about the font size leaves the sizes as they
/// were.
pub proof fn lemma_font_values_last_irrelevant(p: Seq<Seq<char>>, y: Seq<char>)
    requires
        value_for(entry(y), "font_size"@) is None,
    ensures
        font_size_values(p.push(y)) == font_size_values(p),
{
    assert(p.push(y).drop_last() =~= p);
}

/// The pieces of a text with a line break and a one-line text appended.
pub proof fn lemma_segments_line_appended(c: Seq<char>, l: Seq<char>)
    requires
        single_line(l),
    ensures
        segments(c + seq!['\n'] + l) == segments(c).push(l),
{
    let a = c + seq!['\n'];
    assert(a.drop_last() =~= c);
    lemma_segments_nonempty(c);
    assert(segments(a) == segments(c).push(Seq::<char>::empty()));
    lemma_segments_extend(a, l);
    assert(Seq::<char>::empty() + l =~= l);
    assert(segments(a + l) =~= segments(c).push(l));
}

/// The lines of `c` with a line break and `l` appended: those of `c`,
/// except that the last is read with a carriage return dropped (or an empty
/// line stands in for it when `c` ends with a line break), then `l` unless
/// it is empty.
pub open spec fn appended_lines(c: Seq<char>, l: Seq<char>) -> Seq<Seq<char>> {
    let s = segments(c);
    let body = s.drop_last().map_values(|x: Seq<char>| strip_cr(x)).push(strip_cr(s.last()));
    if l.len() == 0 {
        body
    } else {
        body.push(l)
    }
}

pub proof fn lemma_lines_appended(c: Seq<char>, l: Seq<char>)
    requires
        single_line(l),
    ensures
        lines_of(c + seq!['\n'] + l) == appended_lines(c, l),
{
    lemma_segments_line_appended(c, l);
    lemma_segments_nonempty(c);
    let s = segments(c);
    assert(s.push(l).drop_last() =~= s);
    assert(s.map_values(|x: Seq<char>| strip_cr(x)) =~= s.drop_last().map_values(
        |x: Seq<char>| strip_cr(x),
    ).push(strip_cr(s.last())));
}

/// Before the appended line, the lines of the longer text give every
/// setting (and the font sizes) that the lines of `c` give.
pub proof fn lemma_appended_prefix_same(c: Seq<char>, key: Seq<char>)
    ensures
        ({
            let s = segments(c);
            let p = s.drop_last().map_values(|x: Seq<char>| strip_cr(x)).push(strip_cr(s.last()));
            &&& setting(p, key) == setting(lines_of(c), key)
            &&& font_size_values(p) == font_size_values(lines_of(c))
        }),
{
    lemma_segments_nonempty(c);
    let s = segments(c);
    let b = s.drop_last().map_values(|x: Seq<char>| strip_cr(x));
    lemma_entry_strip_cr(s.last());
    if s.last().len() == 0 {
        assert(strip_cr(s.last()) == s.last());
        assert(trim(s.last()) =~= Seq::<char>::empty());
        assert(entry(s.last()) is None);
        lemma_setting_last_irrelevant(b, s.last(), key);
        lemma_font_values_last_irrelevant(b, s.last());
    } else {
        lemma_setting_last_same_entry(b, strip_cr(s.last()), s.last(), key);
    }
}

/// The names of the settings that the file can hold.
pub open spec fn known_key(k: Seq<char>) -> bool {
    ||| k == "host"@
    ||| k == "port"@
    ||| k == "interval_secs"@
    ||| k == "font_size"@
    ||| k == "share"@
    ||| k == "mount_point"@
    ||| k == "mount_options"@
    ||| k == "use_pkexec"@
}

/// A line that sets nothing: blank, a `#` comment, without `=`, or about a
/// name that is not a setting.
pub open spec fn ignored_line(l: Seq<char>) -> bool {
    match entry(l) {
        Some((k, _)) => !known_key(k),
        None => true,
    }
}

/// Appending a one-line text after a line break leaves the setting of
/// every name that the text is not about.
pub proof fn lemma_appended_line_irrelevant(c: Seq<char>, l: Seq<char>, key: Seq<char>)
    requires
        single_line(l),
        value_for(entry(l), key) is None,
    ensures
        setting(lines_of(c + seq!['\n'] + l), key) == setting(lines_of(c), key),
{
    lemma_lines_appended(c, l);
    lemma_appended_prefix_same(c, key);
    let s = segments(c);
    let p = s.drop_last().map_values(|x: Seq<char>| strip_cr(x)).push(strip_cr(s.last()));
    if l.len() > 0 {
        lemma_setting_last_irrelevant(p, l, key);
    }
}

/// Reading a file with a line that sets nothing added at its end gives the
/// same settings and font sizes as reading the file without it.
pub proof fn lemma_ignored_line_changes_nothing(c: Seq<char>, l: Seq<char>)
    requires
        single_line(l),
        ignored_line(l),
    ensures
        parsed_config(c + seq!['\n'] + l) == parsed_config(c),
        font_size_values(lines_of(c + seq!['\n'] + l)) == font_size_values(lines_of(c)),
{
    lemma_appended_line_irrelevant(c, l, "host"@);
    lemma_appended_line_irrelevant(c, l, "port"@);
    lemma_appended_line_irrelevant(c, l, "interval_secs"@);
    lemma_appended_line_irrelevant(c, l, "share"@);
    lemma_appended_line_irrelevant(c, l, "mount_point"@);
    lemma_appended_line_irrelevant(c, l, "mount_options"@);
    lemma_appended_line_irrelevant(c, l, "use_pkexec"@);
    lemma_lines_appended(c, l);
    lemma_appended_prefix_same(c, "font_size"@);
    let s = segments(c);
    let p = s.drop_last().map_values(|x: Seq<char>| strip_cr(x)).push(strip_cr(s.last()));
    if l.len() > 0 {
        lemma_font_values_last_irrelevant(p, l);
    }
    assert(parsed_config(c + seq!['\n'] + l) =~= parsed_config(c));
}

/// A valid setting added at the end of a file is the one in force, and
/// every other setting stays as it was.
pub proof fn lemma_later_line_overrides(c: Seq<char>, l: Seq<char>, key: Seq<char>, v: Seq<char>)
    requires
        single_line(l),
        entry(l) == Some((key, v)),
        acceptable(key, v),
    ensures
        setting(lines_of(c + seq!['\n'] + l), key) == Some(v),
        forall|other: Seq<char>|
            other != key ==> #[trigger] setting(lines_of(c + seq!['\n'] + l), other) == setting(
                lines_of(c),
                other,
            ),
{
    lemma_lines_appended(c, l);
    let s = segments(c);
    let p = s.drop_last().map_values(|x: Seq<char>| strip_cr(x)).push(strip_cr(s.last()));
    assert(trim(l).len() > 0);
    assert(l.len() > 0) by {
        if l.len() == 0 {
            assert(trim_start(l) == l);
            assert(trim_end(l) == l);
        }
    }
    let n = lines_of(c + seq!['\n'] + l);
    assert(n == p.push(l));
    assert(n.drop_last() =~= p);
    assert forall|other: Seq<char>| other != key implies #[trigger] setting(n, other) == setting(
        lines_of(c),
        other,
    ) by {
        lemma_appended_line_irrelevant(c, l, other);
    }
}

/// The line `port=<n>` sets the port to `n`.
pub proof fn lemma_port_line_entry(n: u16)
    ensures
        entry("port="@ + decimal(n as nat)) == Some(("port"@, decimal(n as nat))),
{
    reveal_strlit("port=");
    reveal_strlit("port");
    lemma_keys_plain();
    lemma_decimal_storable(n as nat);
    let v = decimal(n as nat);
    lemma_trimmed_ends(v);
    let k = "port"@;
    let l = "port="@ + v;
    assert(l =~= k + seq!['='] + v);
    assert(l[0] == 'p');
    assert(l.last() == v.last());
    lemma_trim_unpadded(l);
    assert forall|i: int| 0 <= i < 4 implies #[trigger] l[i] != '=' by {
        assert(l[i] == k[i]);
    }
    assert(l[4] == '=');
    lemma_index_of_found(l, '=', 4);
    assert(l.subrange(0, 4) =~= k);
    assert(l.subrange(5, l.len() as int) =~= v);
    assert(k.last() == k[3]);
    lemma_trim_unpadded(k);
}

/// Adding `port=<n>` at the end of a file sets the port to `n` and leaves
/// every other setting, and the font sizes, as they were.
pub proof fn lemma_port_line_overrides(c: Seq<char>, n: u16)
    ensures
        parsed_config(c + seq!['\n'] + "port="@ + decimal(n as nat)) == (ConfigView {
            port: n,
            ..parsed_config(c)
        }),
        font_size_values(lines_of(c + seq!['\n'] + "port="@ + decimal(n as nat)))
            == font_size_values(lines_of(c)),
{
    let v = decimal(n as nat);
    let l = "port="@ + v;
    lemma_port_line_entry(n);
    lemma_decimal_storable(n as nat);
    lemma_decimal_reads_back(n as nat);
    assert(single_line(l)) by {
        reveal_strlit("port=");
        assert forall|i: int| 0 <= i < l.len() implies #[trigger] l[i] != '\n' by {
            if i >= 5 {
                assert(l[i] == v[i - 5]);
            }
        }
    }
    assert(c + seq!['\n'] + "port="@ + v =~= c + seq!['\n'] + l);
    lemma_keys_distinct();
    assert(acceptable("port"@, v));
    lemma_later_line_overrides(c, l, "port"@, v);
    let t = c + seq!['\n'] + l;
    assert(setting(lines_of(t), "host"@) == setting(lines_of(c), "host"@));
    assert(setting(lines_of(t), "interval_secs"@) == setting(lines_of(c), "interval_secs"@));
    assert(setting(lines_of(t), "share"@) == setting(lines_of(c), "share"@));
    assert(setting(lines_of(t), "mount_point"@) == setting(lines_of(c), "mount_point"@));
    assert(setting(lines_of(t), "mount_options"@) == setting(lines_of(c), "mount_options"@));
    assert(setting(lines_of(t), "use_pkexec"@) == setting(lines_of(c), "use_pkexec"@));
    assert(parsed_u16(v) == Some(n));
    assert(parsed_config(t) =~= ConfigView { port: n, ..parsed_config(c) });
    lemma_lines_appended(c, l);
    lemma_appended_prefix_same(c, "font_size"@);
    let s = segments(c);
    let p = s.drop_last().map_values(|x: Seq<char>| strip_cr(x)).push(strip_cr(s.last()));
    lemma_font_values_last_irrelevant(p, l);
}

} // verus!
