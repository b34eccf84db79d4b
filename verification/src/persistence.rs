//! What saving the settings and reading them back gives.

use vstd::prelude::*;
use crate::text::{
    is_ws, trim, trim_start, trim_end, segments, lines_of, strip_cr, lemma_segments_nonempty,
    lemma_trim_start_skip, index_of, lemma_index_of_facts,
    lemma_index_of_found, lemma_index_of_absent,
};
use crate::config::{
    join_lines, entry, line_key, setting_line, SettingView, first_key_index, rewritten_line,
    rewritten_lines, missing_lines, mentions, merged_text, lemma_first_key_index_found, setting,
    acceptable, font_size_values, ConfigView, desired_settings, parsed_config, non_empty_value,
    bool_text, lemma_keys_distinct, MIN_INTERVAL_SECS,
};
use crate::text::{decimal, lemma_decimal_digits, lemma_decimal_reads_back};

verus! {

/// A setting name that a written line can carry unchanged: no whitespace,
/// no `=`, not starting a comment.
pub open spec fn plain_key(k: Seq<char>) -> bool {
    &&& k.len() > 0
    &&& k[0] != '#'
    &&& forall|i: int| 0 <= i < k.len() ==> !is_ws(#[trigger] k[i]) && k[i] != '='
}

pub proof fn lemma_keys_plain()
    ensures
        plain_key("host"@),
        plain_key("port"@),
        plain_key("interval_secs"@),
        plain_key("font_size"@),
        plain_key("share"@),
        plain_key("mount_point"@),
        plain_key("mount_options"@),
        plain_key("use_pkexec"@),
{
    reveal_strlit("host");
    reveal_strlit("port");
    reveal_strlit("interval_secs");
    reveal_strlit("font_size");
    reveal_strlit("share");
    reveal_strlit("mount_point");
    reveal_strlit("mount_options");
    reveal_strlit("use_pkexec");
}


/// `l` holds no line break.
pub open spec fn single_line(l: Seq<char>) -> bool {
    forall|i: int| 0 <= i < l.len() ==> #[trigger] l[i] != '\n'
}

pub proof fn lemma_segments_single_line(t: Seq<char>)
    ensures
        forall|i: int| 0 <= i < segments(t).len() ==> single_line(#[trigger] segments(t)[i]),
    decreases t.len(),
{
    lemma_segments_nonempty(t);
    if t.len() > 0 {
        lemma_segments_single_line(t.drop_last());
        lemma_segments_nonempty(t.drop_last());
        let s = segments(t.drop_last());
        if t.last() != '\n' {
            let n = s.len() - 1;
            assert(single_line(s[n]));
            assert forall|i: int| 0 <= i < segments(t).len() implies single_line(
                #[trigger] segments(t)[i],
            ) by {
                if i == n {
                    assert(segments(t)[i] == s[n].push(t.last()));
                    assert forall|k: int| 0 <= k < segments(t)[i].len() implies #[trigger] segments(
                        t,
                    )[i][k] != '\n' by {
                        if k < s[n].len() {
                            assert(segments(t)[i][k] == s[n][k]);
                        }
                    }
                }
            }
        } else {
            assert forall|i: int| 0 <= i < segments(t).len() implies single_line(
                #[trigger] segments(t)[i],
            ) by {
                if i < s.len() {
                    assert(segments(t)[i] == s[i]);
                }
            }
        }
    }
}

/// No line of a text holds a line break.
pub proof fn lemma_lines_single_line(t: Seq<char>)
    ensures
        forall|i: int| 0 <= i < lines_of(t).len() ==> single_line(#[trigger] lines_of(t)[i]),
{
    lemma_segments_single_line(t);
    lemma_segments_nonempty(t);
    let s = segments(t);
    assert forall|i: int| 0 <= i < lines_of(t).len() implies single_line(#[trigger] lines_of(t)[i]) by {
        if i < s.len() - 1 {
            assert(lines_of(t)[i] == strip_cr(s[i]));
            assert(single_line(s[i]));
            assert forall|k: int| 0 <= k < strip_cr(s[i]).len() implies #[trigger] strip_cr(s[i])[k]
                != '\n' by {
                assert(strip_cr(s[i])[k] == s[i][k]);
            }
        } else {
            assert(lines_of(t)[i] == s[s.len() - 1]);
        }
    }
}

/// Appending text without a line break extends the last piece.
pub proof fn lemma_segments_extend(t: Seq<char>, u: Seq<char>)
    requires
        single_line(u),
    ensures
        segments(t + u) == segments(t).update(
            segments(t).len() - 1,
            segments(t).last() + u,
        ),
    decreases u.len(),
{
    lemma_segments_nonempty(t);
    if u.len() == 0 {
        assert(t + u =~= t);
        assert(segments(t).last() + u =~= segments(t).last());
        assert(segments(t).update(segments(t).len() - 1, segments(t).last()) =~= segments(t));
    } else {
        let u2 = u.drop_last();
        assert forall|i: int| 0 <= i < u2.len() implies #[trigger] u2[i] != '\n' by {
            assert(u2[i] == u[i]);
        }
        lemma_segments_extend(t, u2);
        assert((t + u).drop_last() =~= t + u2);
        assert((t + u).last() == u.last());
        assert(u.last() != '\n');
        let s = segments(t);
        let s2 = segments(t + u2);
        assert(s2.len() == s.len());
        assert(s2.last() == s.last() + u2);
        assert((s.last() + u2).push(u.last()) =~= s.last() + u);
        assert(segments(t + u) =~= s.update(s.len() - 1, s.last() + u));
    }
}

/// The lines of text written as `join_lines(ls)` and a final newline are
/// `ls` (each with a trailing carriage return dropped), or one empty line
/// when there are none.
pub proof fn lemma_lines_of_joined(ls: Seq<Seq<char>>)
    requires
        forall|i: int| 0 <= i < ls.len() ==> single_line(#[trigger] ls[i]),
    ensures
        lines_of(join_lines(ls).push('\n')) == (if ls.len() == 0 {
            seq![Seq::<char>::empty()]
        } else {
            ls.map_values(|l: Seq<char>| strip_cr(l))
        }),
{
    let t = join_lines(ls);
    lemma_segments_nonempty(t);
    assert(t.push('\n').drop_last() =~= t);
    assert(segments(t.push('\n')) == segments(t).push(Seq::<char>::empty()));
    if ls.len() == 0 {
        assert(segments(t) =~= seq![Seq::<char>::empty()]);
        assert(lines_of(t.push('\n')) =~= seq![Seq::<char>::empty()]);
    } else {
        lemma_segments_of_joined(ls);
        assert(segments(t.push('\n')).drop_last() =~= ls);
    }
}

pub proof fn lemma_segments_of_joined(ls: Seq<Seq<char>>)
    requires
        ls.len() > 0,
        forall|i: int| 0 <= i < ls.len() ==> single_line(#[trigger] ls[i]),
    ensures
        segments(join_lines(ls)) == ls,
    decreases ls.len(),
{
    if ls.len() == 1 {
        assert(single_line(ls[0]));
        lemma_segments_extend(Seq::<char>::empty(), ls[0]);
        assert(Seq::<char>::empty() + ls[0] =~= ls[0]);
        assert(segments(Seq::<char>::empty()) == seq![Seq::<char>::empty()]);
        assert(Seq::<char>::empty() + ls[0] =~= ls[0]);
        assert(segments(ls[0]) =~= ls);
    } else {
        let init = ls.drop_last();
        assert forall|i: int| 0 <= i < init.len() implies single_line(#[trigger] init[i]) by {
            assert(init[i] == ls[i]);
        }
        lemma_segments_of_joined(init);
        let a = join_lines(init) + seq!['\n'];
        assert(a.drop_last() =~= join_lines(init));
        assert(segments(a) == segments(join_lines(init)).push(Seq::<char>::empty()));
        assert(single_line(ls.last()));
        lemma_segments_extend(a, ls.last());
        assert(Seq::<char>::empty() + ls.last() =~= ls.last());
        assert(segments(a + ls.last()) =~= ls);
    }
}


/// Where the text that `trim_start` keeps begins.
pub proof fn lemma_trim_start_offset(x: Seq<char>) -> (s: int)
    ensures
        0 <= s <= x.len(),
        trim_start(x) == x.subrange(s, x.len() as int),
        forall|i: int| 0 <= i < s ==> is_ws(#[trigger] x[i]),
        s < x.len() ==> !is_ws(x[s]),
    decreases x.len(),
{
    if x.len() > 0 && is_ws(x[0]) {
        let r = lemma_trim_start_offset(x.drop_first());
        assert(x.drop_first().subrange(r, x.drop_first().len() as int) =~= x.subrange(
            r + 1,
            x.len() as int,
        ));
        assert forall|i: int| 0 <= i < r + 1 implies is_ws(#[trigger] x[i]) by {
            if i > 0 {
                assert(x[i] == x.drop_first()[i - 1]);
            }
        }
        if r + 1 < x.len() {
            assert(x[r + 1] == x.drop_first()[r]);
        }
        r + 1
    } else {
        assert(x.subrange(0, x.len() as int) =~= x);
        0
    }
}

/// Where the text that `trim_end` keeps ends.
pub proof fn lemma_trim_end_offset(y: Seq<char>) -> (e: int)
    ensures
        0 <= e <= y.len(),
        trim_end(y) == y.subrange(0, e),
        forall|i: int| e <= i < y.len() ==> is_ws(#[trigger] y[i]),
        e > 0 ==> !is_ws(y[e - 1]),
    decreases y.len(),
{
    if y.len() > 0 && is_ws(y.last()) {
        let r = lemma_trim_end_offset(y.drop_last());
        assert(y.drop_last().subrange(0, r) =~= y.subrange(0, r));
        assert forall|i: int| r <= i < y.len() implies is_ws(#[trigger] y[i]) by {
            if i < y.len() - 1 {
                assert(y[i] == y.drop_last()[i]);
            }
        }
        if r > 0 {
            assert(y[r - 1] == y.drop_last()[r - 1]);
        }
        r
    } else {
        assert(y.subrange(0, y.len() as int) =~= y);
        y.len() as int
    }
}

/// A nonempty trimmed text starts and ends with other than whitespace.
pub proof fn lemma_trimmed_ends(v: Seq<char>)
    requires
        v.len() > 0,
        trim(v) == v,
    ensures
        !is_ws(v[0]),
        !is_ws(v.last()),
{
    let s = lemma_trim_start_offset(v);
    let t = trim_start(v);
    let e = lemma_trim_end_offset(t);
    assert(trim(v) == t.subrange(0, e));
    assert(v.len() == e);
    assert(s == 0);
    assert(e == t.len());
    assert(v.last() == t[e - 1]);
}

/// The name that `entry` finds on a line is the name that `line_key` finds.
pub proof fn lemma_entry_key(x: Seq<char>)
    ensures
        entry(x) matches Some((k, w)) ==> line_key(x) == Some(k),
{
    if entry(x) is Some {
        let s = lemma_trim_start_offset(x);
        let ts = trim_start(x);
        let e = lemma_trim_end_offset(ts);
        let t = trim(x);
        assert(t =~= x.subrange(s, s + e));
        lemma_index_of_facts(t, '=');
        let m = index_of(t, '=')->0;
        assert forall|i: int| 0 <= i < s + m implies #[trigger] x[i] != '=' by {
            if i < s {
                assert(is_ws(x[i]));
            } else {
                assert(x[i] == t[i - s]);
            }
        }
        assert(x[s + m] == t[m]);
        lemma_index_of_found(x, '=', s + m);
        let a = x.subrange(0, s + m);
        assert forall|i: int| 0 <= i < s implies is_ws(#[trigger] a[i]) by {
            assert(a[i] == x[i]);
        }
        lemma_trim_start_skip(a, s);
        assert(a.subrange(s, a.len() as int) =~= t.subrange(0, m));
    }
}

/// Dropping a trailing carriage return leaves the setting name of a line.
pub proof fn lemma_line_key_strip_cr(o: Seq<char>)
    ensures
        line_key(strip_cr(o)) == line_key(o),
{
    if o.len() > 0 && o.last() == '\r' {
        let p = o.drop_last();
        lemma_index_of_facts(o, '=');
        lemma_index_of_facts(p, '=');
        match index_of(p, '=') {
            Some(i) => {
                assert forall|k: int| 0 <= k < i implies #[trigger] o[k] != '=' by {
                    assert(o[k] == p[k]);
                }
                lemma_index_of_found(o, '=', i);
                assert(o.subrange(0, i) =~= p.subrange(0, i));
            },
            None => {
                assert forall|k: int| 0 <= k < o.len() implies #[trigger] o[k] != '=' by {
                    if k < p.len() {
                        assert(o[k] == p[k]);
                    }
                }
                lemma_index_of_absent(o, '=');
            },
        }
    }
}

/// A written setting line reads back as that setting.
pub proof fn lemma_entry_setting_line(k: Seq<char>, v: Seq<char>)
    requires
        plain_key(k),
        v.len() > 0,
        trim(v) == v,
    ensures
        entry(setting_line(k, v)) == Some((k, v)),
        strip_cr(setting_line(k, v)) == setting_line(k, v),
{
    reveal_strlit(" = ");
    lemma_trimmed_ends(v);
    let l = setting_line(k, v);
    let n = k.len() as int;
    assert(l =~= k + seq![' ', '=', ' '] + v);
    assert(l[0] == k[0]);
    assert(l.last() == v.last());
    // the line is already trimmed
    let s = lemma_trim_start_offset(l);
    assert(s == 0);
    let e = lemma_trim_end_offset(trim_start(l));
    assert(l.subrange(0, l.len() as int) =~= l);
    assert(e == l.len());
    assert(trim(l) =~= l);
    // its first '=' follows the name
    assert forall|i: int| 0 <= i < n + 1 implies #[trigger] l[i] != '=' by {
        if i < n {
            assert(l[i] == k[i]);
        }
    }
    assert(l[n + 1] == '=');
    lemma_index_of_found(l, '=', n + 1);
    let a = l.subrange(0, n + 1);
    let b = l.subrange(n + 2, l.len() as int);
    assert(a =~= k.push(' '));
    assert(b =~= seq![' '] + v);
    // the name half trims to the name
    assert(trim_start(a) == a);
    assert(a.drop_last() =~= k);
    assert(trim_end(a) == trim_end(k));
    assert(k.last() == k[k.len() - 1]);
    assert(trim_end(k) == k);
    // the value half trims to the value
    assert(b.drop_first() =~= v);
    assert(trim_start(b) == trim_start(v));
    assert(trim_start(v) == v);
    assert(trim(v) == trim_end(v));
}


pub proof fn lemma_first_key_index_facts(d: Seq<SettingView>, key: Seq<char>)
    ensures
        first_key_index(d, key) matches Some(j) ==> 0 <= j < d.len() && d[j].0 == key,
    decreases d.len(),
{
    if d.len() > 0 && d[0].0 != key {
        lemma_first_key_index_facts(d.drop_first(), key);
    }
}

/// No two settings share a name.
pub open spec fn distinct_keys(d: Seq<SettingView>) -> bool {
    forall|i: int, j: int| 0 <= i < d.len() && 0 <= j < d.len() && i != j ==> d[i].0 != d[j].0
}

/// A value that a written line carries unchanged: nonempty, trimmed, on
/// one line.
pub open spec fn storable(v: Seq<char>) -> bool {
    v.len() > 0 && trim(v) == v && single_line(v)
}

/// Every setting can be written as a line that reads back as itself.
pub open spec fn well_written(d: Seq<SettingView>) -> bool {
    forall|j: int|
        0 <= j < d.len() ==> plain_key(#[trigger] d[j].0) && (d[j].1 matches Some(v) ==> storable(
            v,
        ))
}

/// Line `o` of the new file is the line of a setting that has a value.
pub open spec fn written(o: Seq<char>, d: Seq<SettingView>) -> bool {
    exists|j: int|
        0 <= j < d.len() && (#[trigger] d[j]).1 is Some && o == setting_line(d[j].0, d[j].1->0)
}

/// Line `o` of the new file is on one line and about no setting of `d`.
pub open spec fn foreign(o: Seq<char>, d: Seq<SettingView>) -> bool {
    &&& single_line(o)
    &&& line_key(o) matches Some(k) ==> first_key_index(d, k) is None
}

pub proof fn lemma_setting_line_single(k: Seq<char>, v: Seq<char>)
    requires
        plain_key(k),
        single_line(v),
    ensures
        single_line(setting_line(k, v)),
{
    reveal_strlit(" = ");
    let l = setting_line(k, v);
    assert(l =~= k + seq![' ', '=', ' '] + v);
    assert forall|i: int| 0 <= i < l.len() implies #[trigger] l[i] != '\n' by {
        if i < k.len() {
            assert(l[i] == k[i]);
            assert(!is_ws(k[i]));
        } else if i >= k.len() + 3 {
            assert(l[i] == v[i - k.len() - 3]);
        }
    }
}

/// Every line of the rewritten old file is a setting's line or a line
/// about no setting.
pub proof fn lemma_rewritten_kinds(lines: Seq<Seq<char>>, d: Seq<SettingView>)
    requires
        forall|i: int| 0 <= i < lines.len() ==> single_line(#[trigger] lines[i]),
    ensures
        forall|x: Seq<char>|
            #[trigger] rewritten_lines(lines, d).contains(x) ==> written(x, d) || foreign(x, d),
    decreases lines.len(),
{
    if lines.len() > 0 {
        let init = lines.drop_last();
        assert forall|i: int| 0 <= i < init.len() implies single_line(#[trigger] init[i]) by {
            assert(init[i] == lines[i]);
        }
        lemma_rewritten_kinds(init, d);
        let line = lines.last();
        assert(single_line(line));
        let r = rewritten_line(line, d);
        assert forall|x: Seq<char>| #[trigger] r.contains(x) implies written(x, d) || foreign(
            x,
            d,
        ) by {
            match line_key(line) {
                Some(k) => {
                    lemma_first_key_index_facts(d, k);
                    match first_key_index(d, k) {
                        Some(j) => {
                            assert(d[j].1 is Some);
                            assert(x == setting_line(d[j].0, d[j].1->0));
                            assert(written(x, d));
                        },
                        None => {
                            assert(x == line);
                        },
                    }
                },
                None => {
                    assert(x == line);
                },
            }
        }
        let a = rewritten_lines(init, d);
        assert forall|x: Seq<char>| #[trigger] rewritten_lines(lines, d).contains(x) implies written(
            x,
            d,
        ) || foreign(x, d) by {
            let i = choose|i: int| 0 <= i < (a + r).len() && (a + r)[i] == x;
            if i < a.len() {
                assert(a.contains(a[i]));
            } else {
                assert(r.contains(r[i - a.len()]));
            }
        }
    }
}

/// Every added line is a setting's line.
pub proof fn lemma_missing_kinds(lines: Seq<Seq<char>>, d: Seq<SettingView>)
    ensures
        forall|x: Seq<char>| #[trigger] missing_lines(lines, d).contains(x) ==> written(x, d),
    decreases d.len(),
{
    if d.len() > 0 {
        let init = d.drop_last();
        lemma_missing_kinds(lines, init);
        let m = missing_lines(lines, d);
        let before = missing_lines(lines, init);
        assert forall|x: Seq<char>| #[trigger] m.contains(x) implies written(x, d) by {
            let i = choose|i: int| 0 <= i < m.len() && m[i] == x;
            if i < before.len() {
                assert(before.contains(before[i]));
                let j = choose|j: int|
                    0 <= j < init.len() && (#[trigger] init[j]).1 is Some && x == setting_line(
                        init[j].0,
                        init[j].1->0,
                    );
                assert(d[j] == init[j]);
            } else {
                let j = d.len() - 1;
                assert(d[j] == d.last());
            }
        }
    }
}

/// Each line that rewriting gives for an old line is in the rewritten file.
pub proof fn lemma_rewritten_contains(lines: Seq<Seq<char>>, d: Seq<SettingView>, i: int)
    requires
        0 <= i < lines.len(),
    ensures
        forall|x: Seq<char>|
            #[trigger] rewritten_line(lines[i], d).contains(x) ==> rewritten_lines(
                lines,
                d,
            ).contains(x),
    decreases lines.len(),
{
    let init = lines.drop_last();
    let a = rewritten_lines(init, d);
    let r = rewritten_line(lines.last(), d);
    if i < lines.len() - 1 {
        lemma_rewritten_contains(init, d, i);
        assert(init[i] == lines[i]);
        assert forall|x: Seq<char>| #[trigger] rewritten_line(lines[i], d).contains(x) implies (a
            + r).contains(x) by {
            assert(a.contains(x));
            let k = choose|k: int| 0 <= k < a.len() && a[k] == x;
            assert((a + r)[k] == x);
        }
    } else {
        assert forall|x: Seq<char>| #[trigger] rewritten_line(lines[i], d).contains(x) implies (a
            + r).contains(x) by {
            let k = choose|k: int| 0 <= k < r.len() && r[k] == x;
            assert((a + r)[a.len() + k] == x);
        }
    }
}

/// A setting with a value that no old line was about is added.
pub proof fn lemma_missing_contains(lines: Seq<Seq<char>>, d: Seq<SettingView>, j: int)
    requires
        0 <= j < d.len(),
        d[j].1 is Some,
        !mentions(lines, d[j].0),
    ensures
        missing_lines(lines, d).contains(setting_line(d[j].0, d[j].1->0)),
    decreases d.len(),
{
    let init = d.drop_last();
    let before = missing_lines(lines, init);
    let x = setting_line(d[j].0, d[j].1->0);
    if j < d.len() - 1 {
        assert(init[j] == d[j]);
        lemma_missing_contains(lines, init, j);
        let k = choose|k: int| 0 <= k < before.len() && before[k] == x;
        let m = missing_lines(lines, d);
        assert(m[k] == x);
    } else {
        let m = missing_lines(lines, d);
        assert(d.last() == d[j]);
        assert(m == before.push(x));
        assert(m[before.len() as int] == x);
    }
}

/// Every setting with a value has its line in the new file.
pub proof fn lemma_setting_written(lines: Seq<Seq<char>>, d: Seq<SettingView>, j: int)
    requires
        0 <= j < d.len(),
        d[j].1 is Some,
        distinct_keys(d),
    ensures
        (rewritten_lines(lines, d) + missing_lines(lines, d)).contains(
            setting_line(d[j].0, d[j].1->0),
        ),
{
    let x = setting_line(d[j].0, d[j].1->0);
    let a = rewritten_lines(lines, d);
    let m = missing_lines(lines, d);
    if mentions(lines, d[j].0) {
        let i = choose|i: int| 0 <= i < lines.len() && line_key(#[trigger] lines[i]) == Some(d[j].0);
        assert forall|k: int| 0 <= k < j implies (#[trigger] d[k]).0 != d[j].0 by {}
        lemma_first_key_index_found(d, d[j].0, j);
        assert(rewritten_line(lines[i], d) == seq![x]);
        lemma_rewritten_contains(lines, d, i);
        assert(rewritten_line(lines[i], d).contains(x)) by {
            assert(rewritten_line(lines[i], d)[0] == x);
        }
        let k = choose|k: int| 0 <= k < a.len() && a[k] == x;
        assert((a + m)[k] == x);
    } else {
        lemma_missing_contains(lines, d, j);
        let k = choose|k: int| 0 <= k < m.len() && m[k] == x;
        assert((a + m)[a.len() + k] == x);
    }
}


/// The value that a line's setting gives `key`, if the line is about `key`.
pub open spec fn value_for(e: Option<(Seq<char>, Seq<char>)>, key: Seq<char>) -> Option<Seq<char>> {
    match e {
        Some((k, w)) => if k == key {
            Some(w)
        } else {
            None
        },
        None => None,
    }
}

/// What the lines of a merged file say: a line about a setting of `d`
/// carries that setting's value, and every setting with a value has a line.
pub proof fn lemma_merged_entries(existing: Seq<char>, d: Seq<SettingView>)
    requires
        well_written(d),
        distinct_keys(d),
    ensures
        ({
            let p = lines_of(merged_text(existing, d));
            &&& forall|i: int, j: int|
                0 <= i < p.len() && 0 <= j < d.len() && (#[trigger] value_for(
                    entry(p[i]),
                    #[trigger] d[j].0,
                )) is Some ==> d[j].1 == value_for(entry(p[i]), d[j].0)
            &&& forall|j: int|
                0 <= j < d.len() && (#[trigger] d[j]).1 is Some ==> exists|i: int|
                    0 <= i < p.len() && #[trigger] entry(p[i]) == Some((d[j].0, d[j].1->0))
        }),
{
    let old_lines = lines_of(existing);
    let o = rewritten_lines(old_lines, d) + missing_lines(old_lines, d);
    lemma_lines_single_line(existing);
    lemma_rewritten_kinds(old_lines, d);
    lemma_missing_kinds(old_lines, d);
    assert forall|x: Seq<char>| #[trigger] o.contains(x) implies written(x, d) || foreign(x, d) by {
        let i = choose|i: int| 0 <= i < o.len() && o[i] == x;
        let a = rewritten_lines(old_lines, d);
        if i < a.len() {
            assert(a.contains(a[i]));
        } else {
            assert(missing_lines(old_lines, d).contains(missing_lines(old_lines, d)[i - a.len()]));
        }
    }
    assert forall|i: int| 0 <= i < o.len() implies single_line(#[trigger] o[i]) by {
        assert(o.contains(o[i]));
        if written(o[i], d) {
            let j = choose|j: int|
                0 <= j < d.len() && (#[trigger] d[j]).1 is Some && o[i] == setting_line(
                    d[j].0,
                    d[j].1->0,
                );
            lemma_setting_line_single(d[j].0, d[j].1->0);
        }
    }
    lemma_lines_of_joined(o);
    let p = lines_of(merged_text(existing, d));
    assert forall|i: int, j: int|
        0 <= i < p.len() && 0 <= j < d.len() && (#[trigger] value_for(
            entry(p[i]),
            #[trigger] d[j].0,
        )) is Some implies d[j].1 == value_for(entry(p[i]), d[j].0) by {
        if o.len() > 0 {
            assert(p[i] == strip_cr(o[i]));
            assert(o.contains(o[i]));
            if written(o[i], d) {
                let j2 = choose|j2: int|
                    0 <= j2 < d.len() && (#[trigger] d[j2]).1 is Some && o[i] == setting_line(
                        d[j2].0,
                        d[j2].1->0,
                    );
                lemma_entry_setting_line(d[j2].0, d[j2].1->0);
                assert(j2 == j);
            } else {
                lemma_entry_key(p[i]);
                lemma_line_key_strip_cr(o[i]);
                let k = d[j].0;
                assert(line_key(o[i]) == Some(k));
                assert forall|m: int| 0 <= m < j implies (#[trigger] d[m]).0 != k by {}
                lemma_first_key_index_found(d, k, j);
            }
        } else {
            assert(p[i] == Seq::<char>::empty());
            assert(trim(p[i]).len() == 0);
        }
    }
    assert forall|j: int| 0 <= j < d.len() && (#[trigger] d[j]).1 is Some implies exists|i: int|
        0 <= i < p.len() && #[trigger] entry(p[i]) == Some((d[j].0, d[j].1->0)) by {
        let v = d[j].1->0;
        lemma_setting_written(old_lines, d, j);
        let i = choose|i: int| 0 <= i < o.len() && o[i] == setting_line(d[j].0, v);
        lemma_entry_setting_line(d[j].0, v);
        assert(p[i] == strip_cr(o[i]));
        assert(entry(p[i]) == Some((d[j].0, v)));
    }
}

/// The setting that lines give for `key` when every line about `key`
/// carries `expected`'s value, and one does when `expected` has one.
pub proof fn lemma_setting_is(p: Seq<Seq<char>>, key: Seq<char>, expected: Option<Seq<char>>)
    requires
        forall|i: int|
            0 <= i < p.len() && (#[trigger] value_for(entry(p[i]), key)) is Some ==> expected
                == value_for(entry(p[i]), key),
        expected is Some ==> acceptable(key, expected->0) && exists|i: int|
            0 <= i < p.len() && #[trigger] entry(p[i]) == Some((key, expected->0)),
    ensures
        setting(p, key) == expected,
    decreases p.len(),
{
    if p.len() > 0 {
        let init = p.drop_last();
        let last = p.len() - 1;
        assert(p.last() == p[last]);
        assert forall|i: int|
            0 <= i < init.len() && (#[trigger] value_for(entry(init[i]), key)) is Some implies expected
                == value_for(entry(init[i]), key) by {
            assert(init[i] == p[i]);
        }
        let here = value_for(entry(p[last]), key);
        if here is Some && acceptable(key, here->0) {
            assert(expected == here);
        } else {
            if expected is Some {
                let i = choose|i: int|
                    0 <= i < p.len() && #[trigger] entry(p[i]) == Some((key, expected->0));
                assert(value_for(entry(p[i]), key) == expected);
                assert(i != last);
                assert(init[i] == p[i]);
            }
            lemma_setting_is(init, key, expected);
        }
    } else {
        if expected is Some {
            let i = choose|i: int|
                0 <= i < p.len() && #[trigger] entry(p[i]) == Some((key, expected->0));
        }
    }
}

/// The `font_size` values of lines that, when about it, all carry `f`.
pub proof fn lemma_font_values_are(p: Seq<Seq<char>>, f: Option<Seq<char>>)
    requires
        forall|i: int|
            0 <= i < p.len() && (#[trigger] value_for(entry(p[i]), "font_size"@)) is Some ==> f
                == value_for(entry(p[i]), "font_size"@),
        f is Some ==> exists|i: int|
            0 <= i < p.len() && #[trigger] entry(p[i]) == Some(("font_size"@, f->0)),
    ensures
        f is Some ==> font_size_values(p).len() > 0 && forall|i: int|
            0 <= i < font_size_values(p).len() ==> font_size_values(p)[i] == f->0,
        f is None ==> font_size_values(p).len() == 0,
    decreases p.len(),
{
    if p.len() > 0 {
        let init = p.drop_last();
        let last = p.len() - 1;
        assert(p.last() == p[last]);
        assert forall|i: int|
            0 <= i < init.len() && (#[trigger] value_for(entry(init[i]), "font_size"@)) is Some implies f
                == value_for(entry(init[i]), "font_size"@) by {
            assert(init[i] == p[i]);
        }
        let here = value_for(entry(p[last]), "font_size"@);
        let prev = font_size_values(init);
        if here is Some {
            lemma_font_values_all(init, f->0);
            assert(here == f);
            assert(font_size_values(p) == prev.push(f->0));
            assert forall|i: int| 0 <= i < font_size_values(p).len() implies font_size_values(p)[i]
                == f->0 by {
                if i < prev.len() {
                    assert(font_size_values(p)[i] == prev[i]);
                }
            }
        } else {
            assert(font_size_values(p) == prev);
            if f is Some {
                let i = choose|i: int|
                    0 <= i < p.len() && #[trigger] entry(p[i]) == Some(("font_size"@, f->0));
                assert(value_for(entry(p[i]), "font_size"@) == f);
                assert(i != last);
                assert(init[i] == p[i]);
            }
            lemma_font_values_are(init, f);
        }
    } else {
        if f is Some {
            let i = choose|i: int|
                0 <= i < p.len() && #[trigger] entry(p[i]) == Some(("font_size"@, f->0));
        }
    }
}

pub proof fn lemma_font_values_all(p: Seq<Seq<char>>, v: Seq<char>)
    requires
        forall|i: int|
            0 <= i < p.len() && (#[trigger] value_for(entry(p[i]), "font_size"@)) is Some ==> Some(
                v,
            ) == value_for(entry(p[i]), "font_size"@),
    ensures
        forall|i: int| 0 <= i < font_size_values(p).len() ==> font_size_values(p)[i] == v,
    decreases p.len(),
{
    if p.len() > 0 {
        let init = p.drop_last();
        assert forall|i: int|
            0 <= i < init.len() && (#[trigger] value_for(entry(init[i]), "font_size"@)) is Some implies Some(
                v,
            ) == value_for(entry(init[i]), "font_size"@) by {
            assert(init[i] == p[i]);
        }
        lemma_font_values_all(init, v);
        let last = p.len() - 1;
        assert(p.last() == p[last]);
        let here = value_for(entry(p[last]), "font_size"@);
        let prev = font_size_values(init);
        if here is Some {
            assert(here == Some(v));
            assert(font_size_values(p) == prev.push(v));
            assert forall|i: int| 0 <= i < font_size_values(p).len() implies font_size_values(p)[i]
                == v by {
                if i < prev.len() {
                    assert(font_size_values(p)[i] == prev[i]);
                }
            }
        } else {
            assert(font_size_values(p) == prev);
        }
    }
}


/// Text with no whitespace at either end is its own trim.
pub proof fn lemma_trim_unpadded(v: Seq<char>)
    requires
        v.len() > 0,
        !is_ws(v[0]),
        !is_ws(v.last()),
    ensures
        trim(v) == v,
{
    assert(trim_start(v) == v);
    assert(trim_end(v) == v);
}

/// A written number is a storable value.
pub proof fn lemma_decimal_storable(n: nat)
    ensures
        storable(decimal(n)),
{
    lemma_decimal_digits(n);
    let t = decimal(n);
    assert forall|i: int| 0 <= i < t.len() implies !is_ws(#[trigger] t[i]) && t[i] != '\n' by {
        assert('0' <= t[i] && t[i] <= '9');
    }
    assert(t.last() == t[t.len() - 1]);
    lemma_trim_unpadded(t);
}

/// `"true"` and `"false"` are storable values.
pub proof fn lemma_bool_text_storable(b: bool)
    ensures
        storable(bool_text(b)),
{
    reveal_strlit("true");
    reveal_strlit("false");
    let t = bool_text(b);
    assert(t.last() == t[t.len() - 1]);
    lemma_trim_unpadded(t);
}

/// The settings that can be saved and read back unchanged: text values
/// trimmed and on one line (set ones nonempty), and an interval that
/// reading accepts as it is.
pub open spec fn storable_config(c: ConfigView) -> bool {
    &&& trim(c.host) == c.host
    &&& single_line(c.host)
    &&& c.interval_secs >= MIN_INTERVAL_SECS
    &&& c.share is Some ==> storable(c.share->0)
    &&& c.mount_point is Some ==> storable(c.mount_point->0)
    &&& c.mount_options is Some ==> storable(c.mount_options->0)
}

pub proof fn lemma_desired_settings_sound(c: ConfigView, font_size: Option<Seq<char>>)
    requires
        storable_config(c),
        font_size is Some ==> storable(font_size->0),
    ensures
        well_written(desired_settings(c, font_size)),
        distinct_keys(desired_settings(c, font_size)),
{
    let d = desired_settings(c, font_size);
    lemma_keys_plain();
    lemma_keys_distinct();
    lemma_decimal_storable(c.port as nat);
    lemma_decimal_storable(c.interval_secs as nat);
    lemma_bool_text_storable(c.use_pkexec);
    assert(d[0].0 == "host"@);
    assert(d[1].0 == "port"@);
    assert(d[2].0 == "interval_secs"@);
    assert(d[3].0 == "font_size"@);
    assert(d[4].0 == "share"@);
    assert(d[5].0 == "mount_point"@);
    assert(d[6].0 == "mount_options"@);
    assert(d[7].0 == "use_pkexec"@);
    assert(d[0].1 == non_empty_value(trim(c.host)));
    assert forall|j: int| 0 <= j < d.len() implies plain_key(#[trigger] d[j].0) && (d[j].1 matches Some(v) ==> storable(v)) by {
    }
    assert forall|i: int, j: int| 0 <= i < d.len() && 0 <= j < d.len() && i != j implies d[i].0 != d[j].0 by {
    }
}


/// Reading back a merged file gives each setting of `d` its value, when the
/// setting's name takes that value.
pub proof fn lemma_setting_read_back(existing: Seq<char>, d: Seq<SettingView>, j: int)
    requires
        well_written(d),
        distinct_keys(d),
        0 <= j < d.len(),
        d[j].1 is Some ==> acceptable(d[j].0, d[j].1->0),
    ensures
        setting(lines_of(merged_text(existing, d)), d[j].0) == d[j].1,
{
    lemma_merged_entries(existing, d);
    let p = lines_of(merged_text(existing, d));
    let key = d[j].0;
    assert forall|i: int|
        0 <= i < p.len() && (#[trigger] value_for(entry(p[i]), key)) is Some implies d[j].1
            == value_for(entry(p[i]), key) by {
        assert(value_for(entry(p[i]), d[j].0) is Some);
    }
    if d[j].1 is Some {
        assert(d[j].1 is Some);
    }
    lemma_setting_is(p, key, d[j].1);
}

/// Saving settings over any old file and reading the file back gives the
/// same settings, and the font size that was saved: every `font_size` line
/// of the new file carries it, and there is one exactly when a size was
/// saved.
pub proof fn lemma_saved_settings_read_back(
    existing: Seq<char>,
    c: ConfigView,
    font_size: Option<Seq<char>>,
)
    requires
        storable_config(c),
        font_size is Some ==> storable(font_size->0),
    ensures
        parsed_config(merged_text(existing, desired_settings(c, font_size))) == c,
        font_size is Some ==> ({
            let sizes = font_size_values(lines_of(merged_text(existing, desired_settings(c, font_size))));
            sizes.len() > 0 && forall|i: int| 0 <= i < sizes.len() ==> sizes[i] == font_size->0
        }),
        font_size is None ==> font_size_values(
            lines_of(merged_text(existing, desired_settings(c, font_size))),
        ).len() == 0,
{
    let d = desired_settings(c, font_size);
    lemma_desired_settings_sound(c, font_size);
    lemma_keys_distinct();
    reveal_strlit("true");
    reveal_strlit("false");
    lemma_decimal_reads_back(c.port as nat);
    lemma_decimal_reads_back(c.interval_secs as nat);
    let p = lines_of(merged_text(existing, d));
    lemma_setting_read_back(existing, d, 0);
    lemma_setting_read_back(existing, d, 1);
    lemma_setting_read_back(existing, d, 2);
    lemma_setting_read_back(existing, d, 4);
    lemma_setting_read_back(existing, d, 5);
    lemma_setting_read_back(existing, d, 6);
    lemma_setting_read_back(existing, d, 7);
    let r = parsed_config(merged_text(existing, d));
    if c.host.len() == 0 {
        assert(trim(c.host) == c.host);
        assert(c.host =~= Seq::<char>::empty());
    }
    assert(r.host == c.host);
    assert(r.port == c.port);
    assert(r.interval_secs == c.interval_secs);
    assert(r.share == c.share);
    assert(r.mount_point == c.mount_point);
    assert(r.mount_options == c.mount_options);
    assert(r.use_pkexec == c.use_pkexec);
    // the font size
    lemma_merged_entries(existing, d);
    let key = d[3].0;
    assert(key == "font_size"@);
    assert forall|i: int|
        0 <= i < p.len() && (#[trigger] value_for(entry(p[i]), "font_size"@)) is Some implies font_size
            == value_for(entry(p[i]), "font_size"@) by {
        assert(value_for(entry(p[i]), d[3].0) is Some);
    }
    if font_size is Some {
        assert(d[3].1 is Some);
    }
    lemma_font_values_are(p, font_size);
}


/// Trimming twice trims no more than once.
pub proof fn lemma_trim_idempotent(x: Seq<char>)
    ensures
        trim(trim(x)) == trim(x),
{
    let s = lemma_trim_start_offset(x);
    let y = trim_start(x);
    let e = lemma_trim_end_offset(y);
    let t = trim(x);
    if t.len() > 0 {
        assert(t[0] == y[0]);
        assert(y[0] == x[s]);
        assert(t.last() == y[e - 1]);
        lemma_trim_unpadded(t);
    } else {
        assert(trim_start(t) == t);
        assert(trim_end(t) == t);
    }
}

/// A trimmed line stays on one line.
pub proof fn lemma_trim_single_line(x: Seq<char>)
    requires
        single_line(x),
    ensures
        single_line(trim(x)),
{
    let s = lemma_trim_start_offset(x);
    let y = trim_start(x);
    let e = lemma_trim_end_offset(y);
    assert forall|i: int| 0 <= i < trim(x).len() implies #[trigger] trim(x)[i] != '\n' by {
        assert(trim(x)[i] == x[s + i]);
    }
}

/// Both halves of a line's setting are trimmed and on one line.
pub proof fn lemma_entry_storable(line: Seq<char>)
    requires
        single_line(line),
    ensures
        entry(line) matches Some((k, w)) ==> trim(w) == w && single_line(w),
{
    if entry(line) is Some {
        let t = trim(line);
        lemma_trim_single_line(line);
        lemma_index_of_facts(t, '=');
        let m = index_of(t, '=')->0;
        let b = t.subrange(m + 1, t.len() as int);
        assert forall|i: int| 0 <= i < b.len() implies #[trigger] b[i] != '\n' by {
            assert(b[i] == t[m + 1 + i]);
        }
        lemma_trim_idempotent(b);
        lemma_trim_single_line(b);
    }
}

/// Every value that a line-by-line setting takes is trimmed and on one line.
pub proof fn lemma_setting_storable(lines: Seq<Seq<char>>, key: Seq<char>)
    requires
        forall|i: int| 0 <= i < lines.len() ==> single_line(#[trigger] lines[i]),
    ensures
        setting(lines, key) matches Some(w) ==> trim(w) == w && single_line(w),
    decreases lines.len(),
{
    if lines.len() > 0 {
        let init = lines.drop_last();
        assert forall|i: int| 0 <= i < init.len() implies single_line(#[trigger] init[i]) by {
            assert(init[i] == lines[i]);
        }
        assert(lines.last() == lines[lines.len() - 1]);
        lemma_entry_storable(lines.last());
        lemma_setting_storable(init, key);
    }
}

/// The settings read from any text can be saved and read back unchanged.
pub proof fn lemma_parsed_config_storable(text: Seq<char>)
    ensures
        storable_config(parsed_config(text)),
{
    let lines = lines_of(text);
    lemma_lines_single_line(text);
    lemma_setting_storable(lines, "host"@);
    lemma_setting_storable(lines, "share"@);
    lemma_setting_storable(lines, "mount_point"@);
    lemma_setting_storable(lines, "mount_options"@);
    let c = parsed_config(text);
    if setting(lines, "host"@) is None {
        assert(trim(Seq::<char>::empty()) == Seq::<char>::empty());
    }
}

/// Settings read from a file, saved over any file and read back, are the
/// settings that were read.
pub proof fn lemma_reload_is_stable(text: Seq<char>, existing: Seq<char>, font_size: Option<Seq<char>>)
    requires
        font_size is Some ==> storable(font_size->0),
    ensures
        parsed_config(merged_text(existing, desired_settings(parsed_config(text), font_size)))
            == parsed_config(text),
{
    lemma_parsed_config_storable(text);
    lemma_saved_settings_read_back(existing, parsed_config(text), font_size);
}


} // verus!
