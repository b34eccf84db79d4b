//! Saving over a file that was itself saved: the lines about no setting
//! come through unchanged and in order, and saving twice writes the same
//! text.

use vstd::prelude::*;
use crate::text::{lines_of, strip_cr, trim, trim_start, trim_end, lemma_index_of_found};
use crate::config::{
    SettingView, line_key, setting_line, first_key_index, rewritten_line, rewritten_lines,
    missing_lines, mentions, merged_text, desired_settings, ConfigView,
    non_empty_value, lemma_keys_distinct,
};
use crate::persistence::{
    single_line, plain_key, distinct_keys, written, lemma_lines_single_line,
    lemma_rewritten_kinds, lemma_missing_kinds, lemma_setting_written, lemma_lines_of_joined,
    lemma_setting_line_single, lemma_line_key_strip_cr, lemma_first_key_index_facts,
    lemma_trim_unpadded, lemma_keys_plain, lemma_decimal_storable,
    lemma_bool_text_storable, lemma_trim_single_line,
};

verus! {

/// Every setting can be written as one line: names that are plain keys,
/// values without line breaks.
pub open spec fn writable(d: Seq<SettingView>) -> bool {
    forall|j: int|
        0 <= j < d.len() ==> plain_key(#[trigger] d[j].0) && (d[j].1 is Some ==> single_line(
            d[j].1->0,
        ))
}

/// Whether a line is about none of the settings of `d`.
pub open spec fn unrelated_to(line: Seq<char>, d: Seq<SettingView>) -> bool {
    match line_key(line) {
        Some(k) => first_key_index(d, k) is None,
        None => true,
    }
}

/// The lines of `ls` that are about none of the settings of `d`, in order.
pub open spec fn unrelated_lines(ls: Seq<Seq<char>>, d: Seq<SettingView>) -> Seq<Seq<char>>
    decreases ls.len(),
{
    if ls.len() == 0 {
        Seq::empty()
    } else {
        let before = unrelated_lines(ls.drop_last(), d);
        if unrelated_to(ls.last(), d) {
            before.push(ls.last())
        } else {
            before
        }
    }
}

pub proof fn lemma_unrelated_concat(a: Seq<Seq<char>>, b: Seq<Seq<char>>, d: Seq<SettingView>)
    ensures
        unrelated_lines(a + b, d) == unrelated_lines(a, d) + unrelated_lines(b, d),
    decreases b.len(),
{
    if b.len() == 0 {
        assert(a + b =~= a);
        assert(unrelated_lines(a, d) + unrelated_lines(b, d) =~= unrelated_lines(a, d));
    } else {
        lemma_unrelated_concat(a, b.drop_last(), d);
        assert((a + b).drop_last() =~= a + b.drop_last());
        assert((a + b).last() == b.last());
        assert((unrelated_lines(a, d) + unrelated_lines(b.drop_last(), d)).push(b.last())
            =~= unrelated_lines(a, d) + unrelated_lines(b.drop_last(), d).push(b.last()));
    }
}

pub proof fn lemma_unrelated_single(x: Seq<char>, d: Seq<SettingView>)
    ensures
        unrelated_lines(seq![x], d) == (if unrelated_to(x, d) {
            seq![x]
        } else {
            Seq::<Seq<char>>::empty()
        }),
{
    let e = Seq::<Seq<char>>::empty();
    assert(seq![x].drop_last() =~= e);
    assert(seq![x].last() == x);
    assert(unrelated_lines(e, d) == e);
    assert(e.push(x) =~= seq![x]);
    assert(unrelated_lines(seq![x], d) == if unrelated_to(x, d) {
        unrelated_lines(e, d).push(x)
    } else {
        unrelated_lines(e, d)
    });
}

pub proof fn lemma_unrelated_strip_cr(ls: Seq<Seq<char>>, d: Seq<SettingView>)
    ensures
        unrelated_lines(ls.map_values(|l: Seq<char>| strip_cr(l)), d) == unrelated_lines(
            ls,
            d,
        ).map_values(|l: Seq<char>| strip_cr(l)),
    decreases ls.len(),
{
    if ls.len() > 0 {
        let init = ls.drop_last();
        lemma_unrelated_strip_cr(init, d);
        let m = ls.map_values(|l: Seq<char>| strip_cr(l));
        assert(m.drop_last() =~= init.map_values(|l: Seq<char>| strip_cr(l)));
        assert(m.last() == strip_cr(ls.last()));
        lemma_line_key_strip_cr(ls.last());
        assert(unrelated_to(m.last(), d) == unrelated_to(ls.last(), d));
        let u = unrelated_lines(init, d);
        assert(u.push(ls.last()).map_values(|l: Seq<char>| strip_cr(l)) =~= u.map_values(
            |l: Seq<char>| strip_cr(l),
        ).push(strip_cr(ls.last())));
    }
}

/// The name a written setting line is about is its setting's name.
pub proof fn lemma_line_key_setting_line(k: Seq<char>, v: Seq<char>)
    requires
        plain_key(k),
    ensures
        line_key(setting_line(k, v)) == Some(k),
        line_key(strip_cr(setting_line(k, v))) == Some(k),
{
    reveal_strlit(" = ");
    let l = setting_line(k, v);
    let n = k.len() as int;
    assert(l =~= k + seq![' ', '=', ' '] + v);
    assert forall|i: int| 0 <= i < n + 1 implies #[trigger] l[i] != '=' by {
        if i < n {
            assert(l[i] == k[i]);
        }
    }
    assert(l[n + 1] == '=');
    lemma_index_of_found(l, '=', n + 1);
    let a = l.subrange(0, n + 1);
    assert(a =~= k.push(' '));
    assert(k[0] == a[0]);
    assert(trim_start(a) == a);
    assert(a.drop_last() =~= k);
    assert(trim_end(a) == trim_end(k));
    assert(k.last() == k[n - 1]);
    lemma_trim_unpadded(k);
    assert(trim_start(k) == k);
    assert(trim_end(k) == k);
    lemma_line_key_strip_cr(l);
}

/// No added or rewritten setting line is about none of the settings.
pub proof fn lemma_written_not_unrelated(x: Seq<char>, d: Seq<SettingView>)
    requires
        writable(d),
        written(x, d),
    ensures
        !unrelated_to(x, d),
        !unrelated_to(strip_cr(x), d),
        single_line(x),
{
    let j = choose|j: int|
        0 <= j < d.len() && (#[trigger] d[j]).1 is Some && x == setting_line(d[j].0, d[j].1->0);
    lemma_line_key_setting_line(d[j].0, d[j].1->0);
    lemma_setting_line_single(d[j].0, d[j].1->0);
    if first_key_index(d, d[j].0) is None {
        lemma_first_key_index_present(d, d[j].0, j);
    }
}

/// A name that some setting has is found among the settings.
pub proof fn lemma_first_key_index_present(d: Seq<SettingView>, key: Seq<char>, j: int)
    requires
        0 <= j < d.len(),
        d[j].0 == key,
    ensures
        first_key_index(d, key) is Some,
    decreases d.len(),
{
    if d[0].0 != key {
        assert(d.drop_first()[j - 1] == d[j]);
        lemma_first_key_index_present(d.drop_first(), key, j - 1);
    }
}

pub proof fn lemma_unrelated_of_written(ls: Seq<Seq<char>>, d: Seq<SettingView>)
    requires
        writable(d),
        forall|i: int| 0 <= i < ls.len() ==> written(#[trigger] ls[i], d),
    ensures
        unrelated_lines(ls, d) == Seq::<Seq<char>>::empty(),
    decreases ls.len(),
{
    if ls.len() > 0 {
        let init = ls.drop_last();
        assert forall|i: int| 0 <= i < init.len() implies written(#[trigger] init[i], d) by {
            assert(init[i] == ls[i]);
        }
        lemma_unrelated_of_written(init, d);
        assert(ls.last() == ls[ls.len() - 1]);
        lemma_written_not_unrelated(ls.last(), d);
    }
}

/// Rewriting keeps exactly the lines about none of the settings, in order.
pub proof fn lemma_rewritten_unrelated(ls: Seq<Seq<char>>, d: Seq<SettingView>)
    requires
        writable(d),
    ensures
        unrelated_lines(rewritten_lines(ls, d), d) == unrelated_lines(ls, d),
    decreases ls.len(),
{
    if ls.len() > 0 {
        let init = ls.drop_last();
        let last = ls.last();
        lemma_rewritten_unrelated(init, d);
        lemma_unrelated_concat(rewritten_lines(init, d), rewritten_line(last, d), d);
        match line_key(last) {
            Some(k) => {
                lemma_first_key_index_facts(d, k);
                match first_key_index(d, k) {
                    Some(j) => {
                        match d[j].1 {
                            Some(v) => {
                                lemma_line_key_setting_line(d[j].0, v);
                                lemma_unrelated_single(setting_line(d[j].0, v), d);
                            },
                            None => {
                                assert(unrelated_lines(Seq::<Seq<char>>::empty(), d) =~= Seq::<
                                    Seq<char>,
                                >::empty());
                            },
                        }
                        assert(unrelated_lines(rewritten_line(last, d), d) =~= Seq::<
                            Seq<char>,
                        >::empty());
                    },
                    None => {
                        lemma_unrelated_single(last, d);
                    },
                }
            },
            None => {
                lemma_unrelated_single(last, d);
            },
        }
        let u = unrelated_lines(init, d);
        assert(u + Seq::<Seq<char>>::empty() =~= u);
        assert(u + seq![last] =~= u.push(last));
    }
}

/// The lines of a merged file, for settings that can be written and of
/// which at least one has a value: the written lines, each read with a
/// trailing carriage return dropped.
pub proof fn lemma_merged_lines(existing: Seq<char>, d: Seq<SettingView>)
    requires
        writable(d),
        distinct_keys(d),
        exists|j: int| 0 <= j < d.len() && (#[trigger] d[j]).1 is Some,
    ensures
        ({
            let ls = lines_of(existing);
            let o = rewritten_lines(ls, d) + missing_lines(ls, d);
            &&& o.len() > 0
            &&& forall|i: int| 0 <= i < o.len() ==> single_line(#[trigger] o[i])
            &&& lines_of(merged_text(existing, d)) == o.map_values(|l: Seq<char>| strip_cr(l))
        }),
{
    let ls = lines_of(existing);
    let a = rewritten_lines(ls, d);
    let m = missing_lines(ls, d);
    let o = a + m;
    lemma_lines_single_line(existing);
    lemma_rewritten_kinds(ls, d);
    lemma_missing_kinds(ls, d);
    let j = choose|j: int| 0 <= j < d.len() && (#[trigger] d[j]).1 is Some;
    lemma_setting_written(ls, d, j);
    assert forall|i: int| 0 <= i < o.len() implies single_line(#[trigger] o[i]) by {
        if i < a.len() {
            assert(a.contains(a[i]));
        } else {
            assert(m.contains(m[i - a.len()]));
        }
        assert(o[i] == (if i < a.len() {
            a[i]
        } else {
            m[i - a.len()]
        }));
        if written(o[i], d) {
            lemma_written_not_unrelated(o[i], d);
        }
    }
    lemma_lines_of_joined(o);
}

/// Saving keeps the lines of the old file that are about none of the
/// settings written (comments, blank lines, unknown keys): the same lines,
/// in the same order, each read with a trailing carriage return dropped.
pub proof fn lemma_unrelated_lines_kept(existing: Seq<char>, d: Seq<SettingView>)
    requires
        writable(d),
        distinct_keys(d),
        exists|j: int| 0 <= j < d.len() && (#[trigger] d[j]).1 is Some,
    ensures
        unrelated_lines(lines_of(merged_text(existing, d)), d) == unrelated_lines(
            lines_of(existing),
            d,
        ).map_values(|l: Seq<char>| strip_cr(l)),
{
    let ls = lines_of(existing);
    let a = rewritten_lines(ls, d);
    let m = missing_lines(ls, d);
    let o = a + m;
    lemma_merged_lines(existing, d);
    lemma_unrelated_strip_cr(o, d);
    lemma_unrelated_concat(a, m, d);
    lemma_rewritten_unrelated(ls, d);
    lemma_missing_kinds(ls, d);
    assert forall|i: int| 0 <= i < m.len() implies written(#[trigger] m[i], d) by {
        assert(m.contains(m[i]));
    }
    lemma_unrelated_of_written(m, d);
    assert(unrelated_lines(ls, d) + Seq::<Seq<char>>::empty() =~= unrelated_lines(ls, d));
}


pub proof fn lemma_rewritten_concat(a: Seq<Seq<char>>, b: Seq<Seq<char>>, d: Seq<SettingView>)
    ensures
        rewritten_lines(a + b, d) == rewritten_lines(a, d) + rewritten_lines(b, d),
    decreases b.len(),
{
    if b.len() == 0 {
        assert(a + b =~= a);
        assert(rewritten_lines(a, d) + rewritten_lines(b, d) =~= rewritten_lines(a, d));
    } else {
        lemma_rewritten_concat(a, b.drop_last(), d);
        assert((a + b).drop_last() =~= a + b.drop_last());
        assert((a + b).last() == b.last());
        assert(rewritten_lines(a, d) + rewritten_lines(b.drop_last(), d) + rewritten_line(b.last(), d)
            =~= rewritten_lines(a, d) + (rewritten_lines(b.drop_last(), d) + rewritten_line(
            b.last(),
            d,
        )));
    }
}

pub proof fn lemma_rewritten_single(x: Seq<char>, d: Seq<SettingView>)
    ensures
        rewritten_lines(seq![x], d) == rewritten_line(x, d),
{
    let e = Seq::<Seq<char>>::empty();
    assert(seq![x].drop_last() =~= e);
    assert(seq![x].last() == x);
    assert(rewritten_lines(e, d) == e);
    assert(e + rewritten_line(x, d) =~= rewritten_line(x, d));
}

pub proof fn lemma_strip_cr_concat(a: Seq<Seq<char>>, b: Seq<Seq<char>>)
    ensures
        (a + b).map_values(|l: Seq<char>| strip_cr(l)) == a.map_values(|l: Seq<char>| strip_cr(l))
            + b.map_values(|l: Seq<char>| strip_cr(l)),
{
    assert((a + b).map_values(|l: Seq<char>| strip_cr(l)) =~= a.map_values(
        |l: Seq<char>| strip_cr(l),
    ) + b.map_values(|l: Seq<char>| strip_cr(l)));
}

/// Rewriting the lines that rewriting gave (as they read back) gives them
/// again, when no line about none of the settings ends with a carriage
/// return.
pub proof fn lemma_rewritten_again(ls: Seq<Seq<char>>, d: Seq<SettingView>)
    requires
        writable(d),
        forall|i: int|
            0 <= i < ls.len() && unrelated_to(#[trigger] ls[i], d) ==> strip_cr(ls[i]) == ls[i],
    ensures
        rewritten_lines(rewritten_lines(ls, d).map_values(|l: Seq<char>| strip_cr(l)), d)
            == rewritten_lines(ls, d),
    decreases ls.len(),
{
    if ls.len() > 0 {
        let init = ls.drop_last();
        let last = ls.last();
        assert forall|i: int| 0 <= i < init.len() && unrelated_to(#[trigger] init[i], d) implies strip_cr(
            init[i],
        ) == init[i] by {
            assert(init[i] == ls[i]);
        }
        lemma_rewritten_again(init, d);
        let a = rewritten_lines(init, d);
        let r = rewritten_line(last, d);
        lemma_strip_cr_concat(a, r);
        let sa = a.map_values(|l: Seq<char>| strip_cr(l));
        let sr = r.map_values(|l: Seq<char>| strip_cr(l));
        lemma_rewritten_concat(sa, sr, d);
        assert(last == ls[ls.len() - 1]);
        match line_key(last) {
            Some(k) => {
                lemma_first_key_index_facts(d, k);
                match first_key_index(d, k) {
                    Some(j) => {
                        match d[j].1 {
                            Some(v) => {
                                let x = setting_line(d[j].0, v);
                                lemma_line_key_setting_line(d[j].0, v);
                                assert(sr =~= seq![strip_cr(x)]);
                                lemma_rewritten_single(strip_cr(x), d);
                                assert(rewritten_line(strip_cr(x), d) == seq![x]);
                            },
                            None => {
                                assert(sr =~= Seq::<Seq<char>>::empty());
                                assert(rewritten_lines(sr, d) == Seq::<Seq<char>>::empty());
                            },
                        }
                    },
                    None => {
                        assert(strip_cr(last) == last);
                        assert(sr =~= seq![last]);
                        lemma_rewritten_single(last, d);
                    },
                }
            },
            None => {
                assert(strip_cr(last) == last);
                assert(sr =~= seq![last]);
                lemma_rewritten_single(last, d);
            },
        }
    }
}

/// Rewriting added setting lines (as they read back) gives them again.
pub proof fn lemma_written_again(ws: Seq<Seq<char>>, d: Seq<SettingView>)
    requires
        writable(d),
        distinct_keys(d),
        forall|i: int| 0 <= i < ws.len() ==> written(#[trigger] ws[i], d),
    ensures
        rewritten_lines(ws.map_values(|l: Seq<char>| strip_cr(l)), d) == ws,
    decreases ws.len(),
{
    if ws.len() > 0 {
        let init = ws.drop_last();
        let x = ws.last();
        assert forall|i: int| 0 <= i < init.len() implies written(#[trigger] init[i], d) by {
            assert(init[i] == ws[i]);
        }
        lemma_written_again(init, d);
        assert(x == ws[ws.len() - 1]);
        let j = choose|j: int|
            0 <= j < d.len() && (#[trigger] d[j]).1 is Some && x == setting_line(d[j].0, d[j].1->0);
        lemma_line_key_setting_line(d[j].0, d[j].1->0);
        lemma_first_key_index_facts(d, d[j].0);
        lemma_first_key_index_present(d, d[j].0, j);
        let m = ws.map_values(|l: Seq<char>| strip_cr(l));
        assert(m.drop_last() =~= init.map_values(|l: Seq<char>| strip_cr(l)));
        assert(m.last() == strip_cr(x));
        assert(rewritten_line(strip_cr(x), d) == seq![x]);
        assert(rewritten_lines(m, d) == init + seq![x]);
        assert(init + seq![x] =~= ws);
    }
}

/// When every setting with a value is the subject of some line, nothing is
/// added.
pub proof fn lemma_missing_empty(lines: Seq<Seq<char>>, d: Seq<SettingView>)
    requires
        forall|j: int| 0 <= j < d.len() && (#[trigger] d[j]).1 is Some ==> mentions(lines, d[j].0),
    ensures
        missing_lines(lines, d) == Seq::<Seq<char>>::empty(),
    decreases d.len(),
{
    if d.len() > 0 {
        let init = d.drop_last();
        assert forall|j: int| 0 <= j < init.len() && (#[trigger] init[j]).1 is Some implies mentions(
            lines,
            init[j].0,
        ) by {
            assert(init[j] == d[j]);
        }
        lemma_missing_empty(lines, init);
        assert(d.last() == d[d.len() - 1]);
    }
}

/// Saving over a file that was just saved with the same settings writes
/// the same text again, unless a line of the first old file that is about
/// none of the settings ends with a carriage return (which the first save
/// kept and reading the saved file drops).
pub proof fn lemma_save_twice(existing: Seq<char>, d: Seq<SettingView>)
    requires
        writable(d),
        distinct_keys(d),
        exists|j: int| 0 <= j < d.len() && (#[trigger] d[j]).1 is Some,
        forall|i: int|
            0 <= i < lines_of(existing).len() && unrelated_to(#[trigger] lines_of(existing)[i], d)
                ==> strip_cr(lines_of(existing)[i]) == lines_of(existing)[i],
    ensures
        merged_text(merged_text(existing, d), d) == merged_text(existing, d),
{
    let ls = lines_of(existing);
    let a = rewritten_lines(ls, d);
    let m = missing_lines(ls, d);
    let o = a + m;
    lemma_merged_lines(existing, d);
    let l2 = lines_of(merged_text(existing, d));
    lemma_strip_cr_concat(a, m);
    let sa = a.map_values(|l: Seq<char>| strip_cr(l));
    let sm = m.map_values(|l: Seq<char>| strip_cr(l));
    assert(l2 == sa + sm);
    lemma_rewritten_concat(sa, sm, d);
    lemma_rewritten_again(ls, d);
    lemma_missing_kinds(ls, d);
    assert forall|i: int| 0 <= i < m.len() implies written(#[trigger] m[i], d) by {
        assert(m.contains(m[i]));
    }
    lemma_written_again(m, d);
    assert(rewritten_lines(l2, d) == o);
    assert forall|j: int| 0 <= j < d.len() && (#[trigger] d[j]).1 is Some implies mentions(
        l2,
        d[j].0,
    ) by {
        lemma_setting_written(ls, d, j);
        let x = setting_line(d[j].0, d[j].1->0);
        let i = choose|i: int| 0 <= i < o.len() && o[i] == x;
        lemma_line_key_setting_line(d[j].0, d[j].1->0);
        assert(l2[i] == strip_cr(o[i]));
        assert(line_key(l2[i]) == Some(d[j].0));
    }
    lemma_missing_empty(l2, d);
    assert(o + Seq::<Seq<char>>::empty() =~= o);
}

/// The settings that saving writes can be written as lines, under
/// different names, when their texts have no line breaks.
pub proof fn lemma_desired_writable(c: ConfigView, font_size: Option<Seq<char>>)
    requires
        single_line(c.host),
        c.share is Some ==> single_line(c.share->0),
        c.mount_point is Some ==> single_line(c.mount_point->0),
        c.mount_options is Some ==> single_line(c.mount_options->0),
        font_size is Some ==> single_line(font_size->0),
    ensures
        writable(desired_settings(c, font_size)),
        distinct_keys(desired_settings(c, font_size)),
        desired_settings(c, font_size)[1].1 is Some,
{
    let d = desired_settings(c, font_size);
    lemma_keys_plain();
    lemma_keys_distinct();
    lemma_decimal_storable(c.port as nat);
    lemma_decimal_storable(c.interval_secs as nat);
    lemma_bool_text_storable(c.use_pkexec);
    lemma_trim_single_line(c.host);
    assert(d[0].0 == "host"@);
    assert(d[1].0 == "port"@);
    assert(d[2].0 == "interval_secs"@);
    assert(d[3].0 == "font_size"@);
    assert(d[4].0 == "share"@);
    assert(d[5].0 == "mount_point"@);
    assert(d[6].0 == "mount_options"@);
    assert(d[7].0 == "use_pkexec"@);
    assert(d[0].1 == non_empty_value(trim(c.host)));
    assert forall|j: int| 0 <= j < d.len() implies plain_key(#[trigger] d[j].0) && (d[j].1 is Some
        ==> single_line(d[j].1->0)) by {}
    assert forall|i: int, j: int|
        0 <= i < d.len() && 0 <= j < d.len() && i != j implies d[i].0 != d[j].0 by {}
}

/// Saving the same settings twice writes the same file, when the settings'
/// texts have no line breaks, unless a line of the old file that is about
/// none of the settings ends with a carriage return.
pub proof fn lemma_saving_twice_same(existing: Seq<char>, c: ConfigView, font_size: Option<Seq<char>>)
    requires
        single_line(c.host),
        c.share is Some ==> single_line(c.share->0),
        c.mount_point is Some ==> single_line(c.mount_point->0),
        c.mount_options is Some ==> single_line(c.mount_options->0),
        font_size is Some ==> single_line(font_size->0),
        forall|i: int|
            0 <= i < lines_of(existing).len() && unrelated_to(
                #[trigger] lines_of(existing)[i],
                desired_settings(c, font_size),
            ) ==> strip_cr(lines_of(existing)[i]) == lines_of(existing)[i],
    ensures
        ({
            let d = desired_settings(c, font_size);
            merged_text(merged_text(existing, d), d) == merged_text(existing, d)
        }),
{
    let d = desired_settings(c, font_size);
    lemma_desired_writable(c, font_size);
    assert(d[1].1 is Some);
    lemma_save_twice(existing, d);
}

} // verus!
