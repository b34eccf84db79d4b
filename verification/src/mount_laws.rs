//! Properties of the mount command lines and of the mount-table lookup.

use vstd::prelude::*;
use crate::text::lines_of;
use crate::config::{ConfigView, mount_source_of};
use crate::mounts::{mount_argv, mount_listed, words, unescape_spaces, trim_trailing};

verus! {

/// The mount point that a mount-table line names: its second field, with
/// `\040` made a space and trailing slashes dropped.
pub open spec fn named_target(line: Seq<char>) -> Option<Seq<char>> {
    if words(line).len() >= 2 {
        Some(trim_trailing(unescape_spaces(words(line)[1]), '/'))
    } else {
        None
    }
}

/// A mount point is listed exactly when some line of the table names it,
/// both compared without trailing slashes.
pub proof fn lemma_listed_iff_named(table: Seq<char>, mount_point: Seq<char>)
    ensures
        mount_listed(table, mount_point) <==> exists|i: int|
            0 <= i < lines_of(table).len() && named_target(#[trigger] lines_of(table)[i]) == Some(
                trim_trailing(mount_point, '/'),
            ),
{
    if mount_listed(table, mount_point) {
        let i = choose|i: int|
            0 <= i < lines_of(table).len() && crate::mounts::lists_mount(
                #[trigger] lines_of(table)[i],
                trim_trailing(mount_point, '/'),
            );
        assert(named_target(lines_of(table)[i]) == Some(trim_trailing(mount_point, '/')));
    }
    if exists|i: int|
        0 <= i < lines_of(table).len() && named_target(#[trigger] lines_of(table)[i]) == Some(
            trim_trailing(mount_point, '/'),
        ) {
        let i = choose|i: int|
            0 <= i < lines_of(table).len() && named_target(#[trigger] lines_of(table)[i]) == Some(
                trim_trailing(mount_point, '/'),
            );
        assert(crate::mounts::lists_mount(lines_of(table)[i], trim_trailing(mount_point, '/')));
    }
}

/// A table of one line lists one mount point only: two mount points that
/// it both lists are the same, trailing slashes aside. (So a table whose
/// only target is `/` does not list `/mnt/nas`.)
pub proof fn lemma_one_line_lists_one_target(table: Seq<char>, a: Seq<char>, b: Seq<char>)
    requires
        lines_of(table).len() == 1,
        mount_listed(table, a),
        mount_listed(table, b),
    ensures
        trim_trailing(a, '/') == trim_trailing(b, '/'),
{
    lemma_listed_iff_named(table, a);
    lemma_listed_iff_named(table, b);
    let i = choose|i: int|
        0 <= i < lines_of(table).len() && named_target(#[trigger] lines_of(table)[i]) == Some(
            trim_trailing(a, '/'),
        );
    let j = choose|j: int|
        0 <= j < lines_of(table).len() && named_target(#[trigger] lines_of(table)[j]) == Some(
            trim_trailing(b, '/'),
        );
    assert(i == 0 && j == 0);
}

/// A table none of whose lines names the mount point does not list it.
pub proof fn lemma_unnamed_not_listed(table: Seq<char>, mount_point: Seq<char>)
    requires
        forall|i: int|
            0 <= i < lines_of(table).len() ==> named_target(#[trigger] lines_of(table)[i]) != Some(
                trim_trailing(mount_point, '/'),
            ),
    ensures
        !mount_listed(table, mount_point),
{
    lemma_listed_iff_named(table, mount_point);
}

/// The mount command line, when there is one: the launcher (`pkexec mount`
/// or `mount`), then `-t cifs`, the share's source and the mount point,
/// then `-o` and the options exactly when options are configured, with or
/// without `pkexec`.
pub proof fn lemma_mount_argv_shape(c: ConfigView)
    requires
        mount_argv(c) is Some,
    ensures
        ({
            let argv = mount_argv(c)->0;
            let n: int = if c.use_pkexec {
                2
            } else {
                1
            };
            &&& c.use_pkexec ==> argv[0] == "pkexec"@
            &&& argv[n - 1] == "mount"@
            &&& argv[n] == "-t"@
            &&& argv[n + 1] == "cifs"@
            &&& mount_source_of(c.host, c.share) == Some(argv[n + 2])
            &&& c.mount_point == Some(argv[n + 3])
            &&& c.mount_options is None ==> argv.len() == n + 4
            &&& c.mount_options is Some ==> argv.len() == n + 6 && argv[n + 4] == "-o"@ && argv[n
                + 5] == c.mount_options->0
        }),
{
}


/// Text without a backslash has nothing to unescape.
pub proof fn lemma_unescape_plain(x: Seq<char>)
    requires
        forall|i: int| 0 <= i < x.len() ==> #[trigger] x[i] != '\\',
    ensures
        unescape_spaces(x) == x,
    decreases x.len(),
{
    if x.len() > 0 {
        assert(x[0] != '\\');
        if x.len() >= 4 {
            assert(x.subrange(0, 4)[0] == x[0]);
        }
        let rest = x.drop_first();
        assert forall|i: int| 0 <= i < rest.len() implies #[trigger] rest[i] != '\\' by {
            assert(rest[i] == x[i + 1]);
        }
        lemma_unescape_plain(rest);
        assert(seq![x[0]] + rest =~= x);
    }
}

/// Dropping trailing `c`s keeps a prefix, drops only `c`s, and leaves no
/// `c` at the end.
pub proof fn lemma_trim_trailing_facts(s: Seq<char>, c: char)
    ensures
        ({
            let t = trim_trailing(s, c);
            &&& t.len() <= s.len()
            &&& t == s.subrange(0, t.len() as int)
            &&& forall|i: int| t.len() <= i < s.len() ==> #[trigger] s[i] == c
            &&& t.len() == 0 || t.last() != c
        }),
    decreases s.len(),
{
    if s.len() > 0 && s.last() == c {
        lemma_trim_trailing_facts(s.drop_last(), c);
        let t = trim_trailing(s, c);
        assert(s.drop_last().subrange(0, t.len() as int) =~= s.subrange(0, t.len() as int));
        assert forall|i: int| t.len() <= i < s.len() implies #[trigger] s[i] == c by {
            if i < s.len() - 1 {
                assert(s[i] == s.drop_last()[i]);
            }
        }
    } else {
        assert(s.subrange(0, s.len() as int) =~= s);
    }
}

} // verus!
