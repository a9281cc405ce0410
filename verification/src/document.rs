//! Document bookkeeping for the desktop shell: default file names, labels
//! and window titles, the recent-files list, and the small dialog states
//! that guard unsaved changes.

use vstd::prelude::*;

use crate::text::{chars_of, push_char, string_of};

verus! {

/// How many recently used project files are remembered.
pub const MAX_RECENT_FILES: usize = 8;

/// The extension appended to project paths typed without one.
pub open spec fn project_extension() -> Seq<char> {
    ".roncad.json"@
}

// ---------------------------------------------------------------------------
// Default file name

/// One character of a file-name slug: ASCII letters and digits survive in
/// lower case, anything else becomes an underscore.
pub open spec fn slug_char(c: char) -> char {
    if ('a' <= c && c <= 'z') || ('0' <= c && c <= '9') {
        c
    } else if 'A' <= c && c <= 'Z' {
        ((c as int) + 32) as char
    } else {
        '_'
    }
}

/// `s` without its leading underscores.
pub open spec fn drop_leading_underscores(s: Seq<char>) -> Seq<char>
    decreases s.len(),
{
    if s.len() > 0 && s[0] == '_' {
        drop_leading_underscores(s.drop_first())
    } else {
        s
    }
}

/// `s` without its trailing underscores.
pub open spec fn drop_trailing_underscores(s: Seq<char>) -> Seq<char>
    decreases s.len(),
{
    if s.len() > 0 && s.last() == '_' {
        drop_trailing_underscores(s.drop_last())
    } else {
        s
    }
}

/// `s` with every run of underscores shortened to a single underscore.
pub open spec fn collapse_underscores(s: Seq<char>) -> Seq<char>
    decreases s.len(),
{
    if s.len() == 0 {
        s
    } else {
        let p = collapse_underscores(s.drop_last());
        if s.last() == '_' && p.len() > 0 && p.last() == '_' {
            p
        } else {
            p.push(s.last())
        }
    }
}

/// The slug of a project name: slug characters, outer underscores
/// trimmed, inner runs of underscores collapsed, "untitled" when nothing
/// is left.
pub open spec fn project_slug(name: Seq<char>) -> Seq<char> {
    let s = collapse_underscores(
        drop_trailing_underscores(drop_leading_underscores(name.map_values(|c: char| slug_char(c)))),
    );
    if s.len() == 0 {
        "untitled"@
    } else {
        s
    }
}

/// Whether `c` may stand in a file-name slug: a lower-case ASCII letter,
/// a digit or an underscore.
pub open spec fn is_slug_stem_char(c: char) -> bool {
    ('a' <= c && c <= 'z') || ('0' <= c && c <= '9') || c == '_'
}

/// Whether every character of `s` may stand in a slug.
pub open spec fn slug_chars_only(s: Seq<char>) -> bool {
    forall|i: int| 0 <= i < s.len() ==> is_slug_stem_char(#[trigger] s[i])
}

proof fn lemma_drop_leading_underscores(s: Seq<char>)
    requires
        slug_chars_only(s),
    ensures
        slug_chars_only(drop_leading_underscores(s)),
        drop_leading_underscores(s).len() > 0 ==> drop_leading_underscores(s)[0] != '_',
    decreases s.len(),
{
    if s.len() > 0 && s[0] == '_' {
        assert forall|i: int| 0 <= i < s.drop_first().len() implies is_slug_stem_char(
            #[trigger] s.drop_first()[i],
        ) by {
            assert(s.drop_first()[i] == s[i + 1]);
        }
        lemma_drop_leading_underscores(s.drop_first());
    }
}

proof fn lemma_drop_trailing_underscores(s: Seq<char>)
    requires
        slug_chars_only(s),
        s.len() > 0 ==> s[0] != '_',
    ensures
        slug_chars_only(drop_trailing_underscores(s)),
        drop_trailing_underscores(s).len() > 0 ==> drop_trailing_underscores(s)[0] != '_'
            && drop_trailing_underscores(s).last() != '_',
    decreases s.len(),
{
    if s.len() > 0 && s.last() == '_' {
        let d = s.drop_last();
        assert forall|i: int| 0 <= i < d.len() implies is_slug_stem_char(#[trigger] d[i]) by {
            assert(d[i] == s[i]);
        }
        if d.len() > 0 {
            assert(d[0] == s[0]);
        }
        lemma_drop_trailing_underscores(d);
    }
}

proof fn lemma_collapse_underscores(s: Seq<char>)
    requires
        slug_chars_only(s),
    ensures
        slug_chars_only(collapse_underscores(s)),
        collapse_underscores(s).len() > 0 <==> s.len() > 0,
        s.len() > 0 ==> collapse_underscores(s)[0] == s[0] && collapse_underscores(s).last()
            == s.last(),
        forall|i: int|
            0 <= i < collapse_underscores(s).len() - 1 ==> !(#[trigger] collapse_underscores(s)[i]
                == '_' && collapse_underscores(s)[i + 1] == '_'),
    decreases s.len(),
{
    if s.len() > 0 {
        let d = s.drop_last();
        assert forall|i: int| 0 <= i < d.len() implies is_slug_stem_char(#[trigger] d[i]) by {
            assert(d[i] == s[i]);
        }
        lemma_collapse_underscores(d);
        let p = collapse_underscores(d);
        let c = collapse_underscores(s);
        if d.len() > 0 {
            assert(d[0] == s[0]);
        }
        if !(s.last() == '_' && p.len() > 0 && p.last() == '_') {
            assert(c == p.push(s.last()));
            assert forall|i: int| 0 <= i < c.len() implies is_slug_stem_char(#[trigger] c[i]) by {
                if i < p.len() {
                    assert(c[i] == p[i]);
                } else {
                    assert(c[i] == s[s.len() - 1]);
                }
            }
            assert forall|i: int| 0 <= i < c.len() - 1 implies !(#[trigger] c[i] == '_' && c[i + 1]
                == '_') by {
                assert(c[i] == p[i]);
                if i + 1 < p.len() {
                    assert(c[i + 1] == p[i + 1]);
                } else {
                    assert(i == p.len() - 1);
                    assert(p[i] == p.last());
                }
            }
        }
    }
}

/// The default file-name stem of any project name is non-empty, written
/// with lower-case ASCII letters, digits and underscores only, neither
/// starts nor ends with an underscore, and never holds two underscores in
/// a row.
pub proof fn lemma_project_slug_shape(name: Seq<char>)
    ensures
        project_slug(name).len() > 0,
        slug_chars_only(project_slug(name)),
        project_slug(name)[0] != '_',
        project_slug(name).last() != '_',
        forall|i: int|
            0 <= i < project_slug(name).len() - 1 ==> !(#[trigger] project_slug(name)[i] == '_'
                && project_slug(name)[i + 1] == '_'),
{
    let m = name.map_values(|c: char| slug_char(c));
    assert forall|i: int| 0 <= i < m.len() implies is_slug_stem_char(#[trigger] m[i]) by {
        let c = name[i];
        if 'A' <= c && c <= 'Z' {
            assert((c as int) + 32 <= 'z' as int);
        }
    }
    lemma_drop_leading_underscores(m);
    let l = drop_leading_underscores(m);
    lemma_drop_trailing_underscores(l);
    let t = drop_trailing_underscores(l);
    lemma_collapse_underscores(t);
    let c = collapse_underscores(t);
    if c.len() == 0 {
        reveal_strlit("untitled");
        let u = "untitled"@;
        assert forall|i: int| 0 <= i < u.len() implies is_slug_stem_char(#[trigger] u[i]) by {}
        assert forall|i: int| 0 <= i < u.len() - 1 implies !(#[trigger] u[i] == '_' && u[i + 1]
            == '_') by {}
    }
}

/// The slug characters of a project name, one per character.
pub open spec fn slug_chars(name: Seq<char>) -> Seq<char> {
    name.map_values(|c: char| slug_char(c))
}

/// The maximal runs of characters other than '_' in `m`, in order.
pub open spec fn slug_runs(m: Seq<char>) -> Seq<Seq<char>>
    decreases m.len(),
{
    if m.len() == 0 {
        Seq::empty()
    } else {
        let r = slug_runs(m.drop_last());
        let c = m.last();
        if c == '_' {
            r
        } else if m.len() >= 2 && m[m.len() - 2] != '_' && r.len() > 0 {
            r.drop_last().push(r.last().push(c))
        } else {
            r.push(seq![c])
        }
    }
}

/// The runs `rs` joined by single underscores.
pub open spec fn joined(rs: Seq<Seq<char>>) -> Seq<char>
    decreases rs.len(),
{
    if rs.len() == 0 {
        Seq::empty()
    } else if rs.len() == 1 {
        rs[0]
    } else {
        joined(rs.drop_last()).push('_') + rs.last()
    }
}

proof fn lemma_drop_leading_push(m: Seq<char>, c: char)
    ensures
        drop_leading_underscores(m.push(c)) == if drop_leading_underscores(m).len() == 0 && c == '_' {
            Seq::<char>::empty()
        } else {
            drop_leading_underscores(m).push(c)
        },
    decreases m.len(),
{
    if m.len() == 0 {
        assert(m.push(c) =~= seq![c]);
        assert(drop_leading_underscores(m) == m);
        if c == '_' {
            assert(seq![c].drop_first() =~= Seq::<char>::empty());
            assert(drop_leading_underscores(seq![c]) == drop_leading_underscores(seq![c].drop_first()));
        } else {
            assert(drop_leading_underscores(seq![c]) == seq![c]);
            assert(m.push(c) =~= seq![c]);
        }
    } else if m[0] == '_' {
        assert(m.push(c).drop_first() =~= m.drop_first().push(c));
        lemma_drop_leading_push(m.drop_first(), c);
    } else {
        assert(m.push(c)[0] == m[0]);
    }
}

proof fn lemma_drop_leading_facts(m: Seq<char>)
    ensures
        drop_leading_underscores(m).len() > 0 ==> drop_leading_underscores(m)[0] != '_'
            && drop_leading_underscores(m).last() == m.last(),
        drop_leading_underscores(m).len() == 0 && m.len() > 0 ==> m.last() == '_',
    decreases m.len(),
{
    if m.len() > 0 && m[0] == '_' {
        lemma_drop_leading_facts(m.drop_first());
        if m.drop_first().len() > 0 {
            assert(m.drop_first().last() == m.last());
        } else {
            assert(m.len() == 1);
        }
    }
}

proof fn lemma_collapse_ends(s: Seq<char>)
    ensures
        s.len() > 0 ==> collapse_underscores(s).len() > 0 && collapse_underscores(s).last() == s.last(),
        s.len() == 0 ==> collapse_underscores(s).len() == 0,
    decreases s.len(),
{
    if s.len() > 0 {
        lemma_collapse_ends(s.drop_last());
    }
}

proof fn lemma_drop_trailing_facts(l: Seq<char>)
    requires
        l.len() > 0 ==> l[0] != '_',
    ensures
        l.len() > 0 ==> drop_trailing_underscores(l).len() > 0,
        drop_trailing_underscores(l).len() > 0 ==> drop_trailing_underscores(l).last() != '_',
        l.len() == 0 ==> drop_trailing_underscores(l).len() == 0,
    decreases l.len(),
{
    if l.len() > 0 && l.last() == '_' {
        let d = l.drop_last();
        if d.len() > 0 {
            assert(d[0] == l[0]);
        }
        lemma_drop_trailing_facts(d);
    }
}

proof fn lemma_joined_extend(rs: Seq<Seq<char>>, c: char)
    requires
        rs.len() > 0,
    ensures
        joined(rs.drop_last().push(rs.last().push(c))) == joined(rs).push(c),
{
    let n = rs.drop_last().push(rs.last().push(c));
    assert(n.drop_last() =~= rs.drop_last());
    if rs.len() > 1 {
        assert(joined(rs.drop_last()).push('_') + rs.last().push(c) =~= (joined(rs.drop_last()).push('_')
            + rs.last()).push(c));
    }
}

proof fn lemma_joined_new_run(rs: Seq<Seq<char>>, c: char)
    ensures
        joined(rs.push(seq![c])) == if rs.len() == 0 {
            seq![c]
        } else {
            joined(rs).push('_').push(c)
        },
{
    assert(rs.push(seq![c]).drop_last() =~= rs);
    if rs.len() > 0 {
        assert(joined(rs).push('_') + seq![c] =~= joined(rs).push('_').push(c));
    }
}

proof fn lemma_slug_runs_nonempty(m: Seq<char>)
    ensures
        m.len() > 0 && m.last() != '_' ==> slug_runs(m).len() > 0,
{
    if m.len() > 0 && m.last() != '_' {
        let r = slug_runs(m.drop_last());
        if m.len() >= 2 && m[m.len() - 2] != '_' && r.len() > 0 {
            assert(r.drop_last().push(r.last().push(m.last())).len() > 0);
        }
    }
}

/// The trimmed and collapsed slug characters are the runs joined by single
/// underscores.
proof fn lemma_trim_collapse_is_joined_runs(m: Seq<char>)
    ensures
        collapse_underscores(drop_trailing_underscores(drop_leading_underscores(m))) == joined(
            slug_runs(m),
        ),
        drop_trailing_underscores(drop_leading_underscores(m)).len() == 0 <==> slug_runs(m).len() == 0,
        drop_leading_underscores(m).len() > 0 && drop_leading_underscores(m).last() == '_'
            ==> collapse_underscores(drop_leading_underscores(m)) == collapse_underscores(
            drop_trailing_underscores(drop_leading_underscores(m)),
        ).push('_'),
        drop_leading_underscores(m).len() > 0 && drop_leading_underscores(m).last() != '_'
            ==> drop_trailing_underscores(drop_leading_underscores(m)) == drop_leading_underscores(m),
    decreases m.len(),
{
    if m.len() == 0 {
        return;
    }
    let d = m.drop_last();
    let c = m.last();
    assert(d.push(c) =~= m);
    lemma_trim_collapse_is_joined_runs(d);
    lemma_drop_leading_push(d, c);
    lemma_drop_leading_facts(d);
    lemma_drop_leading_facts(m);
    let l = drop_leading_underscores(d);
    let t = drop_trailing_underscores(l);
    let cc = collapse_underscores(t);
    lemma_drop_trailing_facts(l);
    lemma_collapse_ends(t);
    lemma_slug_runs_nonempty(d);
    let r = slug_runs(d);
    if c == '_' {
        if l.len() > 0 {
            let l2 = l.push('_');
            assert(l2.drop_last() =~= l);
            assert(drop_trailing_underscores(l2) == t);
            lemma_collapse_ends(l);
            assert(collapse_underscores(l2) == collapse_underscores(l).push('_') || collapse_underscores(l2)
                == collapse_underscores(l));
            if l.last() != '_' {
                assert(collapse_underscores(l) == cc);
                assert(cc.last() == t.last());
            }
        }
    } else {
        let l2 = l.push(c);
        assert(l2.drop_last() =~= l);
        assert(drop_trailing_underscores(l2) == l2);
        assert(collapse_underscores(l2) == collapse_underscores(l).push(c));
        if l.len() > 0 {
            if l.last() == '_' {
                assert(d.last() == '_');
                assert(m[m.len() - 2] == d.last());
                lemma_joined_new_run(r, c);
            } else {
                assert(d.last() != '_');
                assert(m[m.len() - 2] == d.last());
                assert(r.len() > 0);
                lemma_joined_extend(r, c);
            }
        } else {
            assert(r.len() == 0);
            if d.len() > 0 {
                assert(m[m.len() - 2] == d.last());
            }
            lemma_joined_new_run(r, c);
            assert(l2 =~= seq![c]);
            assert(seq![c].drop_last() =~= Seq::<char>::empty());
        }
    }
}

/// The runs `rs` one after the other, without separators.
pub open spec fn concat_runs(rs: Seq<Seq<char>>) -> Seq<char>
    decreases rs.len(),
{
    if rs.len() == 0 {
        Seq::empty()
    } else {
        concat_runs(rs.drop_last()) + rs.last()
    }
}

/// The characters of `m` other than '_', in order.
pub open spec fn non_underscores(m: Seq<char>) -> Seq<char>
    decreases m.len(),
{
    if m.len() == 0 {
        Seq::empty()
    } else if m.last() == '_' {
        non_underscores(m.drop_last())
    } else {
        non_underscores(m.drop_last()).push(m.last())
    }
}

/// The number of positions of `m` where a run of characters other than
/// '_' starts: a character other than '_' that is first or follows a '_'.
pub open spec fn run_starts(m: Seq<char>) -> nat
    decreases m.len(),
{
    if m.len() == 0 {
        0
    } else {
        run_starts(m.drop_last()) + if m.last() != '_' && (m.len() == 1 || m[m.len() - 2] == '_') {
            1nat
        } else {
            0nat
        }
    }
}

/// The runs of `m` are its maximal runs of characters other than '_': each
/// is non-empty and holds no '_', together they are the characters of `m`
/// other than '_' in order, and there is one per position where such a run
/// starts.
pub proof fn lemma_slug_runs_are_maximal(m: Seq<char>)
    ensures
        forall|i: int|
            0 <= i < slug_runs(m).len() ==> (#[trigger] slug_runs(m)[i]).len() > 0 && forall|j: int|
                0 <= j < slug_runs(m)[i].len() ==> slug_runs(m)[i][j] != '_',
        concat_runs(slug_runs(m)) == non_underscores(m),
        slug_runs(m).len() == run_starts(m),
    decreases m.len(),
{
    if m.len() > 0 {
        let d = m.drop_last();
        let c = m.last();
        lemma_slug_runs_are_maximal(d);
        lemma_slug_runs_nonempty(d);
        let r = slug_runs(d);
        if c == '_' {
        } else if m.len() >= 2 && m[m.len() - 2] != '_' && r.len() > 0 {
            let last = r.last().push(c);
            let n = r.drop_last().push(last);
            assert(n.drop_last() =~= r.drop_last());
            assert(r.drop_last().push(r.last()) =~= r);
            assert(concat_runs(r) == concat_runs(r.drop_last()) + r.last());
            assert(concat_runs(n) =~= concat_runs(r).push(c));
            assert(d.last() == m[m.len() - 2]);
            assert forall|i: int| 0 <= i < n.len() implies (#[trigger] n[i]).len() > 0 && forall|j: int|
                0 <= j < n[i].len() ==> n[i][j] != '_' by {
                if i < n.len() - 1 {
                    assert(n[i] == r[i]);
                } else {
                    assert(n[i] == last);
                    assert forall|j: int| 0 <= j < n[i].len() implies n[i][j] != '_' by {
                        if j < r.last().len() {
                            assert(r[r.len() - 1][j] != '_');
                        }
                    }
                }
            }
        } else {
            let n = r.push(seq![c]);
            assert(n.drop_last() =~= r);
            assert(concat_runs(n) =~= concat_runs(r).push(c));
            if m.len() >= 2 && m[m.len() - 2] != '_' {
                assert(d.len() > 0 && d.last() != '_');
            }
            assert forall|i: int| 0 <= i < n.len() implies (#[trigger] n[i]).len() > 0 && forall|j: int|
                0 <= j < n[i].len() ==> n[i][j] != '_' by {
                if i < n.len() - 1 {
                    assert(n[i] == r[i]);
                }
            }
        }
    }
}

/// The default file-name stem of a project name is its maximal runs of
/// ASCII letters and digits, lower-cased, joined by single underscores;
/// every other character separates runs. With no such run it is
/// "untitled".
pub proof fn lemma_project_slug_joins_runs(name: Seq<char>)
    ensures
        project_slug(name) == if slug_runs(slug_chars(name)).len() == 0 {
            "untitled"@
        } else {
            joined(slug_runs(slug_chars(name)))
        },
        forall|i: int|
            0 <= i < slug_chars(name).len() ==> (#[trigger] slug_chars(name)[i] == '_' <==> !(
            ('a' <= name[i] && name[i] <= 'z') || ('A' <= name[i] && name[i] <= 'Z') || ('0' <= name[i]
                && name[i] <= '9'))),
        forall|i: int|
            0 <= i < slug_runs(slug_chars(name)).len() ==> (#[trigger] slug_runs(slug_chars(name))[i]).len() > 0
                && forall|j: int|
                0 <= j < slug_runs(slug_chars(name))[i].len() ==> slug_runs(slug_chars(name))[i][j] != '_',
        concat_runs(slug_runs(slug_chars(name))) == non_underscores(slug_chars(name)),
        slug_runs(slug_chars(name)).len() == run_starts(slug_chars(name)),
{
    let m = slug_chars(name);
    lemma_slug_runs_are_maximal(m);
    lemma_trim_collapse_is_joined_runs(m);
    let t = drop_trailing_underscores(drop_leading_underscores(m));
    lemma_collapse_ends(t);
    assert forall|i: int| 0 <= i < m.len() implies (#[trigger] m[i] == '_' <==> !(('a' <= name[i]
        && name[i] <= 'z') || ('A' <= name[i] && name[i] <= 'Z') || ('0' <= name[i] && name[i]
        <= '9'))) by {
        let c = name[i];
        if 'A' <= c && c <= 'Z' {
            assert((c as int) + 32 >= 'a' as int);
            assert(((c as int) + 32) as char != '_');
        }
    }
}

fn slug_char_of(c: char) -> (r: char)
    ensures
        r == slug_char(c),
{
    if ('a' <= c && c <= 'z') || ('0' <= c && c <= '9') {
        c
    } else if 'A' <= c && c <= 'Z' {
        ((c as u8) + 32) as char
    } else {
        '_'
    }
}

/// The default file name for a project: its slug plus ".roncad.json".
pub fn default_project_filename(project_name: &str) -> (file_name: String)
    ensures
        file_name@ == project_slug(project_name@) + project_extension(),
{
    let name = chars_of(project_name);
    let ghost mapped_all = name@.map_values(|c: char| slug_char(c));
    // Map every character to its slug character.
    let mut mapped: Vec<char> = Vec::new();
    let mut i: usize = 0;
    while i < name.len()
        invariant
            i <= name@.len(),
            mapped@ == name@.subrange(0, i as int).map_values(|c: char| slug_char(c)),
        decreases name@.len() - i,
    {
        mapped.push(slug_char_of(name[i]));
        i = i + 1;
        proof {
            assert(mapped@ =~= name@.subrange(0, i as int).map_values(|c: char| slug_char(c)));
        }
    }
    proof {
        assert(name@.subrange(0, name@.len() as int) =~= name@);
        assert(mapped@ == mapped_all);
    }
    // Trim leading underscores.
    let mut start: usize = 0;
    proof {
        assert(mapped@.subrange(0, mapped@.len() as int) =~= mapped@);
    }
    while start < mapped.len() && mapped[start] == '_'
        invariant
            start <= mapped@.len(),
            drop_leading_underscores(mapped@) == drop_leading_underscores(
                mapped@.subrange(start as int, mapped@.len() as int),
            ),
        decreases mapped@.len() - start,
    {
        proof {
            assert(mapped@.subrange(start as int, mapped@.len() as int).drop_first()
                =~= mapped@.subrange(start + 1, mapped@.len() as int));
        }
        start = start + 1;
    }
    let ghost lead = mapped@.subrange(start as int, mapped@.len() as int);
    proof {
        assert(mapped@.subrange(0, mapped@.len() as int) =~= mapped@);
        assert(drop_leading_underscores(mapped@) == lead);
    }
    // Trim trailing underscores.
    let mut end: usize = mapped.len();
    while end > start && mapped[end - 1] == '_'
        invariant
            start <= end <= mapped@.len(),
            lead == mapped@.subrange(start as int, mapped@.len() as int),
            drop_trailing_underscores(lead) == drop_trailing_underscores(
                mapped@.subrange(start as int, end as int),
            ),
        decreases end,
    {
        proof {
            assert(mapped@.subrange(start as int, end as int).drop_last()
                =~= mapped@.subrange(start as int, end - 1));
        }
        end = end - 1;
    }
    let ghost trimmed = mapped@.subrange(start as int, end as int);
    proof {
        assert(drop_trailing_underscores(lead) == trimmed);
    }
    // Collapse runs of underscores.
    let mut out: Vec<char> = Vec::new();
    let mut k: usize = start;
    while k < end
        invariant
            start <= k <= end <= mapped@.len(),
            trimmed == mapped@.subrange(start as int, end as int),
            out@ == collapse_underscores(mapped@.subrange(start as int, k as int)),
        decreases end - k,
    {
        let c = mapped[k];
        proof {
            assert(mapped@.subrange(start as int, k + 1).drop_last() =~= mapped@.subrange(
                start as int,
                k as int,
            ));
        }
        if !(c == '_' && out.len() > 0 && out[out.len() - 1] == '_') {
            out.push(c);
        }
        k = k + 1;
    }
    let mut file_name = if out.len() == 0 {
        String::from_str("untitled")
    } else {
        string_of(&out)
    };
    file_name.append(".roncad.json");
    file_name
}

// ---------------------------------------------------------------------------
// Labels and titles

/// Whether `c` separates path components on some platform: '/' on every
/// platform, the backslash on Windows too.
pub open spec fn is_path_separator(c: char) -> bool {
    c == '/' || c == '\u{5c}'
}

/// Whether `s` is one plain file name on every platform: not empty, neither
/// "." nor "..", and free of separators and of ':' (which opens a drive
/// prefix on Windows).
pub open spec fn is_plain_file_name(s: Seq<char>) -> bool {
    &&& s.len() > 0
    &&& s != seq!['.']
    &&& s != seq!['.', '.']
    &&& forall|i: int| 0 <= i < s.len() ==> !is_path_separator(#[trigger] s[i]) && s[i] != ':'
}

/// Where the last component of the text `s` starts: just past its last
/// '/', or at 0 when it has none.
pub open spec fn name_start(s: Seq<char>) -> int
    decreases s.len(),
{
    if s.len() == 0 {
        0
    } else if s.last() == '/' {
        s.len() as int
    } else {
        name_start(s.drop_last())
    }
}

/// The text after the last '/' of `s`.
pub open spec fn last_segment(s: Seq<char>) -> Seq<char> {
    s.subrange(name_start(s), s.len() as int)
}

/// Whether `s` is a path written with '/' alone: plain file names joined by
/// single '/', optionally after one leading '/'. Such a path has no prefix
/// on any platform, and its components are exactly those names.
pub open spec fn is_slash_path(s: Seq<char>) -> bool
    decreases s.len(),
{
    &&& 0 <= name_start(s) <= s.len()
    &&& is_plain_file_name(last_segment(s))
    &&& (name_start(s) <= 1 || is_slash_path(s.subrange(0, name_start(s) - 1)))
}

/// Whether the path `s` has no final component: it is empty, the root
/// "/", or (written without a backslash) it terminates in "..".
pub open spec fn has_no_file_name(s: Seq<char>) -> bool {
    ||| s.len() == 0
    ||| s == seq!['/']
    ||| !s.contains('\u{5c}') && (s == seq!['.', '.'] || (s.len() >= 3 && s.subrange(
        s.len() - 3,
        s.len() as int,
    ) == seq!['/', '.', '.']))
}

/// The text of an optional string.
pub open spec fn text_of(s: Option<String>) -> Option<Seq<char>> {
    match s {
        Some(t) => Some(t@),
        None => None,
    }
}

/// `name_start` lies within the text.
pub proof fn lemma_name_start_bounds(s: Seq<char>)
    ensures
        0 <= name_start(s) <= s.len(),
        name_start(s) > 0 ==> s[name_start(s) - 1] == '/',
        forall|i: int| name_start(s) <= i < s.len() ==> #[trigger] s[i] != '/',
    decreases s.len(),
{
    if s.len() > 0 && s.last() != '/' {
        lemma_name_start_bounds(s.drop_last());
        assert forall|i: int| name_start(s) <= i < s.len() implies #[trigger] s[i] != '/' by {
            if i < s.len() - 1 {
                assert(s.drop_last()[i] == s[i]);
            }
        }
    }
}

/// Text without '/' appended to `s` joins its last component.
pub proof fn lemma_name_start_append(s: Seq<char>, t: Seq<char>)
    requires
        forall|i: int| 0 <= i < t.len() ==> #[trigger] t[i] != '/',
    ensures
        name_start(s + t) == name_start(s),
    decreases t.len(),
{
    if t.len() == 0 {
        assert(s + t =~= s);
    } else {
        assert((s + t).drop_last() =~= s + t.drop_last());
        assert((s + t).last() == t.last());
        assert forall|i: int| 0 <= i < t.drop_last().len() implies #[trigger] t.drop_last()[i]
            != '/' by {
            assert(t.drop_last()[i] == t[i]);
        }
        lemma_name_start_append(s, t.drop_last());
    }
}

/// A plain file name, alone or after a root '/' or after a '/' path and a
/// '/', is a '/' path whose last component is that name.
pub proof fn lemma_slash_path_join(dir: Seq<char>, name: Seq<char>)
    requires
        is_plain_file_name(name),
        dir.len() == 0 || dir == seq!['/'] || is_slash_path(dir),
    ensures
        is_slash_path(if dir.len() == 0 || dir == seq!['/'] {
            dir + name
        } else {
            dir.push('/') + name
        }),
        last_segment(if dir.len() == 0 || dir == seq!['/'] {
            dir + name
        } else {
            dir.push('/') + name
        }) == name,
{
    let head = if dir.len() == 0 || dir == seq!['/'] {
        dir
    } else {
        dir.push('/')
    };
    let s = head + name;
    assert forall|i: int| 0 <= i < name.len() implies #[trigger] name[i] != '/' by {
        assert(!is_path_separator(name[i]));
    }
    lemma_name_start_append(head, name);
    if dir.len() == 0 {
        assert(head =~= Seq::<char>::empty());
    } else {
        assert(head.last() == '/');
        assert(head.drop_last().len() + 1 == head.len());
    }
    assert(name_start(head) == head.len());
    assert(s.subrange(name_start(s), s.len() as int) =~= name);
    if dir.len() > 0 && dir != seq!['/'] {
        assert(s.subrange(0, name_start(s) - 1) =~= dir);
    }
}

/// The last component of `path` through `Path::file_name`, converted to
/// text. As its documentation says, there is none for an empty path, for
/// the root, and for a path that terminates in "..". For a path written
/// with '/' alone the components are its names on every platform, so the
/// file name is the last of them. Other paths follow the platform's path
/// rules and are not stated.
#[verifier::external_body]
fn path_file_name(path: &str) -> (r: Option<String>)
    ensures
        has_no_file_name(path@) ==> r is None,
        is_slash_path(path@) ==> text_of(r) == Some(last_segment(path@)),
{
    std::path::Path::new(path).file_name().map(|name| name.to_string_lossy().into_owned())
}

/// The label of a document: its file name when that is known and not
/// empty, the project name otherwise.
pub open spec fn label_from(project_name: Seq<char>, file_name: Option<Seq<char>>) -> Seq<char> {
    match file_name {
        Some(n) => if n.len() > 0 {
            n
        } else {
            project_name
        },
        None => project_name,
    }
}

/// Chooses between the file name of a document and its project name.
pub fn document_label_from(project_name: &str, file_name: Option<String>) -> (label: String)
    ensures
        label@ == label_from(
            project_name@,
            match file_name {
                Some(n) => Some(n@),
                None => None,
            },
        ),
{
    match file_name {
        Some(n) => {
            if n.as_str().unicode_len() > 0 {
                n
            } else {
                project_name.to_owned()
            }
        },
        None => project_name.to_owned(),
    }
}

/// The label of a document: the file name of its path, or the project
/// name when it has no path or the path names no file. For a path written
/// with '/' alone the file name is its last component; for other paths the
/// component follows the platform's path rules, and the result is either a
/// non-empty name or the project name.
pub fn document_label(project_name: &str, path: Option<&str>) -> (label: String)
    ensures
        path is None ==> label@ == project_name@,
        path is Some && is_slash_path(path.unwrap()@) ==> label@ == last_segment(path.unwrap()@),
        path is Some && has_no_file_name(path.unwrap()@) ==> label@ == project_name@,
        label@ == project_name@ || label@.len() > 0,
{
    let file_name = match path {
        Some(p) => path_file_name(p),
        None => None,
    };
    document_label_from(project_name, file_name)
}

/// The window title for a document with label `label`.
pub open spec fn title_from(label: Seq<char>, dirty: bool) -> Seq<char> {
    (if dirty {
        label.push('*')
    } else {
        label
    }) + " - RONCAD"@
}

/// The window title for a document labelled `label`: an asterisk marks
/// unsaved changes.
pub fn viewport_title_from(label: &str, dirty: bool) -> (title: String)
    ensures
        title@ == title_from(label@, dirty),
{
    let mut title = label.to_owned();
    if dirty {
        push_char(&mut title, '*');
    }
    title.append(" - RONCAD");
    title
}

/// The window title for a document: its label, an asterisk when there
/// are unsaved changes, then " - RONCAD".
pub fn viewport_title(project_name: &str, path: Option<&str>, dirty: bool) -> (title: String)
    ensures
        path is None ==> title@ == title_from(project_name@, dirty),
        path is Some && is_slash_path(path.unwrap()@) ==> title@ == title_from(
            last_segment(path.unwrap()@),
            dirty,
        ),
        path is Some && has_no_file_name(path.unwrap()@) ==> title@ == title_from(
            project_name@,
            dirty,
        ),
        exists|label: Seq<char>| #[trigger] title_from(label, dirty) == title@ && (label
            == project_name@ || label.len() > 0) && (path is None ==> label == project_name@),
{
    let label = document_label(project_name, path);
    let title = viewport_title_from(label.as_str(), dirty);
    proof {
        assert(title_from(label@, dirty) == title@);
    }
    title
}

// ---------------------------------------------------------------------------
// Save paths

/// The file name to give a save path whose last component is `file_name`:
/// a name without any dot gains ".roncad.json"; otherwise the path is
/// kept as typed.
pub fn save_file_name(file_name: &str) -> (r: Option<String>)
    ensures
        file_name@.contains('.') ==> r is None,
        !file_name@.contains('.') ==> (r matches Some(n) && n@ == file_name@ + project_extension()),
{
    let cs = chars_of(file_name);
    let mut i: usize = 0;
    while i < cs.len()
        invariant
            cs@ == file_name@,
            i <= cs@.len(),
            forall|k: int| 0 <= k < i ==> cs@[k] != '.',
        decreases cs@.len() - i,
    {
        if cs[i] == '.' {
            proof {
                assert(file_name@[i as int] == '.');
            }
            return None;
        }
        i = i + 1;
    }
    let mut n = file_name.to_owned();
    n.append(".roncad.json");
    Some(n)
}

/// `path` with `extension` set as the extension of its last component,
/// through `Path::with_extension`. As its documentation shows, a last
/// component without a dot gains "." and `extension`: for a path written
/// with '/' alone that is an append to the text. Other paths follow the
/// platform's path rules and are not stated. `PathBuf::set_extension`
/// panics on an extension holding a path separator, which `requires` rules
/// out.
#[verifier::external_body]
fn path_with_extension(path: &str, extension: &str) -> (r: String)
    requires
        forall|i: int| 0 <= i < extension@.len() ==> !is_path_separator(#[trigger] extension@[i]),
    ensures
        is_slash_path(path@) && !last_segment(path@).contains('.') && extension@.len() > 0 && (
        forall|i: int| 0 <= i < extension@.len() ==> !is_path_separator(#[trigger] extension@[i]))
            ==> r@ == path@ + seq!['.'] + extension@,
{
    std::path::Path::new(path).with_extension(extension).to_string_lossy().into_owned()
}

/// The save path that `path`, written with '/' alone, becomes: unchanged
/// when its file name has a dot, with ".roncad.json" appended otherwise.
pub open spec fn normalized_save_path(path: Seq<char>) -> Seq<char> {
    if last_segment(path).contains('.') {
        path
    } else {
        path + project_extension()
    }
}

/// Appends the default extension to a save path typed without one: when
/// the last component of `path` has no dot it gains ".roncad.json", the
/// directory part kept; a path with no last component or whose last
/// component has a dot is returned unchanged. Stated for the paths whose
/// last component is the same on every platform: those with none, and
/// those written with '/' alone.
pub fn normalize_project_save_path(path: String) -> (normalized: String)
    ensures
        has_no_file_name(path@) ==> normalized@ == path@,
        is_slash_path(path@) ==> normalized@ == normalized_save_path(path@),
{
    let file_name = match path_file_name(path.as_str()) {
        Some(n) => n,
        None => return path,
    };
    match save_file_name(file_name.as_str()) {
        Some(_) => {
            let extension = "roncad.json";
            proof {
                reveal_strlit("roncad.json");
                reveal_strlit(".roncad.json");
                assert(seq!['.'] + extension@ =~= project_extension());
                assert forall|i: int| 0 <= i < extension@.len() implies !is_path_separator(
                    #[trigger] extension@[i],
                ) by {}
            }
            let r = path_with_extension(path.as_str(), extension);
            proof {
                if is_slash_path(path@) {
                    assert(path@ + seq!['.'] + extension@ =~= path@ + project_extension());
                }
            }
            r
        },
        None => path,
    }
}

/// A plain file name with the project extension appended is still a plain
/// file name.
proof fn lemma_extended_name_is_plain(name: Seq<char>)
    requires
        is_plain_file_name(name),
    ensures
        is_plain_file_name(name + project_extension()),
{
    reveal_strlit(".roncad.json");
    let ext = project_extension();
    let s = name + ext;
    assert(s.len() > 2);
    assert(s != seq!['.']) by {
        assert(seq!['.'].len() == 1);
    }
    assert(s != seq!['.', '.']) by {
        assert(seq!['.', '.'].len() == 2);
    }
    assert forall|i: int| 0 <= i < s.len() implies !is_path_separator(#[trigger] s[i]) && s[i]
        != ':' by {
        if i >= name.len() {
            assert(s[i] == ext[i - name.len()]);
        }
    }
}

/// Normalising a save path written with '/' alone gives a path of the same
/// kind whose file name has a dot, so normalising it again changes nothing;
/// the directory part is kept.
pub proof fn lemma_normalized_save_path_is_stable(path: Seq<char>)
    requires
        is_slash_path(path),
    ensures
        is_slash_path(normalized_save_path(path)),
        last_segment(normalized_save_path(path)).contains('.'),
        normalized_save_path(normalized_save_path(path)) == normalized_save_path(path),
        normalized_save_path(path).subrange(0, name_start(path)) == path.subrange(
            0,
            name_start(path),
        ),
{
    reveal_strlit(".roncad.json");
    let ext = project_extension();
    lemma_name_start_bounds(path);
    if !last_segment(path).contains('.') {
        let q = path + ext;
        assert forall|i: int| 0 <= i < ext.len() implies #[trigger] ext[i] != '/' by {}
        lemma_name_start_append(path, ext);
        assert(last_segment(q) =~= last_segment(path) + ext);
        lemma_extended_name_is_plain(last_segment(path));
        if name_start(path) > 1 {
            assert(q.subrange(0, name_start(q) - 1) =~= path.subrange(0, name_start(path) - 1));
        }
        assert(is_slash_path(q));
        assert(last_segment(q)[last_segment(path).len() as int] == '.');
        assert(q.subrange(0, name_start(path)) =~= path.subrange(0, name_start(path)));
    }
}

// ---------------------------------------------------------------------------
// Recent files

/// Whether `a` and `b` name the same path, through `Path`'s equality,
/// which compares path components. Identical text always names the same
/// path. Two paths written with '/' alone have their names as components
/// on every platform, so they are the same path exactly when their texts
/// agree. Other paths follow the platform's path rules.
#[verifier::external_body]
fn same_path(a: &str, b: &str) -> (r: bool)
    ensures
        a@ == b@ ==> r,
        is_slash_path(a@) && is_slash_path(b@) ==> (r <==> a@ == b@),
{
    std::path::Path::new(a) == std::path::Path::new(b)
}

/// The text of each path in `v`.
pub open spec fn texts(v: Seq<String>) -> Seq<Seq<char>> {
    v.map_values(|p: String| p@)
}

/// The entries of `recent` whose `same` flag is false, in order.
pub open spec fn kept_entries(recent: Seq<Seq<char>>, same: Seq<bool>) -> Seq<Seq<char>>
    decreases recent.len(),
{
    if recent.len() == 0 {
        recent
    } else {
        let rest = kept_entries(recent.drop_last(), same.drop_last());
        if same.last() {
            rest
        } else {
            rest.push(recent.last())
        }
    }
}

/// `s` cut to at most `MAX_RECENT_FILES` entries.
pub open spec fn capped(s: Seq<Seq<char>>) -> Seq<Seq<char>> {
    if s.len() > MAX_RECENT_FILES {
        s.subrange(0, MAX_RECENT_FILES as int)
    } else {
        s
    }
}

/// The recent-files list after opening `path`, given for each current
/// entry whether it names the same path: `path` first, then the other
/// entries in their old order, at most `MAX_RECENT_FILES` in all.
pub open spec fn pushed_recent(
    recent: Seq<Seq<char>>,
    path: Seq<char>,
    same: Seq<bool>,
) -> Seq<Seq<char>> {
    capped(seq![path] + kept_entries(recent, same))
}

/// Moves `path` to the front of the recent-files list, dropping the entries
/// flagged in `same` (those naming the same path) and keeping at most
/// `MAX_RECENT_FILES` entries.
pub fn push_recent_file_with(recent: &mut Vec<String>, path: String, same: &[bool])
    requires
        same@.len() == old(recent)@.len(),
    ensures
        texts(final(recent)@) == pushed_recent(texts(old(recent)@), path@, same@),
{
    let ghost old_texts = texts(recent@);
    let mut next: Vec<String> = Vec::new();
    next.push(path);
    let ghost first = next@[0]@;
    let mut i: usize = 0;
    while i < recent.len()
        invariant
            recent@ == old(recent)@,
            old_texts == texts(recent@),
            same@.len() == recent@.len(),
            i <= recent@.len(),
            next@.len() >= 1,
            texts(next@) == seq![first] + kept_entries(
                old_texts.subrange(0, i as int),
                same@.subrange(0, i as int),
            ),
        decreases recent@.len() - i,
    {
        proof {
            assert(old_texts.subrange(0, i + 1).drop_last() =~= old_texts.subrange(0, i as int));
            assert(same@.subrange(0, i + 1).drop_last() =~= same@.subrange(0, i as int));
            assert(old_texts.subrange(0, i + 1).last() == recent@[i as int]@);
        }
        let ghost prev = texts(next@);
        proof {
            assert(!same@[i as int] ==> kept_entries(old_texts.subrange(0, i + 1), same@.subrange(0, i + 1))
                == kept_entries(old_texts.subrange(0, i as int), same@.subrange(0, i as int)).push(
                recent@[i as int]@));
            assert(same@[i as int] ==> kept_entries(old_texts.subrange(0, i + 1), same@.subrange(0, i + 1))
                == kept_entries(old_texts.subrange(0, i as int), same@.subrange(0, i as int)));
        }
        if !same[i] {
            let entry = recent[i].clone();
            next.push(entry);
            proof {
                assert(texts(next@) =~= prev.push(recent@[i as int]@));
                assert(texts(next@) =~= seq![first] + kept_entries(
                    old_texts.subrange(0, i + 1),
                    same@.subrange(0, i + 1),
                ));
            }
        } else {
            proof {
                assert(texts(next@) =~= seq![first] + kept_entries(
                    old_texts.subrange(0, i + 1),
                    same@.subrange(0, i + 1),
                ));
            }
        }
        i = i + 1;
    }
    proof {
        assert(old_texts.subrange(0, recent@.len() as int) =~= old_texts);
        assert(same@.subrange(0, recent@.len() as int) =~= same@);
    }
    if next.len() > MAX_RECENT_FILES {
        next.truncate(MAX_RECENT_FILES);
        proof {
            assert(texts(next@) =~= pushed_recent(old_texts, path@, same@));
        }
    }
    *recent = next;
}

/// For each entry of `recent`, whether its text is `path`.
pub open spec fn same_flags(recent: Seq<Seq<char>>, path: Seq<char>) -> Seq<bool> {
    recent.map_values(|r: Seq<char>| r == path)
}

/// Whether every entry of `v` is a path written with '/' alone.
pub open spec fn all_slash_paths(v: Seq<String>) -> bool {
    forall|i: int| 0 <= i < v.len() ==> is_slash_path(#[trigger] v[i]@)
}

/// Moves `path` to the front of the recent-files list, dropping entries
/// that name the same path and keeping at most `MAX_RECENT_FILES` entries;
/// the other entries keep their order. Identical text always names the
/// same path; among paths written with '/' alone only identical text does,
/// and beyond those the platform's path rules decide.
pub fn push_recent_file(recent: &mut Vec<String>, path: String)
    ensures
        exists|same: Seq<bool>|
            same.len() == old(recent)@.len() && (forall|i: int|
                0 <= i < same.len() && #[trigger] old(recent)@[i]@ == path@ ==> same[i])
                && texts(final(recent)@) == pushed_recent(texts(old(recent)@), path@, same),
        is_slash_path(path@) && all_slash_paths(old(recent)@) ==> texts(final(recent)@)
            == pushed_recent(
            texts(old(recent)@),
            path@,
            same_flags(texts(old(recent)@), path@),
        ),
{
    let mut same: Vec<bool> = Vec::new();
    let mut i: usize = 0;
    while i < recent.len()
        invariant
            i <= recent@.len(),
            same@.len() == i,
            forall|k: int| 0 <= k < i && #[trigger] recent@[k]@ == path@ ==> same@[k],
            forall|k: int|
                0 <= k < i && is_slash_path(path@) && is_slash_path(#[trigger] recent@[k]@)
                    ==> same@[k] == (recent@[k]@ == path@),
        decreases recent@.len() - i,
    {
        same.push(same_path(recent[i].as_str(), path.as_str()));
        i = i + 1;
    }
    let ghost path_text = path@;
    proof {
        if is_slash_path(path_text) && all_slash_paths(recent@) {
            assert(same@ =~= same_flags(texts(recent@), path_text));
        }
    }
    push_recent_file_with(recent, path, &same);
    proof {
        assert(same@.len() == old(recent)@.len() && (forall|i: int|
            0 <= i < same@.len() && #[trigger] old(recent)@[i]@ == path_text ==> same@[i])
            && texts(recent@) == pushed_recent(texts(old(recent)@), path_text, same@));
    }
}

proof fn lemma_kept_entries(recent: Seq<Seq<char>>, same: Seq<bool>, path: Seq<char>)
    requires
        same.len() == recent.len(),
        forall|i: int| 0 <= i < recent.len() && #[trigger] recent[i] == path ==> same[i],
    ensures
        recent.no_duplicates() ==> kept_entries(recent, same).no_duplicates(),
        forall|x: Seq<char>| #[trigger] kept_entries(recent, same).contains(x) ==> recent.contains(x)
            && x != path,
        kept_entries(recent, same).len() <= recent.len(),
    decreases recent.len(),
{
    if recent.len() > 0 {
        let r = recent.drop_last();
        let sm = same.drop_last();
        assert forall|i: int| 0 <= i < r.len() && #[trigger] r[i] == path implies sm[i] by {
            assert(recent[i] == r[i]);
        }
        lemma_kept_entries(r, sm, path);
        let rest = kept_entries(r, sm);
        assert forall|x: Seq<char>| #[trigger] kept_entries(recent, same).contains(x) implies recent.contains(x)
            && x != path by {
            if rest.contains(x) {
                let k = choose|k: int| 0 <= k < r.len() && r[k] == x;
                assert(recent[k] == x);
            } else {
                assert(x == recent.last());
                assert(recent[recent.len() - 1] == x);
                assert(!same.last());
            }
        }
        if recent.no_duplicates() && !same.last() {
            assert(r.no_duplicates());
            assert(!rest.contains(recent.last())) by {
                if rest.contains(recent.last()) {
                    let k = choose|k: int| 0 <= k < r.len() && r[k] == recent.last();
                    assert(recent[k] == recent[recent.len() - 1]);
                }
            }
            let n = rest.push(recent.last());
            assert forall|a: int, b: int| 0 <= a < n.len() && 0 <= b < n.len() && a != b implies n[a]
                != n[b] by {
                if a == rest.len() {
                    assert(rest.contains(n[b]) || n[b] != n[a]);
                } else if b == rest.len() {
                    assert(rest.contains(n[a]) || n[b] != n[a]);
                }
            }
        }
    }
}

/// Opening a path puts it first in the recent-files list, caps the list at
/// `MAX_RECENT_FILES` entries, and never leaves a second entry with the same
/// text; every other entry was already in the list.
pub proof fn lemma_pushed_recent(recent: Seq<Seq<char>>, path: Seq<char>, same: Seq<bool>)
    requires
        same.len() == recent.len(),
        forall|i: int| 0 <= i < recent.len() && #[trigger] recent[i] == path ==> same[i],
        recent.no_duplicates(),
    ensures
        pushed_recent(recent, path, same).len() >= 1,
        pushed_recent(recent, path, same)[0] == path,
        pushed_recent(recent, path, same).len() <= MAX_RECENT_FILES,
        pushed_recent(recent, path, same).no_duplicates(),
        forall|x: Seq<char>| #[trigger] pushed_recent(recent, path, same).contains(x) ==> x == path
            || recent.contains(x),
{
    lemma_kept_entries(recent, same, path);
    let k = kept_entries(recent, same);
    let all = seq![path] + k;
    assert(all[0] == path);
    assert(all.no_duplicates()) by {
        assert forall|a: int, b: int| 0 <= a < all.len() && 0 <= b < all.len() && a != b implies all[a]
            != all[b] by {
            if a == 0 {
                assert(all[b] == k[b - 1]);
                assert(k.contains(k[b - 1]));
            } else if b == 0 {
                assert(all[a] == k[a - 1]);
                assert(k.contains(k[a - 1]));
            } else {
                assert(all[a] == k[a - 1]);
                assert(all[b] == k[b - 1]);
            }
        }
    }
    assert forall|x: Seq<char>| #[trigger] all.contains(x) implies x == path || recent.contains(x) by {
        let j = choose|j: int| 0 <= j < all.len() && all[j] == x;
        if j > 0 {
            assert(k[j - 1] == x);
            assert(k.contains(x));
        }
    }
    if all.len() > MAX_RECENT_FILES {
        let c = all.subrange(0, MAX_RECENT_FILES as int);
        assert forall|a: int, b: int| 0 <= a < c.len() && 0 <= b < c.len() && a != b implies c[a]
            != c[b] by {
            assert(c[a] == all[a]);
            assert(c[b] == all[b]);
        }
        assert forall|x: Seq<char>| #[trigger] c.contains(x) implies x == path || recent.contains(x) by {
            let j = choose|j: int| 0 <= j < c.len() && c[j] == x;
            assert(all[j] == x);
            assert(all.contains(x));
        }
    }
}

/// The entries of `recent` other than `path`, in order.
pub open spec fn without(recent: Seq<Seq<char>>, path: Seq<char>) -> Seq<Seq<char>> {
    kept_entries(recent, same_flags(recent, path))
}

/// The distinct entries of `s`, each at its first occurrence, in order.
pub open spec fn first_occurrences(s: Seq<Seq<char>>) -> Seq<Seq<char>>
    decreases s.len(),
{
    if s.len() == 0 {
        s
    } else {
        seq![s[0]] + without(first_occurrences(s.drop_first()), s[0])
    }
}

proof fn lemma_without_unfold(l: Seq<Seq<char>>, x: Seq<char>)
    requires
        l.len() > 0,
    ensures
        without(l, x) == if l.last() == x {
            without(l.drop_last(), x)
        } else {
            without(l.drop_last(), x).push(l.last())
        },
{
    assert(same_flags(l, x).drop_last() =~= same_flags(l.drop_last(), x));
    assert(same_flags(l, x).last() == (l.last() == x));
}

proof fn lemma_without_absent(l: Seq<Seq<char>>, x: Seq<char>)
    requires
        !l.contains(x),
    ensures
        without(l, x) == l,
    decreases l.len(),
{
    if l.len() > 0 {
        lemma_without_unfold(l, x);
        assert(l[l.len() - 1] == l.last());
        assert(!l.drop_last().contains(x)) by {
            if l.drop_last().contains(x) {
                let k = choose|k: int| 0 <= k < l.drop_last().len() && l.drop_last()[k] == x;
                assert(l[k] == x);
            }
        }
        lemma_without_absent(l.drop_last(), x);
        assert(l.drop_last().push(l.last()) =~= l);
    }
}

proof fn lemma_without_len(l: Seq<Seq<char>>, x: Seq<char>)
    requires
        l.no_duplicates(),
    ensures
        without(l, x).len() + 1 >= l.len(),
    decreases l.len(),
{
    if l.len() > 0 {
        lemma_without_unfold(l, x);
        let d = l.drop_last();
        assert(d.no_duplicates()) by {
            assert forall|a: int, b: int| 0 <= a < d.len() && 0 <= b < d.len() && a != b implies d[a]
                != d[b] by {
                assert(d[a] == l[a] && d[b] == l[b]);
            }
        }
        if l.last() == x {
            assert(!d.contains(x)) by {
                if d.contains(x) {
                    let k = choose|k: int| 0 <= k < d.len() && d[k] == x;
                    assert(l[k] == l[l.len() - 1]);
                }
            }
            lemma_without_absent(d, x);
        } else {
            lemma_without_len(d, x);
        }
    }
}

proof fn lemma_without_prefix(l: Seq<Seq<char>>, x: Seq<char>, k: int)
    requires
        0 <= k <= l.len(),
    ensures
        without(l.subrange(0, k), x).len() <= without(l, x).len(),
        without(l, x).subrange(0, without(l.subrange(0, k), x).len() as int) == without(
            l.subrange(0, k),
            x,
        ),
    decreases l.len(),
{
    if k == l.len() {
        assert(l.subrange(0, k) =~= l);
        assert(without(l, x).subrange(0, without(l, x).len() as int) =~= without(l, x));
    } else {
        let d = l.drop_last();
        assert(d.subrange(0, k) =~= l.subrange(0, k));
        lemma_without_prefix(d, x, k);
        lemma_without_unfold(l, x);
        let p = without(l.subrange(0, k), x);
        if l.last() != x {
            assert(without(l, x).subrange(0, p.len() as int) =~= without(d, x).subrange(
                0,
                p.len() as int,
            ));
        }
    }
}

proof fn lemma_without_facts(l: Seq<Seq<char>>, x: Seq<char>)
    ensures
        l.no_duplicates() ==> without(l, x).no_duplicates(),
        forall|y: Seq<char>| #[trigger] without(l, x).contains(y) ==> l.contains(y) && y != x,
{
    let f = same_flags(l, x);
    assert forall|i: int| 0 <= i < l.len() && #[trigger] l[i] == x implies f[i] by {}
    lemma_kept_entries(l, f, x);
}

/// The distinct entries of a list, taken at their first occurrences, hold
/// no repeats and come from the list.
pub proof fn lemma_first_occurrences(s: Seq<Seq<char>>)
    ensures
        first_occurrences(s).no_duplicates(),
        forall|y: Seq<char>| #[trigger] first_occurrences(s).contains(y) ==> s.contains(y),
        forall|y: Seq<char>| #[trigger] s.contains(y) ==> first_occurrences(s).contains(y),
    decreases s.len(),
{
    if s.len() > 0 {
        let t = s.drop_first();
        let rest = first_occurrences(t);
        lemma_first_occurrences(t);
        lemma_without_facts(rest, s[0]);
        let w = without(rest, s[0]);
        let all = seq![s[0]] + w;
        assert(all.no_duplicates()) by {
            assert forall|a: int, b: int| 0 <= a < all.len() && 0 <= b < all.len() && a != b implies all[a]
                != all[b] by {
                if a == 0 {
                    assert(all[b] == w[b - 1]);
                    assert(w.contains(w[b - 1]));
                } else if b == 0 {
                    assert(all[a] == w[a - 1]);
                    assert(w.contains(w[a - 1]));
                } else {
                    assert(all[a] == w[a - 1]);
                    assert(all[b] == w[b - 1]);
                }
            }
        }
        assert forall|y: Seq<char>| #[trigger] all.contains(y) implies s.contains(y) by {
            let j = choose|j: int| 0 <= j < all.len() && all[j] == y;
            if j == 0 {
                assert(s[0] == y);
            } else {
                assert(w[j - 1] == y);
                assert(w.contains(y));
                let m = choose|m: int| 0 <= m < t.len() && t[m] == y;
                assert(s[m + 1] == y);
            }
        }
        assert forall|y: Seq<char>| #[trigger] s.contains(y) implies all.contains(y) by {
            if y == s[0] {
                assert(all[0] == y);
            } else {
                let m = choose|m: int| 0 <= m < s.len() && s[m] == y;
                assert(t[m - 1] == y);
                assert(t.contains(y));
                assert(rest.contains(y));
                let f = same_flags(rest, s[0]);
                assert(w.contains(y)) by {
                    lemma_without_keeps(rest, s[0], y);
                }
                let q = choose|q: int| 0 <= q < w.len() && w[q] == y;
                assert(all[q + 1] == y);
            }
        }
    }
}

proof fn lemma_without_keeps(l: Seq<Seq<char>>, x: Seq<char>, y: Seq<char>)
    requires
        l.contains(y),
        y != x,
    ensures
        without(l, x).contains(y),
    decreases l.len(),
{
    lemma_without_unfold(l, x);
    let d = l.drop_last();
    if l.last() == y {
        let w = without(l, x);
        assert(w[w.len() - 1] == y);
    } else {
        let k = choose|k: int| 0 <= k < l.len() && l[k] == y;
        assert(k < l.len() - 1);
        assert(d[k] == y);
        lemma_without_keeps(d, x, y);
        let w = without(d, x);
        let q = choose|q: int| 0 <= q < w.len() && w[q] == y;
        if l.last() != x {
            assert(w.push(l.last())[q] == y);
        }
    }
}

/// Capping a list before moving `x` to its front gives the same capped
/// list as capping after, when the list holds no repeats.
proof fn lemma_capped_push(f: Seq<Seq<char>>, x: Seq<char>)
    requires
        f.no_duplicates(),
    ensures
        capped(seq![x] + without(capped(f), x)) == capped(seq![x] + without(f, x)),
{
    if f.len() > MAX_RECENT_FILES {
        let c = capped(f);
        let m = MAX_RECENT_FILES as int;
        assert(c =~= f.subrange(0, m));
        assert(c.no_duplicates()) by {
            assert forall|a: int, b: int| 0 <= a < c.len() && 0 <= b < c.len() && a != b implies c[a]
                != c[b] by {
                assert(c[a] == f[a] && c[b] == f[b]);
            }
        }
        lemma_without_len(c, x);
        lemma_without_prefix(f, x, m);
        let wc = without(c, x);
        let wf = without(f, x);
        assert(wf.subrange(0, wc.len() as int) == wc);
        let a = seq![x] + wc;
        let b = seq![x] + wf;
        assert(a.len() >= m && b.len() >= m);
        assert(capped(a) =~= a.subrange(0, m));
        assert(capped(b) =~= b.subrange(0, m));
        assert(a.subrange(0, m) =~= b.subrange(0, m)) by {
            assert forall|i: int| 0 <= i < m implies a.subrange(0, m)[i] == b.subrange(0, m)[i] by {
                if i > 0 {
                    assert(wc[i - 1] == wf.subrange(0, wc.len() as int)[i - 1]);
                }
            }
        }
    } else {
        assert(capped(f) == f);
    }
}

/// Rebuilds a stored recent-files list the way the shell loads it: the
/// entries are pushed last to first, so the first entry ends up first and
/// later repeats of a path give way to its earliest position.
pub fn dedupe_recent_files(paths: Vec<String>) -> (recent: Vec<String>)
    ensures
        all_slash_paths(paths@) ==> texts(recent@) == capped(first_occurrences(texts(paths@))),
        recent@.len() <= MAX_RECENT_FILES,
        texts(recent@).no_duplicates(),
        paths@.len() > 0 ==> recent@.len() > 0 && recent@[0]@ == paths@[0]@,
        forall|x: Seq<char>| #[trigger] texts(recent@).contains(x) ==> texts(paths@).contains(x),
{
    let mut recent: Vec<String> = Vec::new();
    let mut i: usize = paths.len();
    proof {
        assert(texts(recent@) =~= Seq::<Seq<char>>::empty());
        assert(texts(paths@).subrange(i as int, paths@.len() as int) =~= Seq::<Seq<char>>::empty());
    }
    while i > 0
        invariant
            i <= paths@.len(),
            recent@.len() <= MAX_RECENT_FILES,
            texts(recent@).no_duplicates(),
            i < paths@.len() ==> recent@.len() > 0 && recent@[0]@ == paths@[i as int]@,
            forall|x: Seq<char>| #[trigger] texts(recent@).contains(x) ==> texts(paths@).contains(x),
            all_slash_paths(paths@) ==> texts(recent@) == capped(
                first_occurrences(texts(paths@).subrange(i as int, paths@.len() as int)),
            ),
        decreases i,
    {
        i = i - 1;
        let ghost before = texts(recent@);
        proof {
            if all_slash_paths(paths@) {
                assert forall|k: int| 0 <= k < recent@.len() implies is_slash_path(
                    #[trigger] recent@[k]@,
                ) by {
                    assert(texts(recent@)[k] == recent@[k]@);
                    assert(texts(recent@).contains(recent@[k]@));
                    let m = choose|m: int| 0 <= m < texts(paths@).len() && texts(paths@)[m]
                        == recent@[k]@;
                    assert(paths@[m]@ == recent@[k]@);
                }
            }
        }
        let path = paths[i].clone();
        push_recent_file(&mut recent, path);
        proof {
            if all_slash_paths(paths@) {
                let tail = texts(paths@).subrange(i + 1, paths@.len() as int);
                let whole = texts(paths@).subrange(i as int, paths@.len() as int);
                assert(whole.drop_first() =~= tail);
                assert(whole[0] == paths@[i as int]@);
                lemma_first_occurrences(tail);
                lemma_capped_push(first_occurrences(tail), paths@[i as int]@);
            }
        }
        proof {
            let same = choose|same: Seq<bool>|
                same.len() == before.len() && (forall|j: int|
                    0 <= j < same.len() && #[trigger] before[j] == paths@[i as int]@ ==> same[j])
                    && texts(recent@) == pushed_recent(before, paths@[i as int]@, same);
            assert forall|j: int| 0 <= j < before.len() && #[trigger] before[j] == paths@[i as int]@
                implies same[j] by {
            }
            lemma_pushed_recent(before, paths@[i as int]@, same);
            assert(recent@[0]@ == texts(recent@)[0]);
            assert forall|x: Seq<char>| #[trigger] texts(recent@).contains(x) implies texts(paths@).contains(x) by {
                if x == paths@[i as int]@ {
                    assert(texts(paths@)[i as int] == x);
                }
            }
        }
    }
    proof {
        assert(texts(paths@).subrange(0, paths@.len() as int) =~= texts(paths@));
    }
    recent
}

// ---------------------------------------------------------------------------
// Settings

/// The settings file schema version this library reads and writes.
pub const APP_SETTINGS_SCHEMA_VERSION: u32 = 1;

/// What the shell remembers between runs.
#[derive(Clone, Debug, PartialEq, Eq)]
pub struct AppSettings {
    pub recent_files: Vec<String>,
    pub last_project: Option<String>,
}

impl Default for AppSettings {
    fn default() -> (s: Self)
        ensures
            s.recent_files@.len() == 0,
            s.last_project is None,
    {
        AppSettings { recent_files: Vec::new(), last_project: None }
    }
}

/// Why stored settings were refused.
#[derive(Clone, Copy, Debug, PartialEq, Eq, Structural)]
pub enum SettingsError {
    UnsupportedSchemaVersion { found: u32, expected: u32 },
}

/// Accepts stored settings of the current schema version and refuses any
/// other version.
pub fn settings_from_stored(
    schema_version: u32,
    recent_files: Vec<String>,
    last_project: Option<String>,
) -> (r: Result<AppSettings, SettingsError>)
    ensures
        schema_version == APP_SETTINGS_SCHEMA_VERSION ==> (r matches Ok(s) && s.recent_files
            == recent_files && s.last_project == last_project),
        schema_version != APP_SETTINGS_SCHEMA_VERSION ==> r == Err::<AppSettings, SettingsError>(
            SettingsError::UnsupportedSchemaVersion {
                found: schema_version,
                expected: APP_SETTINGS_SCHEMA_VERSION,
            },
        ),
{
    if schema_version != APP_SETTINGS_SCHEMA_VERSION {
        return Err(
            SettingsError::UnsupportedSchemaVersion {
                found: schema_version,
                expected: APP_SETTINGS_SCHEMA_VERSION,
            },
        );
    }
    Ok(AppSettings { recent_files, last_project })
}

// ---------------------------------------------------------------------------
// Dialogs guarding unsaved changes

/// A document action that waits until unsaved changes are dealt with.
#[derive(Clone, Debug, PartialEq, Eq)]
pub enum PendingDocumentAction {
    OpenProject,
    OpenPath(String),
    Quit,
}

impl PendingDocumentAction {
    /// The heading of the dialog that asks about unsaved changes.
    pub fn heading(&self) -> (s: &'static str)
        ensures
            !(self is Quit) ==> s@ == "Open Another Project?"@,
            self is Quit ==> s@ == "Quit RONCAD?"@,
    {
        match self {
            PendingDocumentAction::OpenProject | PendingDocumentAction::OpenPath(_) =>
                "Open Another Project?",
            PendingDocumentAction::Quit => "Quit RONCAD?",
        }
    }

    /// The explanation shown under the heading.
    pub fn description(&self) -> (s: &'static str)
        ensures
            !(self is Quit) ==> s@
                == "Save changes to the current project before opening a different file."@,
            self is Quit ==> s@ == "Save changes to the current project before closing the app."@,
    {
        match self {
            PendingDocumentAction::OpenProject | PendingDocumentAction::OpenPath(_) =>
                "Save changes to the current project before opening a different file.",
            PendingDocumentAction::Quit =>
                "Save changes to the current project before closing the app.",
        }
    }
}

/// Whether the path dialog opens or saves a project.
#[derive(Clone, Copy, Debug, PartialEq, Eq, Structural)]
pub enum FileDialogMode {
    Open,
    SaveAs,
}

/// The typed-path dialog for opening or saving a project.
#[derive(Debug)]
pub struct FileDialogState {
    pub mode: FileDialogMode,
    pub path_text: String,
    pub error: Option<String>,
    pub request_focus: bool,
    pub follow_up: Option<PendingDocumentAction>,
}

impl FileDialogState {
    /// A fresh dialog: no error yet, and the path field asks for focus.
    pub fn new(
        mode: FileDialogMode,
        path_text: String,
        follow_up: Option<PendingDocumentAction>,
    ) -> (d: Self)
        ensures
            d.mode == mode,
            d.path_text == path_text,
            d.error is None,
            d.request_focus,
            d.follow_up == follow_up,
    {
        FileDialogState { mode, path_text, error: None, request_focus: true, follow_up }
    }
}

impl FileDialogMode {
    /// The dialog's heading.
    pub fn heading(self) -> (s: &'static str)
        ensures
            self == FileDialogMode::Open ==> s@ == "Open Project"@,
            self == FileDialogMode::SaveAs ==> s@ == "Save Project As"@,
    {
        match self {
            FileDialogMode::Open => "Open Project",
            FileDialogMode::SaveAs => "Save Project As",
        }
    }

    /// The label of the dialog's confirming button.
    pub fn confirm_label(self) -> (s: &'static str)
        ensures
            self == FileDialogMode::Open ==> s@ == "Open"@,
            self == FileDialogMode::SaveAs ==> s@ == "Save"@,
    {
        match self {
            FileDialogMode::Open => "Open",
            FileDialogMode::SaveAs => "Save",
        }
    }
}

/// Whether `c` is white space: it has the Unicode White_Space property,
/// which is what `char::is_whitespace` tests. The property holds for these
/// 25 code points.
pub open spec fn white_space(c: char) -> bool {
    let v = c as u32;
    ||| 0x9 <= v <= 0xd
    ||| v == 0x20
    ||| v == 0x85
    ||| v == 0xa0
    ||| v == 0x1680
    ||| 0x2000 <= v <= 0x200a
    ||| v == 0x2028
    ||| v == 0x2029
    ||| v == 0x202f
    ||| v == 0x205f
    ||| v == 0x3000
}

/// Whether `c` is white space (the Unicode White_Space property).
fn is_white_space(c: char) -> (r: bool)
    ensures
        r == white_space(c),
{
    let v: u32 = c as u32;
    (0x9 <= v && v <= 0xd) || v == 0x20 || v == 0x85 || v == 0xa0 || v == 0x1680 || (0x2000 <= v
        && v <= 0x200a) || v == 0x2028 || v == 0x2029 || v == 0x202f || v == 0x205f || v == 0x3000
}

/// Where the text without its leading white space starts.
pub open spec fn trim_start(s: Seq<char>) -> int
    decreases s.len(),
{
    if s.len() > 0 && white_space(s[0]) {
        1 + trim_start(s.drop_first())
    } else {
        0
    }
}

/// Where the text without its trailing white space ends.
pub open spec fn trim_end(s: Seq<char>) -> int
    decreases s.len(),
{
    if s.len() > 0 && white_space(s.last()) {
        trim_end(s.drop_last())
    } else {
        s.len() as int
    }
}

/// The text without leading and trailing white space.
pub open spec fn trimmed(s: Seq<char>) -> Seq<char> {
    let start = trim_start(s);
    let end = trim_end(s);
    if start < end {
        s.subrange(start, end)
    } else {
        Seq::empty()
    }
}

proof fn lemma_trim_start_bound(s: Seq<char>)
    ensures
        0 <= trim_start(s) <= s.len(),
        forall|i: int| 0 <= i < trim_start(s) ==> white_space(#[trigger] s[i]),
        trim_start(s) < s.len() ==> !white_space(s[trim_start(s)]),
    decreases s.len(),
{
    if s.len() > 0 && white_space(s[0]) {
        lemma_trim_start_bound(s.drop_first());
        assert forall|i: int| 0 <= i < trim_start(s) implies white_space(#[trigger] s[i]) by {
            if i > 0 {
                assert(s.drop_first()[i - 1] == s[i]);
            }
        }
        if trim_start(s) < s.len() {
            assert(s.drop_first()[trim_start(s) - 1] == s[trim_start(s)]);
        }
    }
}

proof fn lemma_trim_end_bound(s: Seq<char>)
    ensures
        0 <= trim_end(s) <= s.len(),
        forall|i: int| trim_end(s) <= i < s.len() ==> white_space(#[trigger] s[i]),
        trim_end(s) > 0 ==> !white_space(s[trim_end(s) - 1]),
    decreases s.len(),
{
    if s.len() > 0 && white_space(s.last()) {
        lemma_trim_end_bound(s.drop_last());
        assert forall|i: int| trim_end(s) <= i < s.len() implies white_space(#[trigger] s[i]) by {
            if i < s.len() - 1 {
                assert(s.drop_last()[i] == s[i]);
            }
        }
        if trim_end(s) > 0 {
            assert(s.drop_last()[trim_end(s) - 1] == s[trim_end(s) - 1]);
        }
    }
}

/// The white-space-free start position, found by scanning forward.
fn scan_trim_start(cs: &Vec<char>) -> (i: usize)
    ensures
        i == trim_start(cs@),
{
    let mut i: usize = 0;
    proof {
        assert(cs@.subrange(0, cs@.len() as int) =~= cs@);
    }
    while i < cs.len() && is_white_space(cs[i])
        invariant
            i <= cs@.len(),
            trim_start(cs@) == i + trim_start(cs@.subrange(i as int, cs@.len() as int)),
        decreases cs@.len() - i,
    {
        proof {
            let rest = cs@.subrange(i as int, cs@.len() as int);
            assert(rest.drop_first() =~= cs@.subrange(i + 1, cs@.len() as int));
            assert(rest[0] == cs@[i as int]);
        }
        i = i + 1;
    }
    proof {
        let rest = cs@.subrange(i as int, cs@.len() as int);
        if i < cs@.len() {
            assert(rest[0] == cs@[i as int]);
        }
    }
    i
}

/// The white-space-free end position, found by scanning backward.
fn scan_trim_end(cs: &Vec<char>) -> (j: usize)
    ensures
        j == trim_end(cs@),
{
    let mut j: usize = cs.len();
    proof {
        assert(cs@.subrange(0, cs@.len() as int) =~= cs@);
    }
    while j > 0 && is_white_space(cs[j - 1])
        invariant
            j <= cs@.len(),
            trim_end(cs@) == trim_end(cs@.subrange(0, j as int)),
        decreases j,
    {
        proof {
            let head = cs@.subrange(0, j as int);
            assert(head.drop_last() =~= cs@.subrange(0, j - 1));
            assert(head.last() == cs@[j - 1]);
        }
        j = j - 1;
    }
    proof {
        let head = cs@.subrange(0, j as int);
        if j > 0 {
            assert(head.last() == cs@[j - 1]);
        }
        if j == cs@.len() {
            assert(head =~= cs@);
        }
    }
    j
}

/// `s` without leading and trailing white space, as `str::trim` gives it.
pub fn trim_text(s: &str) -> (t: String)
    ensures
        t@ == trimmed(s@),
{
    let cs = chars_of(s);
    let start = scan_trim_start(&cs);
    let end = scan_trim_end(&cs);
    proof {
        lemma_trim_start_bound(cs@);
        lemma_trim_end_bound(cs@);
    }
    if start >= end {
        return String::new();
    }
    let mut out: Vec<char> = Vec::new();
    let mut k: usize = start;
    while k < end
        invariant
            start <= k <= end,
            end <= cs@.len(),
            out@ == cs@.subrange(start as int, k as int),
        decreases end - k,
    {
        out.push(cs[k]);
        k = k + 1;
        proof {
            assert(out@ =~= cs@.subrange(start as int, k as int));
        }
    }
    string_of(out.as_slice())
}

/// The error shown when the path dialog is submitted without a path.
pub const MISSING_PATH_MESSAGE: &'static str = "Path is required.";

/// The path a submitted dialog works with: the typed text without
/// surrounding white space, or `None` when nothing but white space was
/// typed, in which case the dialog stays open with `MISSING_PATH_MESSAGE`.
pub fn dialog_path(path_text: &str) -> (r: Option<String>)
    ensures
        trimmed(path_text@).len() == 0 ==> r is None,
        trimmed(path_text@).len() > 0 ==> (r matches Some(p) && p@ == trimmed(path_text@)),
{
    let t = trim_text(path_text);
    if t.as_str().is_empty() {
        None
    } else {
        Some(t)
    }
}

/// What the shell opens in response to the menu and shortcuts of a frame.
#[derive(Clone, Copy, Debug, PartialEq, Eq, Structural)]
pub enum OpenStep {
    Nothing,
    /// Open the path picked from the recent-files list.
    OpenPath,
    /// Ask for a project to open through the system picker.
    OpenProject,
    /// Show the typed-path dialog for opening.
    OpenByPath,
}

/// What the shell saves in response to the menu and shortcuts of a frame.
#[derive(Clone, Copy, Debug, PartialEq, Eq, Structural)]
pub enum SaveStep {
    Nothing,
    /// Ask for a save path through the system picker.
    SaveAsWithPicker,
    /// Show the typed-path dialog for saving.
    SaveAsByPath,
    /// Save to the document's own path.
    SaveToPath,
}

/// The open request of a frame: a recent path wins over "Open", which wins
/// over "Open by path".
pub fn open_step(open_path: bool, open_requested: bool, open_by_path: bool) -> (s: OpenStep)
    ensures
        open_path ==> s == OpenStep::OpenPath,
        !open_path && open_requested ==> s == OpenStep::OpenProject,
        !open_path && !open_requested && open_by_path ==> s == OpenStep::OpenByPath,
        !open_path && !open_requested && !open_by_path ==> s == OpenStep::Nothing,
{
    if open_path {
        OpenStep::OpenPath
    } else if open_requested {
        OpenStep::OpenProject
    } else if open_by_path {
        OpenStep::OpenByPath
    } else {
        OpenStep::Nothing
    }
}

/// The save request of a frame: "Save As" wins over "Save As by path",
/// which wins over "Save"; saving a document that has no path yet asks
/// for one through the picker.
pub fn save_step(save_as: bool, save_as_by_path: bool, save: bool, has_path: bool) -> (s: SaveStep)
    ensures
        save_as ==> s == SaveStep::SaveAsWithPicker,
        !save_as && save_as_by_path ==> s == SaveStep::SaveAsByPath,
        !save_as && !save_as_by_path && save && has_path ==> s == SaveStep::SaveToPath,
        !save_as && !save_as_by_path && save && !has_path ==> s == SaveStep::SaveAsWithPicker,
        !save_as && !save_as_by_path && !save ==> s == SaveStep::Nothing,
{
    if save_as {
        SaveStep::SaveAsWithPicker
    } else if save_as_by_path {
        SaveStep::SaveAsByPath
    } else if save {
        if has_path {
            SaveStep::SaveToPath
        } else {
            SaveStep::SaveAsWithPicker
        }
    } else {
        SaveStep::Nothing
    }
}

/// The dialog that asks whether to save before a pending action.
#[derive(Debug)]
pub struct DiscardChangesDialogState {
    pub action: PendingDocumentAction,
    pub error: Option<String>,
}

impl DiscardChangesDialogState {
    pub fn new(action: PendingDocumentAction) -> (d: Self)
        ensures
            d.action == action,
            d.error is None,
    {
        DiscardChangesDialogState { action, error: None }
    }
}

/// What the shell does when the user asks for a document action.
#[derive(Clone, Copy, Debug, PartialEq, Eq, Structural)]
pub enum RequestStep {
    /// Carry the action out now.
    Execute,
    /// Ask about unsaved changes first; `cancel_close` also holds the
    /// window open while asking about quitting.
    AskFirst { cancel_close: bool },
}

/// A dirty document asks before any document action (holding the window
/// open when the action is quitting); a clean one acts at once.
pub fn request_step(dirty: bool, action: &PendingDocumentAction) -> (step: RequestStep)
    ensures
        !dirty ==> step == RequestStep::Execute,
        dirty ==> step == (RequestStep::AskFirst { cancel_close: *action is Quit }),
{
    if dirty {
        let quit = match action {
            PendingDocumentAction::Quit => true,
            _ => false,
        };
        RequestStep::AskFirst { cancel_close: quit }
    } else {
        RequestStep::Execute
    }
}

/// What the shell does after the unsaved-changes dialog was answered.
#[derive(Clone, Copy, Debug, PartialEq, Eq, Structural)]
pub enum DiscardStep {
    /// Keep the dialog open.
    Wait,
    /// Close the dialog and drop the pending action.
    Close,
    /// Close the dialog and carry out the pending action without saving.
    Discard,
    /// Save to the document's path, then carry out the pending action.
    SaveThenExecute,
    /// Close the dialog and ask for a save path, carrying the action along.
    AskSavePath,
}

/// Cancel wins over "Don't Save", which wins over "Save"; saving a document
/// without a path first asks where to save it.
pub fn discard_step(cancel: bool, discard: bool, save: bool, has_path: bool) -> (step: DiscardStep)
    ensures
        cancel ==> step == DiscardStep::Close,
        !cancel && discard ==> step == DiscardStep::Discard,
        !cancel && !discard && save && has_path ==> step == DiscardStep::SaveThenExecute,
        !cancel && !discard && save && !has_path ==> step == DiscardStep::AskSavePath,
        !cancel && !discard && !save ==> step == DiscardStep::Wait,
{
    if cancel {
        DiscardStep::Close
    } else if discard {
        DiscardStep::Discard
    } else if save {
        if has_path {
            DiscardStep::SaveThenExecute
        } else {
            DiscardStep::AskSavePath
        }
    } else {
        DiscardStep::Wait
    }
}

/// What the shell does when the window is asked to close.
#[derive(Clone, Copy, Debug, PartialEq, Eq, Structural)]
pub enum CloseStep {
    /// Let the window close.
    Allow,
    /// Let it close this once, and stop allowing dirty closes afterwards.
    AllowOnce,
    /// Keep the window open; `ask` opens the unsaved-changes dialog.
    Hold { ask: bool },
}

/// A close request goes through when it was allowed once or the document
/// is clean; otherwise the window stays open and, unless a dialog is
/// already showing, the unsaved-changes dialog opens.
pub fn close_step(allow_dirty_close_once: bool, dirty: bool, dialog_open: bool) -> (step: CloseStep)
    ensures
        allow_dirty_close_once ==> step == CloseStep::AllowOnce,
        !allow_dirty_close_once && !dirty ==> step == CloseStep::Allow,
        !allow_dirty_close_once && dirty ==> step == (CloseStep::Hold { ask: !dialog_open }),
{
    if allow_dirty_close_once {
        CloseStep::AllowOnce
    } else if !dirty {
        CloseStep::Allow
    } else {
        CloseStep::Hold { ask: !dialog_open }
    }
}

} // verus!
