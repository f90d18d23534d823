//! Names inside a file-system path, as a Windows path reads.
//!
//! A path may start with a prefix, which is no name: a drive `C:`, a share
//! `\\server\share`, a device `\\.\name`, or a verbatim prefix `\\?\name`,
//! `\\?\C:` or `\\?\UNC\server\share`. After a verbatim prefix only `\`
//! separates components; elsewhere `/` does too. Empty components are
//! skipped, and so is `.` outside verbatim paths; `.` and `..` are
//! components but no file names.
use vstd::prelude::*;

verus! {

/// A character that separates two components of a path.
pub open spec fn is_separator(c: char) -> bool {
    c == '/' || c == '\\'
}

/// A separator in a verbatim path (`\` alone) or in another path.
pub open spec fn is_sep_in(c: char, verbatim: bool) -> bool {
    if verbatim {
        c == '\\'
    } else {
        is_separator(c)
    }
}

/// An ASCII letter, as a drive letter is.
pub open spec fn is_ascii_letter(c: char) -> bool {
    ('a' <= c && c <= 'z') || ('A' <= c && c <= 'Z')
}

/// The path starts with a drive such as `C:`.
pub open spec fn has_drive(s: Seq<char>) -> bool {
    s.len() >= 2 && is_ascii_letter(s[0]) && s[1] == ':'
}

/// The path starts with the verbatim mark `\\?\`.
pub open spec fn is_verbatim(s: Seq<char>) -> bool {
    s.len() >= 4 && s[0] == '\\' && s[1] == '\\' && s[2] == '?' && s[3] == '\\'
}

/// How many characters come before the first separator (all of them where
/// there is none).
pub open spec fn first_sep(s: Seq<char>, verbatim: bool) -> nat
    decreases s.len(),
{
    if s.len() == 0 {
        0
    } else if is_sep_in(s[0], verbatim) {
        0
    } else {
        1 + first_sep(s.drop_first(), verbatim)
    }
}

/// The length of the component that starts at `from`.
pub open spec fn comp_len_at(s: Seq<char>, from: int, verbatim: bool) -> nat {
    first_sep(s.subrange(from, s.len() as int), verbatim)
}

/// The length of the component after the one that starts at `from`: 0
/// where there is none.
pub open spec fn next_comp_len_at(s: Seq<char>, from: int, verbatim: bool) -> nat {
    let a = comp_len_at(s, from, verbatim);
    if from + a < s.len() {
        comp_len_at(s, from + a + 1, verbatim)
    } else {
        0
    }
}

/// How many characters the prefix of the path takes: 0 where it has none.
pub open spec fn prefix_len(s: Seq<char>) -> nat {
    if is_verbatim(s) {
        if s.len() >= 8 && s[4] == 'U' && s[5] == 'N' && s[6] == 'C' && is_separator(s[7]) {
            let b = next_comp_len_at(s, 8, true);
            8 + comp_len_at(s, 8, true) + if b > 0 {
                1 + b
            } else {
                0
            }
        } else if s.len() >= 7 && is_ascii_letter(s[4]) && s[5] == ':' && s[6] == '\\' {
            6
        } else {
            4 + comp_len_at(s, 4, true)
        }
    } else if s.len() >= 4 && is_separator(s[0]) && is_separator(s[1]) && s[2] == '.'
        && is_separator(s[3]) {
        4 + comp_len_at(s, 4, false)
    } else if s.len() >= 2 && is_separator(s[0]) && is_separator(s[1]) {
        let a = comp_len_at(s, 2, false);
        let b = next_comp_len_at(s, 2, false);
        if a > 0 && b > 0 {
            3 + a + b
        } else {
            0
        }
    } else if has_drive(s) {
        2
    } else {
        0
    }
}

/// The path without its prefix.
pub open spec fn body(s: Seq<char>) -> Seq<char> {
    s.subrange(prefix_len(s) as int, s.len() as int)
}

/// Where the last run of non-separators starts: just after the last
/// separator, or 0 when there is none.
pub open spec fn run_start(s: Seq<char>, verbatim: bool) -> nat
    decreases s.len(),
{
    if s.len() == 0 {
        0
    } else if is_sep_in(s.last(), verbatim) {
        s.len()
    } else {
        run_start(s.drop_last(), verbatim)
    }
}

pub proof fn lemma_run_start_bound(s: Seq<char>, verbatim: bool)
    ensures
        run_start(s, verbatim) <= s.len(),
    decreases s.len(),
{
    if s.len() > 0 && !is_sep_in(s.last(), verbatim) {
        lemma_run_start_bound(s.drop_last(), verbatim);
    }
}

/// The single-dot name `.`.
pub open spec fn is_dot(n: Seq<char>) -> bool {
    n.len() == 1 && n[0] == '.'
}

/// The parent name `..`.
pub open spec fn is_dot_dot(n: Seq<char>) -> bool {
    n.len() == 2 && n[0] == '.' && n[1] == '.'
}

/// A component that names a file or folder: neither `.` nor `..`.
pub open spec fn is_name(n: Seq<char>) -> bool {
    !is_dot(n) && !is_dot_dot(n)
}

/// The components of a path without prefix, first to last: the maximal
/// runs of non-separators, without the `.` runs outside verbatim paths.
pub open spec fn components(s: Seq<char>, verbatim: bool) -> Seq<Seq<char>>
    decreases s.len(),
{
    if s.len() == 0 {
        seq![]
    } else if is_sep_in(s.last(), verbatim) {
        components(s.drop_last(), verbatim)
    } else {
        proof {
            lemma_run_start_bound(s.drop_last(), verbatim);
        }
        let k = run_start(s, verbatim);
        let rest = components(s.subrange(0, k as int), verbatim);
        let name = s.subrange(k as int, s.len() as int);
        if is_dot(name) && !verbatim {
            rest
        } else {
            rest.push(name)
        }
    }
}

/// The components of a path after its prefix.
pub open spec fn path_components(s: Seq<char>) -> Seq<Seq<char>> {
    components(body(s), is_verbatim(s))
}

/// What the last component of a path names, unless it is `.` or `..` or
/// there is none.
pub open spec fn file_name(s: Seq<char>) -> Option<Seq<char>> {
    let c = path_components(s);
    if c.len() > 0 && is_name(c.last()) {
        Some(c.last())
    } else {
        None
    }
}

/// The file name of the parent of a path.
pub open spec fn parent_name(s: Seq<char>) -> Option<Seq<char>> {
    let c = path_components(s);
    if c.len() >= 2 && is_name(c[c.len() - 2]) {
        Some(c[c.len() - 2])
    } else {
        None
    }
}

/// The short form of a path shown in the form: `\parent\name`; the name
/// alone where the parent has no name; the whole path where it has no name.
pub open spec fn last_two_components(s: Seq<char>) -> Seq<char> {
    match file_name(s) {
        None => s,
        Some(n) => match parent_name(s) {
            None => n,
            Some(p) => seq!['\\'] + p + seq!['\\'] + n,
        },
    }
}


/// No character of `n` separates components.
pub open spec fn no_separator(n: Seq<char>) -> bool {
    forall|i: int| 0 <= i < n.len() ==> !is_separator(#[trigger] n[i])
}

/// A name of a folder or file as it stands between separators: not empty,
/// without separator, and neither `.` nor `..`.
pub open spec fn plain_name(n: Seq<char>) -> bool {
    &&& n.len() > 0
    &&& no_separator(n)
    &&& !(n.len() == 1 && n[0] == '.')
    &&& !(n.len() == 2 && n[0] == '.' && n[1] == '.')
}

proof fn lemma_run_start_after(x: Seq<char>, n: Seq<char>, verbatim: bool)
    requires
        x.len() > 0,
        is_sep_in(x.last(), verbatim),
        no_separator(n),
    ensures
        run_start(x + n, verbatim) == x.len(),
    decreases n.len(),
{
    if n.len() == 0 {
        assert(x + n =~= x);
    } else {
        assert((x + n).drop_last() =~= x + n.drop_last());
        assert((x + n).last() == n.last());
        assert(!is_separator(n[n.len() - 1]));
        assert(no_separator(n.drop_last())) by {
            assert forall|i: int| 0 <= i < n.drop_last().len() implies !is_separator(
                #[trigger] n.drop_last()[i],
            ) by {
                assert(n.drop_last()[i] == n[i]);
            }
        }
        lemma_run_start_after(x, n.drop_last(), verbatim);
    }
}

proof fn lemma_components_after(x: Seq<char>, n: Seq<char>)
    requires
        x.len() > 0,
        is_separator(x.last()),
        plain_name(n),
    ensures
        components(x + n, false) == components(x, false).push(n),
{
    let s = x + n;
    lemma_run_start_after(x, n, false);
    assert(s.last() == n[n.len() - 1]);
    assert(s.subrange(0, x.len() as int) =~= x);
    assert(s.subrange(x.len() as int, s.len() as int) =~= n);
}

proof fn lemma_components_sep(x: Seq<char>)
    ensures
        components(x.push('\\'), false) == components(x, false),
{
    assert(x.push('\\').drop_last() =~= x);
}

proof fn lemma_drive_body(c: char, rest: Seq<char>)
    requires
        is_ascii_letter(c),
    ensures
        prefix_len(seq![c, ':'] + rest) == 2,
        body(seq![c, ':'] + rest) == rest,
        !is_verbatim(seq![c, ':'] + rest),
{
    let s = seq![c, ':'] + rest;
    assert(s[0] == c && s[1] == ':');
    assert(s.subrange(2, s.len() as int) =~= rest);
}

/// In a path on a drive, the last plain name is the file name, whatever
/// comes before it: names that start with a dot are names too.
pub proof fn law_file_name_on_drive(c: char, t: Seq<char>, n: Seq<char>)
    requires
        is_ascii_letter(c),
        plain_name(n),
    ensures
        file_name(seq![c, ':'] + t + seq!['\\'] + n) == Some(n),
{
    let x = t + seq!['\\'];
    assert(seq![c, ':'] + t + seq!['\\'] + n =~= seq![c, ':'] + (x + n));
    lemma_drive_body(c, x + n);
    assert(x.last() == '\\');
    lemma_components_after(x, n);
}

/// In a path on a drive whose last two components are plain names, the
/// short form is `\parent\name`, whatever comes before them.
pub proof fn law_last_two_on_drive(c: char, t: Seq<char>, p: Seq<char>, n: Seq<char>)
    requires
        is_ascii_letter(c),
        plain_name(p),
        plain_name(n),
    ensures
        last_two_components(seq![c, ':'] + t + seq!['\\'] + p + seq!['\\'] + n) == seq!['\\']
            + p + seq!['\\'] + n,
{
    let x1 = t + seq!['\\'];
    let x2 = x1 + p;
    let x3 = x2.push('\\');
    let s = seq![c, ':'] + t + seq!['\\'] + p + seq!['\\'] + n;
    assert(s =~= seq![c, ':'] + (x3 + n));
    lemma_drive_body(c, x3 + n);
    assert(x3.last() == '\\');
    assert(x1.last() == '\\');
    lemma_components_after(x3, n);
    lemma_components_sep(x2);
    lemma_components_after(x1, p);
    let cs = components(x3 + n, false);
    assert(cs == components(x1, false).push(p).push(n));
    assert(cs[cs.len() - 2] == p);
    assert(cs.last() == n);
}

proof fn lemma_first_sep_name(a: Seq<char>, rest: Seq<char>)
    requires
        no_separator(a),
        rest.len() == 0 || is_separator(rest[0]),
    ensures
        first_sep(a + rest, false) == a.len(),
    decreases a.len(),
{
    if a.len() == 0 {
        assert(a + rest =~= rest);
    } else {
        assert((a + rest)[0] == a[0]);
        assert(!is_separator(a[0]));
        assert((a + rest).drop_first() =~= a.drop_first() + rest);
        assert(no_separator(a.drop_first())) by {
            assert forall|i: int| 0 <= i < a.drop_first().len() implies !is_separator(
                #[trigger] a.drop_first()[i],
            ) by {
                assert(a.drop_first()[i] == a[i + 1]);
            }
        }
        lemma_first_sep_name(a.drop_first(), rest);
    }
}

proof fn lemma_share_body(a: Seq<char>, b: Seq<char>, u: Seq<char>)
    requires
        plain_name(a),
        plain_name(b),
        a != seq!['?'],
    ensures
        prefix_len(seq!['\\', '\\'] + a + seq!['\\'] + b + seq!['\\'] + u) == 3 + a.len()
            + b.len(),
        body(seq!['\\', '\\'] + a + seq!['\\'] + b + seq!['\\'] + u) == seq!['\\'] + u,
        !is_verbatim(seq!['\\', '\\'] + a + seq!['\\'] + b + seq!['\\'] + u),
{
    let s = seq!['\\', '\\'] + a + seq!['\\'] + b + seq!['\\'] + u;
    let r1 = seq!['\\'] + b + seq!['\\'] + u;
    let r2 = seq!['\\'] + u;
    assert(s =~= seq!['\\', '\\'] + (a + r1));
    assert(s[0] == '\\' && s[1] == '\\');
    assert(s[2] == a[0]);
    if a.len() == 1 {
        assert(s[3] == '\\');
        assert(a[0] != '?') by {
            if a[0] == '?' {
                assert(a =~= seq!['?']);
            }
        }
    } else {
        assert(s[3] == a[1]);
        assert(!is_separator(a[1]));
    }
    assert(!is_verbatim(s));
    assert(!(s[2] == '.' && is_separator(s[3])));
    assert(s.subrange(2, s.len() as int) =~= a + r1);
    assert(r1[0] == '\\');
    lemma_first_sep_name(a, r1);
    assert(comp_len_at(s, 2, false) == a.len());
    assert(s.subrange(3 + a.len() as int, s.len() as int) =~= b + r2);
    assert(r2[0] == '\\');
    lemma_first_sep_name(b, r2);
    assert(next_comp_len_at(s, 2, false) == b.len());
    assert(s.subrange(3 + a.len() + b.len() as int, s.len() as int) =~= r2);
}

/// A folder straight under a network share `\\server\share` has a file
/// name, but its parent (the share root) has none: the short form is the
/// folder's name alone.
pub proof fn law_last_two_at_share_root(a: Seq<char>, b: Seq<char>, n: Seq<char>)
    requires
        plain_name(a),
        plain_name(b),
        a != seq!['?'],
        plain_name(n),
    ensures
        file_name(seq!['\\', '\\'] + a + seq!['\\'] + b + seq!['\\'] + n) == Some(n),
        parent_name(seq!['\\', '\\'] + a + seq!['\\'] + b + seq!['\\'] + n) is None,
        last_two_components(seq!['\\', '\\'] + a + seq!['\\'] + b + seq!['\\'] + n) == n,
{
    lemma_share_body(a, b, n);
    let x = seq!['\\'];
    assert(x.last() == '\\');
    lemma_components_after(x, n);
    assert(x =~= Seq::<char>::empty().push('\\'));
    lemma_components_sep(Seq::<char>::empty());
    assert(components(Seq::<char>::empty(), false) =~= Seq::<Seq<char>>::empty());
}

/// Deeper inside a network share, the short form is `\parent\name`, as on
/// a drive.
pub proof fn law_last_two_on_share(
    a: Seq<char>,
    b: Seq<char>,
    t: Seq<char>,
    p: Seq<char>,
    n: Seq<char>,
)
    requires
        plain_name(a),
        plain_name(b),
        a != seq!['?'],
        plain_name(p),
        plain_name(n),
    ensures
        last_two_components(
            seq!['\\', '\\'] + a + seq!['\\'] + b + seq!['\\'] + (t + seq!['\\'] + p + seq![
                '\\',
            ] + n),
        ) == seq!['\\'] + p + seq!['\\'] + n,
{
    let u = t + seq!['\\'] + p + seq!['\\'] + n;
    lemma_share_body(a, b, u);
    let x1 = seq!['\\'] + t + seq!['\\'];
    let x2 = x1 + p;
    let x3 = x2.push('\\');
    assert(seq!['\\'] + u =~= x3 + n);
    assert(x3.last() == '\\');
    assert(x1.last() == '\\');
    lemma_components_after(x3, n);
    lemma_components_sep(x2);
    lemma_components_after(x1, p);
    let cs = components(x3 + n, false);
    assert(cs == components(x1, false).push(p).push(n));
    assert(cs[cs.len() - 2] == p);
    assert(cs.last() == n);
}

/// Where a path's parent has a name and the path has a file name, the short
/// form is `\`, the parent's name, `\` and the file name.
pub proof fn law_last_two_of_named_parent(s: Seq<char>, p: Seq<char>, n: Seq<char>)
    requires
        parent_name(s) == Some(p),
        file_name(s) == Some(n),
    ensures
        last_two_components(s) == seq!['\\'] + p + seq!['\\'] + n,
{
}

/// Where the last `.` of a name stands, or -1.
pub open spec fn last_dot(n: Seq<char>) -> int
    decreases n.len(),
{
    if n.len() == 0 {
        -1
    } else if n.last() == '.' {
        n.len() - 1
    } else {
        last_dot(n.drop_last())
    }
}

/// The extension of a file name: what follows its last `.`, where that dot
/// is not the name's first character.
pub open spec fn extension(n: Seq<char>) -> Option<Seq<char>> {
    let i = last_dot(n);
    if i > 0 {
        Some(n.subrange(i + 1, n.len() as int))
    } else {
        None
    }
}

/// The path names a file whose extension is `rar` or `zip`.
pub open spec fn is_archive(s: Seq<char>) -> bool {
    match file_name(s) {
        Some(n) => match extension(n) {
            Some(e) => e == seq!['r', 'a', 'r'] || e == seq!['z', 'i', 'p'],
            None => false,
        },
        None => false,
    }
}

fn is_sep(c: char) -> (b: bool)
    ensures
        b == is_separator(c),
{
    c == '/' || c == '\\'
}

fn is_sep_exec(c: char, verbatim: bool) -> (b: bool)
    ensures
        b == is_sep_in(c, verbatim),
{
    if verbatim {
        c == '\\'
    } else {
        is_sep(c)
    }
}

fn is_ascii_letter_exec(c: char) -> (b: bool)
    ensures
        b == is_ascii_letter(c),
{
    ('a' <= c && c <= 'z') || ('A' <= c && c <= 'Z')
}

/// The characters of a string, first to last.
fn chars_of(s: &str) -> (v: Vec<char>)
    ensures
        v@ == s@,
{
    let n = s.unicode_len();
    let mut v: Vec<char> = Vec::new();
    let mut i: usize = 0;
    while i < n
        invariant
            n == s@.len(),
            i <= n,
            v@ == s@.subrange(0, i as int),
        decreases n - i,
    {
        let c = s.get_char(i);
        v.push(c);
        i = i + 1;
        assert(v@ =~= s@.subrange(0, i as int));
    }
    assert(v@ =~= s@);
    v
}

/// The length of the component that starts at `from`.
fn comp_len(s: &Vec<char>, from: usize, verbatim: bool) -> (n: usize)
    requires
        from <= s.len(),
    ensures
        n == comp_len_at(s@, from as int, verbatim),
        from + n <= s.len(),
{
    let mut j: usize = from;
    assert(s@.subrange(from as int, s.len() as int) == s@.subrange(j as int, s.len() as int));
    while j < s.len() && !is_sep_exec(s[j], verbatim)
        invariant
            from <= j <= s.len(),
            first_sep(s@.subrange(from as int, s.len() as int), verbatim) == (j - from) + first_sep(
                s@.subrange(j as int, s.len() as int),
                verbatim,
            ),
        decreases s.len() - j,
    {
        let ghost t = s@.subrange(j as int, s.len() as int);
        assert(t.drop_first() =~= s@.subrange(j + 1, s.len() as int));
        assert(t[0] == s@[j as int]);
        j = j + 1;
    }
    proof {
        let t = s@.subrange(j as int, s.len() as int);
        if j < s.len() {
            assert(t[0] == s@[j as int]);
        } else {
            assert(t.len() == 0);
        }
    }
    j - from
}

/// The length of the component after the one that starts at `from`.
fn next_comp_len(s: &Vec<char>, from: usize, verbatim: bool) -> (n: usize)
    requires
        from <= s.len(),
    ensures
        n == next_comp_len_at(s@, from as int, verbatim),
        from + comp_len_at(s@, from as int, verbatim) + (if n > 0 {
            1 + n
        } else {
            0
        }) <= s.len(),
{
    let a = comp_len(s, from, verbatim);
    if from + a < s.len() {
        comp_len(s, from + a + 1, verbatim)
    } else {
        0
    }
}

/// Whether the path starts with `\\?\`.
fn verbatim_exec(s: &Vec<char>) -> (b: bool)
    ensures
        b == is_verbatim(s@),
{
    s.len() >= 4 && s[0] == '\\' && s[1] == '\\' && s[2] == '?' && s[3] == '\\'
}

/// How many characters the prefix of the path takes.
fn prefix_length(s: &Vec<char>) -> (d: usize)
    ensures
        d == prefix_len(s@),
        d <= s.len(),
{
    if verbatim_exec(s) {
        if s.len() >= 8 && s[4] == 'U' && s[5] == 'N' && s[6] == 'C' && is_sep(s[7]) {
            let a = comp_len(s, 8, true);
            let b = next_comp_len(s, 8, true);
            if b > 0 {
                8 + a + 1 + b
            } else {
                8 + a
            }
        } else if s.len() >= 7 && is_ascii_letter_exec(s[4]) && s[5] == ':' && s[6] == '\\' {
            6
        } else {
            4 + comp_len(s, 4, true)
        }
    } else if s.len() >= 4 && is_sep(s[0]) && is_sep(s[1]) && s[2] == '.' && is_sep(s[3]) {
        4 + comp_len(s, 4, false)
    } else if s.len() >= 2 && is_sep(s[0]) && is_sep(s[1]) {
        let a = comp_len(s, 2, false);
        let b = next_comp_len(s, 2, false);
        if a > 0 && b > 0 {
            3 + a + b
        } else {
            0
        }
    } else if s.len() >= 2 && is_ascii_letter_exec(s[0]) && s[1] == ':' {
        2
    } else {
        0
    }
}

/// The characters from `from` on.
fn suffix_of(s: &Vec<char>, from: usize) -> (v: Vec<char>)
    requires
        from <= s.len(),
    ensures
        v@ == s@.subrange(from as int, s.len() as int),
{
    let mut v: Vec<char> = Vec::new();
    let mut i: usize = from;
    while i < s.len()
        invariant
            from <= i <= s.len(),
            v@ == s@.subrange(from as int, i as int),
        decreases s.len() - i,
    {
        v.push(s[i]);
        i = i + 1;
        assert(v@ =~= s@.subrange(from as int, i as int));
    }
    v
}

/// The last component of `s[0..end]`, as a range `k..e`, and the components
/// before it are those of `s[0..k]`.
fn last_component(s: &Vec<char>, end: usize, verbatim: bool) -> (r: Option<(usize, usize)>)
    requires
        end <= s.len(),
    ensures
        match r {
            None => components(s@.subrange(0, end as int), verbatim).len() == 0,
            Some((k, e)) => {
                &&& k < e <= end
                &&& components(s@.subrange(0, end as int), verbatim) == components(
                    s@.subrange(0, k as int),
                    verbatim,
                ).push(s@.subrange(k as int, e as int))
            },
        },
{
    let mut cur: usize = end;
    loop
        invariant
            cur <= end <= s.len(),
            components(s@.subrange(0, cur as int), verbatim) == components(
                s@.subrange(0, end as int),
                verbatim,
            ),
        decreases cur,
    {
        let ghost start = cur;
        while cur > 0 && is_sep_exec(s[cur - 1], verbatim)
            invariant
                cur <= start,
                cur <= end <= s.len(),
                components(s@.subrange(0, cur as int), verbatim) == components(
                    s@.subrange(0, end as int),
                    verbatim,
                ),
            decreases cur,
        {
            assert(s@.subrange(0, cur as int).drop_last() =~= s@.subrange(0, cur - 1));
            cur = cur - 1;
        }
        if cur == 0 {
            assert(s@.subrange(0, 0) =~= Seq::<char>::empty());
            return None;
        }
        let e = cur;
        let mut k = cur;
        while k > 0 && !is_sep_exec(s[k - 1], verbatim)
            invariant
                e <= start,
                k <= e <= end <= s.len(),
                e > 0,
                !is_sep_in(s@[e - 1], verbatim),
                k < e ==> run_start(s@.subrange(0, e as int), verbatim) == run_start(
                    s@.subrange(0, k as int),
                    verbatim,
                ),
                forall|j: int| k <= j < e ==> !is_sep_in(#[trigger] s@[j], verbatim),
            decreases k,
        {
            assert(s@.subrange(0, k as int).drop_last() =~= s@.subrange(0, k - 1));
            if k == e {
                assert(s@.subrange(0, e as int).drop_last() =~= s@.subrange(0, e - 1));
            }
            k = k - 1;
        }
        proof {
            let t = s@.subrange(0, e as int);
            if k == e {
                assert(false);
            }
            if k > 0 {
                assert(s@.subrange(0, k as int).last() == s@[k - 1]);
            } else {
                assert(s@.subrange(0, 0) =~= Seq::<char>::empty());
            }
            assert(run_start(t, verbatim) == k);
            assert(t.subrange(0, k as int) =~= s@.subrange(0, k as int));
            assert(t.subrange(k as int, e as int) =~= s@.subrange(k as int, e as int));
            assert(t.last() == s@[e - 1]);
        }
        if !verbatim && e - k == 1 && s[k] == '.' {
            proof {
                assert(is_dot(s@.subrange(k as int, e as int)));
            }
            cur = k;
        } else {
            proof {
                assert(!(is_dot(s@.subrange(k as int, e as int)) && !verbatim));
            }
            return Some((k, e));
        }
    }
}

/// Whether `s[k..e]` names a file or folder.
fn range_is_name(s: &Vec<char>, k: usize, e: usize) -> (b: bool)
    requires
        k <= e <= s.len(),
    ensures
        b == is_name(s@.subrange(k as int, e as int)),
{
    let ghost n = s@.subrange(k as int, e as int);
    if e - k == 1 && s[k] == '.' {
        assert(is_dot(n));
        return false;
    }
    if e - k == 2 && s[k] == '.' && s[k + 1] == '.' {
        assert(is_dot_dot(n));
        return false;
    }
    true
}

/// A path split for reading its names: its characters, the length of its
/// prefix, the characters after the prefix, and whether it is verbatim.
fn split_path(path: &str) -> (r: (usize, Vec<char>, bool))
    ensures
        r.0 == prefix_len(path@),
        r.0 <= path@.len(),
        r.1@ == body(path@),
        r.1@.len() + r.0 == path@.len(),
        path@.len() <= usize::MAX,
        r.2 == is_verbatim(path@),
{
    let all = chars_of(path);
    let d = prefix_length(&all);
    let b = suffix_of(&all, d);
    let v = verbatim_exec(&all);
    (d, b, v)
}

/// The file name of a path, as std's `Path::file_name` gives it on Windows.
pub fn path_file_name(path: &str) -> (r: Option<String>)
    ensures
        match r {
            Some(n) => file_name(path@) == Some(n@),
            None => file_name(path@) is None,
        },
{
    let (d, b, v) = split_path(path);
    assert(b@.subrange(0, b.len() as int) =~= b@);
    match last_component(&b, b.len(), v) {
        None => None,
        Some((k, e)) => {
            if !range_is_name(&b, k, e) {
                None
            } else {
                assert(path@.subrange(d + k, d + e) =~= b@.subrange(k as int, e as int));
                let name = path.substring_char(d + k, d + e);
                Some(String::from_str(name))
            }
        },
    }
}

/// Whether a path names a file with the extension `rar` or `zip`.
pub fn path_is_archive(path: &str) -> (b: bool)
    ensures
        b == is_archive(path@),
{
    match path_file_name(path) {
        None => false,
        Some(name) => {
            let n = chars_of(name.as_str());
            let mut i: usize = n.len();
            assert(n@.subrange(0, n.len() as int) =~= n@);
            while i > 0 && n[i - 1] != '.'
                invariant
                    i <= n.len(),
                    last_dot(n@) == last_dot(n@.subrange(0, i as int)),
                decreases i,
            {
                assert(n@.subrange(0, i as int).drop_last() =~= n@.subrange(0, i - 1));
                i = i - 1;
            }
            proof {
                assert(n@.subrange(0, n.len() as int) =~= n@);
                if i == 0 {
                    assert(n@.subrange(0, 0) =~= Seq::<char>::empty());
                }
            }
            if i <= 1 {
                return false;
            }
            assert(last_dot(n@) == i - 1);
            if n.len() - i != 3 {
                proof {
                    let ext = n@.subrange(i as int, n.len() as int);
                    assert(ext.len() != 3);
                    assert(ext != seq!['r', 'a', 'r']);
                    assert(ext != seq!['z', 'i', 'p']);
                }
                return false;
            }
            let a = n[i];
            let b1 = n[i + 1];
            let c = n[i + 2];
            let ghost ext = n@.subrange(i as int, n.len() as int);
            assert(ext.len() == 3 && ext[0] == a && ext[1] == b1 && ext[2] == c);
            let rar = a == 'r' && b1 == 'a' && c == 'r';
            let zip = a == 'z' && b1 == 'i' && c == 'p';
            proof {
                if rar {
                    assert(ext =~= seq!['r', 'a', 'r']);
                }
                if zip {
                    assert(ext =~= seq!['z', 'i', 'p']);
                }
            }
            rar || zip
        },
    }
}

/// The last two components of a path, written `\\parent\\name`, as the form
/// shows a chosen folder.
pub fn get_last_two_components(path: &str) -> (r: String)
    ensures
        r@ == last_two_components(path@),
        parent_name(path@) is Some && file_name(path@) is Some ==> r@ == seq!['\\'] + parent_name(
            path@,
        ).unwrap() + seq!['\\'] + file_name(path@).unwrap(),
{
    let (d, b, v) = split_path(path);
    assert(b@.subrange(0, b.len() as int) =~= b@);
    match last_component(&b, b.len(), v) {
        None => String::from_str(path),
        Some((k, e)) => {
            if !range_is_name(&b, k, e) {
                return String::from_str(path);
            }
            assert(path@.subrange(d + k, d + e) =~= b@.subrange(k as int, e as int));
            let name = path.substring_char(d + k, d + e);
            match last_component(&b, k, v) {
                None => String::from_str(name),
                Some((k2, e2)) => {
                    if !range_is_name(&b, k2, e2) {
                        return String::from_str(name);
                    }
                    assert(path@.subrange(d + k2, d + e2) =~= b@.subrange(
                        k2 as int,
                        e2 as int,
                    ));
                    let parent = path.substring_char(d + k2, d + e2);
                    let mut r = String::from_str("\\");
                    proof {
                        reveal_strlit("\\");
                    }
                    r.append(parent);
                    r.append("\\");
                    r.append(name);
                    r
                },
            }
        },
    }
}

} // verus!
