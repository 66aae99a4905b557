//! A model of `std::path` on Windows: the prefix a path begins with (a drive, a
//! UNC share, a device or a verbatim form), its components with both `\` and `/`
//! as separators, and whether it is absolute.
use crate::paths::{
    append_pieces, components_in, dot, dot_dot, is_dot, is_dot_dot, is_normal_piece, join_with,
    lemma_normal_pieces_none_extends, lemma_parts_of_normal_pieces, normal_pieces, normalize_in,
    parts_view, pieces_to_parts, render_relative_in, Component, PathPart, PathStyle, PrefixKind,
    WinPrefix,
};
use crate::text::{
    chars_of, lemma_split_extend, lemma_split_nonempty, lemma_split_pieces_free_of_sep,
    lemma_split_single, split_chars, split_on,
};
use vstd::prelude::*;

verus! {

/// A separator of a Windows path.
pub open spec fn win_sep(c: char) -> bool {
    c == '\\' || c == '/'
}

/// A separator inside a prefix: only `\` once the path is verbatim.
pub open spec fn sep_for(c: char, verbatim: bool) -> bool {
    c == '\\' || (!verbatim && c == '/')
}

/// The first index at or after `from` that holds a separator, or the length.
pub open spec fn next_sep(s: Seq<char>, from: int, verbatim: bool) -> int
    decreases s.len() - from,
{
    if from < 0 || from >= s.len() {
        s.len() as int
    } else if sep_for(s[from], verbatim) {
        from
    } else {
        next_sep(s, from + 1, verbatim)
    }
}

/// An ASCII letter.
pub open spec fn ascii_alpha(c: char) -> bool {
    ('a' <= c && c <= 'z') || ('A' <= c && c <= 'Z')
}

/// A drive letter and a colon at `at`.
pub open spec fn drive_at(s: Seq<char>, at: int) -> bool {
    0 <= at && at + 2 <= s.len() && ascii_alpha(s[at]) && s[at + 1] == ':'
}

/// The prefix of a Windows path and its length in characters, as
/// `std::path::Path::components` parses it: `\\?\UNC\server\share`,
/// `\\?\C:`, `\\?\name`, `\\.\device`, `\\server\share` and `C:`. The two leading
/// separators may be `/` except in the verbatim forms.
pub open spec fn win_prefix(s: Seq<char>) -> Option<(WinPrefix, int)> {
    if s.len() >= 2 && win_sep(s[0]) && win_sep(s[1]) {
        if s.len() >= 4 && s[0] == '\\' && s[1] == '\\' && s[2] == '?' && s[3] == '\\' {
            if s.len() >= 8 && s[4] == 'U' && s[5] == 'N' && s[6] == 'C' && win_sep(s[7]) {
                let e1 = next_sep(s, 8, true);
                if e1 < s.len() {
                    let e2 = next_sep(s, e1 + 1, true);
                    let share = s.subrange(e1 + 1, e2);
                    Some(
                        (
                            WinPrefix::VerbatimUNC(s.subrange(8, e1), share),
                            if share.len() > 0 {
                                e2
                            } else {
                                e1
                            },
                        ),
                    )
                } else {
                    Some((WinPrefix::VerbatimUNC(s.subrange(8, e1), Seq::empty()), e1))
                }
            } else if drive_at(s, 4) && (s.len() == 6 || win_sep(s[6])) {
                Some((WinPrefix::VerbatimDisk(s[4]), 6))
            } else {
                let e = next_sep(s, 4, true);
                Some((WinPrefix::Verbatim(s.subrange(4, e)), e))
            }
        } else if s.len() >= 4 && s[2] == '.' && win_sep(s[3]) {
            let e = next_sep(s, 4, false);
            Some((WinPrefix::DeviceNS(s.subrange(4, e)), e))
        } else {
            let e1 = next_sep(s, 2, false);
            if e1 < s.len() {
                let e2 = next_sep(s, e1 + 1, false);
                if e1 > 2 && e2 > e1 + 1 {
                    Some((WinPrefix::UNC(s.subrange(2, e1), s.subrange(e1 + 1, e2)), e2))
                } else {
                    None
                }
            } else {
                None
            }
        }
    } else if drive_at(s, 0) {
        Some((WinPrefix::Disk(s[0]), 2))
    } else {
        None
    }
}

/// The verbatim prefixes, after which only `\` separates and `.` is kept.
pub open spec fn prefix_verbatim(k: WinPrefix) -> bool {
    k is Verbatim || k is VerbatimUNC || k is VerbatimDisk
}

/// The text with every `/` turned into `\`.
pub open spec fn unify(s: Seq<char>) -> Seq<char> {
    s.map_values(|c: char| if c == '/' { '\\' } else { c })
}

/// The components named by the pieces of a verbatim path: empty pieces are
/// dropped, `.` and `..` are the current and parent directory.
pub open spec fn verbatim_parts(ps: Seq<Seq<char>>) -> Seq<PathPart>
    decreases ps.len(),
{
    if ps.len() == 0 {
        Seq::empty()
    } else {
        let rest = verbatim_parts(ps.drop_last());
        let p = ps.last();
        if p.len() == 0 {
            rest
        } else if p == dot() {
            rest.push(PathPart::CurDir)
        } else if p == dot_dot() {
            rest.push(PathPart::ParentDir)
        } else {
            rest.push(PathPart::Normal(p))
        }
    }
}

/// The components of a rootless body written with `\`: a leading `.` piece is
/// the current directory, the rest as `pieces_to_parts`.
pub open spec fn relative_parts(u: Seq<char>) -> Seq<PathPart> {
    let ps = split_on(u, '\\');
    if ps[0] == dot() {
        seq![PathPart::CurDir] + pieces_to_parts(ps.drop_first())
    } else {
        pieces_to_parts(ps)
    }
}

/// `Path::components` on Windows: the prefix, a root when a separator follows
/// it or the prefix implies one, then the pieces of the rest.
pub open spec fn win_components(s: Seq<char>) -> Seq<PathPart> {
    match win_prefix(s) {
        Some((k, n)) => {
            let rest = s.skip(n);
            let phys = rest.len() > 0 && win_sep(rest[0]);
            let body = if phys {
                rest.skip(1)
            } else {
                rest
            };
            let head = seq![PathPart::Prefix(k, s.take(n))];
            if prefix_verbatim(k) {
                head + seq![PathPart::RootDir] + verbatim_parts(split_on(body, '\\'))
            } else if phys || !(k is Disk) {
                head + seq![PathPart::RootDir] + pieces_to_parts(split_on(unify(body), '\\'))
            } else {
                head + relative_parts(unify(body))
            }
        },
        None => {
            if s.len() > 0 && win_sep(s[0]) {
                seq![PathPart::RootDir] + pieces_to_parts(split_on(unify(s.skip(1)), '\\'))
            } else {
                relative_parts(unify(s))
            }
        },
    }
}

/// `Path::is_absolute` on Windows: a prefix, and a root after it, written or implied.
pub open spec fn win_is_absolute(s: Seq<char>) -> bool {
    match win_prefix(s) {
        Some((k, n)) => (n < s.len() && win_sep(s[n])) || !(k is Disk),
        None => false,
    }
}

// ---------------------------------------------------------------------------
// Executable counterparts
// ---------------------------------------------------------------------------

proof fn lemma_next_sep(s: Seq<char>, from: int, i: int, verbatim: bool)
    requires
        0 <= from <= i <= s.len(),
        forall|j: int| from <= j < i ==> !sep_for(#[trigger] s[j], verbatim),
        i == s.len() || sep_for(s[i], verbatim),
    ensures
        next_sep(s, from, verbatim) == i,
    decreases i - from,
{
    if from < i {
        lemma_next_sep(s, from + 1, i, verbatim);
    }
}

fn find_sep(v: &Vec<char>, from: usize, verbatim: bool) -> (r: usize)
    requires
        from <= v.len(),
    ensures
        r == next_sep(v@, from as int, verbatim),
        from <= r <= v.len(),
{
    let mut i = from;
    while i < v.len() && !(v[i] == '\\' || (!verbatim && v[i] == '/'))
        invariant
            from <= i <= v.len(),
            forall|j: int| from <= j < i ==> !sep_for(#[trigger] v@[j], verbatim),
        decreases v.len() - i,
    {
        i = i + 1;
    }
    proof {
        lemma_next_sep(v@, from as int, i as int, verbatim);
    }
    i
}

/// The characters `v[a..b]`.
fn sub_chars(v: &Vec<char>, a: usize, b: usize) -> (r: Vec<char>)
    requires
        a <= b <= v.len(),
    ensures
        r@ == v@.subrange(a as int, b as int),
{
    let mut r: Vec<char> = Vec::new();
    let mut i = a;
    while i < b
        invariant
            a <= i <= b <= v.len(),
            r@ == v@.subrange(a as int, i as int),
        decreases b - i,
    {
        r.push(v[i]);
        assert(v@.subrange(a as int, i + 1) =~= v@.subrange(a as int, i as int).push(v@[i as int]));
        i = i + 1;
    }
    r
}

/// The characters `v[from..]` with every `/` turned into `\`.
fn unified_from(v: &Vec<char>, from: usize) -> (r: Vec<char>)
    requires
        from <= v.len(),
    ensures
        r@ == unify(v@.skip(from as int)),
{
    let ghost t = v@.skip(from as int);
    let mut r: Vec<char> = Vec::new();
    let mut i = from;
    while i < v.len()
        invariant
            from <= i <= v.len(),
            t == v@.skip(from as int),
            r@ == unify(t.take(i - from)),
        decreases v.len() - i,
    {
        let c = if v[i] == '/' {
            '\\'
        } else {
            v[i]
        };
        r.push(c);
        assert(unify(t.take(i - from + 1)) =~= unify(t.take(i - from)).push(c));
        i = i + 1;
    }
    assert(t.take(v.len() - from) =~= t);
    r
}

fn is_win_sep(c: char) -> (r: bool)
    ensures
        r == win_sep(c),
{
    c == '\\' || c == '/'
}

fn is_ascii_alpha(c: char) -> (r: bool)
    ensures
        r == ascii_alpha(c),
{
    ('a' <= c && c <= 'z') || ('A' <= c && c <= 'Z')
}

fn has_drive_at(v: &Vec<char>, at: usize) -> (r: bool)
    ensures
        r == drive_at(v@, at as int),
{
    at <= v.len() && v.len() - at >= 2 && is_ascii_alpha(v[at]) && v[at + 1] == ':'
}

/// The prefix of the path `v` and its length, as `win_prefix` describes.
pub fn parse_prefix(v: &Vec<char>) -> (r: Option<(PrefixKind, usize)>)
    ensures
        r is Some <==> win_prefix(v@) is Some,
        r matches Some((k, n)) ==> win_prefix(v@) == Some((k@, n as int)) && n <= v.len(),
{
    let len = v.len();
    if len >= 2 && is_win_sep(v[0]) && is_win_sep(v[1]) {
        if len >= 4 && v[0] == '\\' && v[1] == '\\' && v[2] == '?' && v[3] == '\\' {
            if len >= 8 && v[4] == 'U' && v[5] == 'N' && v[6] == 'C' && is_win_sep(v[7]) {
                let e1 = find_sep(v, 8, true);
                let server = sub_chars(v, 8, e1);
                if e1 < len {
                    let e2 = find_sep(v, e1 + 1, true);
                    let share = sub_chars(v, e1 + 1, e2);
                    let n = if share.len() > 0 {
                        e2
                    } else {
                        e1
                    };
                    Some((PrefixKind::VerbatimUNC(server, share), n))
                } else {
                    let share: Vec<char> = Vec::new();
                    assert(share@ =~= Seq::<char>::empty());
                    Some((PrefixKind::VerbatimUNC(server, share), e1))
                }
            } else if has_drive_at(v, 4) && (len == 6 || is_win_sep(v[6])) {
                Some((PrefixKind::VerbatimDisk(v[4]), 6))
            } else {
                let e = find_sep(v, 4, true);
                Some((PrefixKind::Verbatim(sub_chars(v, 4, e)), e))
            }
        } else if len >= 4 && v[2] == '.' && is_win_sep(v[3]) {
            let e = find_sep(v, 4, false);
            Some((PrefixKind::DeviceNS(sub_chars(v, 4, e)), e))
        } else {
            let e1 = find_sep(v, 2, false);
            if e1 < len {
                let e2 = find_sep(v, e1 + 1, false);
                if e1 > 2 && e2 > e1 + 1 {
                    Some((PrefixKind::UNC(sub_chars(v, 2, e1), sub_chars(v, e1 + 1, e2)), e2))
                } else {
                    None
                }
            } else {
                None
            }
        }
    } else if has_drive_at(v, 0) {
        Some((PrefixKind::Disk(v[0]), 2))
    } else {
        None
    }
}

fn is_verbatim(k: &PrefixKind) -> (r: bool)
    ensures
        r == prefix_verbatim(k@),
{
    match k {
        PrefixKind::Verbatim(_) => true,
        PrefixKind::VerbatimUNC(_, _) => true,
        PrefixKind::VerbatimDisk(_) => true,
        _ => false,
    }
}

fn append_verbatim(out: &mut Vec<Component>, pieces: &Vec<Vec<char>>)
    ensures
        parts_view(final(out)@) == parts_view(old(out)@) + verbatim_parts(
            crate::paths::pieces_view(pieces@),
        ),
{
    let ghost start = parts_view(out@);
    let ghost all = crate::paths::pieces_view(pieces@);
    let mut i: usize = 0;
    assert(all.take(0) =~= Seq::<Seq<char>>::empty());
    assert(parts_view(out@) =~= start + verbatim_parts(all.take(0)));
    while i < pieces.len()
        invariant
            i <= pieces.len(),
            all == crate::paths::pieces_view(pieces@),
            all.len() == pieces.len(),
            parts_view(out@) == start + verbatim_parts(all.take(i as int)),
        decreases pieces.len() - i,
    {
        let ghost before = out@;
        let p = &pieces[i];
        assert(all[i as int] == p@);
        assert(all.take(i + 1).drop_last() == all.take(i as int));
        assert(all.take(i + 1).last() == p@);
        if p.len() == 0 {
        } else if is_dot(p) {
            out.push(Component::CurDir);
            assert(parts_view(out@) =~= parts_view(before).push(PathPart::CurDir));
        } else if is_dot_dot(p) {
            out.push(Component::ParentDir);
            assert(parts_view(out@) =~= parts_view(before).push(PathPart::ParentDir));
        } else {
            out.push(Component::Normal(p.clone()));
            assert(parts_view(out@) =~= parts_view(before).push(PathPart::Normal(p@)));
        }
        i = i + 1;
    }
    assert(all.take(pieces.len() as int) == all);
}

fn append_relative(out: &mut Vec<Component>, u: &Vec<char>)
    ensures
        parts_view(final(out)@) == parts_view(old(out)@) + relative_parts(u@),
{
    let pieces = split_chars(u, '\\');
    let ghost ps = split_on(u@, '\\');
    proof {
        lemma_split_nonempty(u@, '\\');
        assert(crate::paths::pieces_view(pieces@) =~= ps);
        assert(ps.skip(1) == ps.drop_first());
        assert(ps.skip(0) == ps);
    }
    if is_dot(&pieces[0]) {
        let ghost before = parts_view(out@);
        out.push(Component::CurDir);
        assert(parts_view(out@) =~= before + seq![PathPart::CurDir]);
        append_pieces(out, &pieces, 1);
        assert(parts_view(out@) =~= before + (seq![PathPart::CurDir] + pieces_to_parts(
            ps.drop_first(),
        )));
    } else {
        append_pieces(out, &pieces, 0);
    }
}

fn append_split(out: &mut Vec<Component>, u: &Vec<char>)
    ensures
        parts_view(final(out)@) == parts_view(old(out)@) + pieces_to_parts(split_on(u@, '\\')),
{
    let pieces = split_chars(u, '\\');
    proof {
        assert(crate::paths::pieces_view(pieces@) =~= split_on(u@, '\\'));
        assert(split_on(u@, '\\').skip(0) == split_on(u@, '\\'));
    }
    append_pieces(out, &pieces, 0);
}

/// The components of `s`, as `Path::components` yields them on Windows.
pub fn win_path_components(s: &str) -> (cs: Vec<Component>)
    ensures
        parts_view(cs@) == win_components(s@),
{
    let v = chars_of(s);
    let len = v.len();
    let mut out: Vec<Component> = Vec::new();
    assert(parts_view(out@) =~= Seq::<PathPart>::empty());
    match parse_prefix(&v) {
        Some((k, n)) => {
            let ghost kv = k@;
            let verbatim = is_verbatim(&k);
            let disk = matches!(k, PrefixKind::Disk(_));
            let phys = n < len && is_win_sep(v[n]);
            let start = if phys {
                n + 1
            } else {
                n
            };
            let ghost rest = v@.skip(n as int);
            let ghost body = if phys {
                rest.skip(1)
            } else {
                rest
            };
            assert(body =~= v@.skip(start as int));
            assert(phys == (rest.len() > 0 && win_sep(rest[0])));
            let raw = sub_chars(&v, 0, n);
            assert(raw@ =~= v@.take(n as int));
            out.push(Component::Prefix(k, raw));
            let ghost head = parts_view(out@);
            assert(head =~= seq![PathPart::Prefix(kv, v@.take(n as int))]);
            if verbatim {
                out.push(Component::RootDir);
                let b = sub_chars(&v, start, len);
                assert(b@ =~= body);
                let pieces = split_chars(&b, '\\');
                assert(crate::paths::pieces_view(pieces@) =~= split_on(body, '\\'));
                append_verbatim(&mut out, &pieces);
                assert(parts_view(out@) =~= head + seq![PathPart::RootDir] + verbatim_parts(
                    split_on(body, '\\'),
                ));
            } else if phys || !disk {
                out.push(Component::RootDir);
                let u = unified_from(&v, start);
                append_split(&mut out, &u);
                assert(parts_view(out@) =~= head + seq![PathPart::RootDir] + pieces_to_parts(
                    split_on(unify(body), '\\'),
                ));
            } else {
                let u = unified_from(&v, start);
                append_relative(&mut out, &u);
            }
        },
        None => {
            if len > 0 && is_win_sep(v[0]) {
                out.push(Component::RootDir);
                let u = unified_from(&v, 1);
                append_split(&mut out, &u);
                assert(parts_view(out@) =~= seq![PathPart::RootDir] + pieces_to_parts(
                    split_on(unify(v@.skip(1)), '\\'),
                ));
            } else {
                let u = unified_from(&v, 0);
                assert(v@.skip(0) =~= v@);
                append_relative(&mut out, &u);
                assert(parts_view(out@) =~= relative_parts(unify(v@)));
            }
        },
    }
    out
}

/// Whether `s` is an absolute path on Windows.
pub fn win_path_is_absolute(s: &str) -> (r: bool)
    ensures
        r == win_is_absolute(s@),
{
    let v = chars_of(s);
    match parse_prefix(&v) {
        Some((k, n)) => (n < v.len() && is_win_sep(v[n])) || !matches!(k, PrefixKind::Disk(_)),
        None => false,
    }
}

// ---------------------------------------------------------------------------
// Normalization laws
// ---------------------------------------------------------------------------

/// A component text that normalization keeps on Windows: a normal piece that is
/// free of `\` as well.
pub open spec fn is_win_piece(p: Seq<char>) -> bool {
    is_normal_piece(p) && forall|i: int| 0 <= i < p.len() ==> p[i] != '\\'
}

/// The normal components of a sequence of components are such pieces.
pub open spec fn win_normals(cs: Seq<PathPart>) -> bool {
    forall|i: int| 0 <= i < cs.len() ==> (#[trigger] cs[i] matches PathPart::Normal(p) ==> is_win_piece(p))
}

proof fn lemma_split_free_of(s: Seq<char>, sep: char, c: char)
    requires
        forall|i: int| 0 <= i < s.len() ==> s[i] != c,
    ensures
        forall|i: int, j: int|
            0 <= i < split_on(s, sep).len() && 0 <= j < split_on(s, sep)[i].len() ==> split_on(
                s,
                sep,
            )[i][j] != c,
    decreases s.len(),
{
    if s.len() > 0 {
        let t = s.drop_last();
        assert forall|i: int| 0 <= i < t.len() implies t[i] != c by {
            assert(t[i] == s[i]);
        }
        lemma_split_free_of(t, sep, c);
        lemma_split_nonempty(t, sep);
        assert(s.last() == s[s.len() - 1]);
    }
}

proof fn lemma_unify_free(s: Seq<char>)
    ensures
        forall|i: int| 0 <= i < unify(s).len() ==> unify(s)[i] != '/',
{
}

proof fn lemma_win_pieces_to_parts(ps: Seq<Seq<char>>)
    requires
        forall|i: int, j: int|
            0 <= i < ps.len() && 0 <= j < ps[i].len() ==> ps[i][j] != '/' && ps[i][j] != '\\',
    ensures
        win_normals(pieces_to_parts(ps)),
    decreases ps.len(),
{
    if ps.len() > 0 {
        let rest = ps.drop_last();
        assert forall|i: int, j: int| 0 <= i < rest.len() && 0 <= j < rest[i].len() implies rest[i][j]
            != '/' && rest[i][j] != '\\' by {
            assert(rest[i] == ps[i]);
        }
        lemma_win_pieces_to_parts(rest);
        let r = pieces_to_parts(rest);
        assert(ps.last() == ps[ps.len() - 1]);
        let out = pieces_to_parts(ps);
        assert forall|i: int| 0 <= i < out.len() implies (#[trigger] out[i] matches PathPart::Normal(
            q,
        ) ==> is_win_piece(q)) by {
            if i < r.len() {
                assert(out[i] == r[i]);
            }
        }
    }
}

proof fn lemma_win_normal_pieces(cs: Seq<PathPart>)
    requires
        win_normals(cs),
        normal_pieces(cs) is Some,
    ensures
        forall|i: int|
            0 <= i < normal_pieces(cs)->Some_0.len() ==> is_win_piece(
                #[trigger] normal_pieces(cs)->Some_0[i],
            ),
    decreases cs.len(),
{
    if cs.len() > 0 {
        let rest = cs.drop_last();
        assert(win_normals(rest)) by {
            assert forall|i: int| 0 <= i < rest.len() implies (#[trigger] rest[i] matches PathPart::Normal(
                p,
            ) ==> is_win_piece(p)) by {
                assert(rest[i] == cs[i]);
            }
        }
        lemma_win_normal_pieces(rest);
        assert(cs.last() == cs[cs.len() - 1]);
    }
}

/// Every component that normalization yields on Windows is a piece free of
/// both separators, nonempty, and neither `.` nor `..`.
pub proof fn lemma_win_normalized_pieces(s: Seq<char>)
    requires
        normalize_in(PathStyle::Windows, s) is Some,
    ensures
        forall|i: int|
            0 <= i < normalize_in(PathStyle::Windows, s)->Some_0.len() ==> is_win_piece(
                #[trigger] normalize_in(PathStyle::Windows, s)->Some_0[i],
            ),
{
    let cs = win_components(s);
    assert(components_in(PathStyle::Windows, s) == cs);
    if win_prefix(s) is Some || (s.len() > 0 && win_sep(s[0])) {
        assert(normal_pieces(cs.take(1)) is None) by {
            assert(cs.take(1).drop_last() =~= Seq::<PathPart>::empty());
            assert(cs.take(1).last() == cs[0]);
        }
        lemma_normal_pieces_none_extends(cs, 1);
    } else {
        let u = unify(s);
        let ps = split_on(u, '\\');
        lemma_split_nonempty(u, '\\');
        lemma_unify_free(s);
        lemma_split_free_of(u, '\\', '/');
        lemma_split_pieces_free_of_sep(u, '\\');
        let tail = ps.drop_first();
        assert forall|i: int, j: int| 0 <= i < tail.len() && 0 <= j < tail[i].len() implies tail[i][j]
            != '/' && tail[i][j] != '\\' by {
            assert(tail[i] == ps[i + 1]);
        }
        lemma_win_pieces_to_parts(tail);
        lemma_win_pieces_to_parts(ps);
        assert(win_normals(cs)) by {
            if ps[0] == dot() {
                let body = pieces_to_parts(tail);
                assert(cs == seq![PathPart::CurDir] + body);
                assert forall|i: int| 0 <= i < cs.len() implies (#[trigger] cs[i] matches PathPart::Normal(
                    p,
                ) ==> is_win_piece(p)) by {
                    if i >= 1 {
                        assert(cs[i] == body[i - 1]);
                    }
                }
            }
        }
        lemma_win_normal_pieces(cs);
    }
}

proof fn lemma_join_with_start(ns: Seq<Seq<char>>, sep: char)
    requires
        ns.len() > 0,
    ensures
        ns[0].is_prefix_of(join_with(ns, sep)),
        ns.len() > 1 ==> ns[0].push(sep).is_prefix_of(join_with(ns, sep)),
    decreases ns.len(),
{
    if ns.len() > 1 {
        let rest = ns.drop_last();
        assert(rest[0] == ns[0]);
        lemma_join_with_start(rest, sep);
        let j = join_with(rest, sep);
        let full = join_with(ns, sep);
        assert(full == j + seq![sep] + ns.last());
        assert forall|i: int| 0 <= i < ns[0].len() implies ns[0][i] == full[i] by {
            assert(ns[0][i] == j[i]);
        }
        if rest.len() == 1 {
            assert(j == ns[0]);
            assert(full[ns[0].len() as int] == sep);
        } else {
            assert(ns[0].push(sep)[ns[0].len() as int] == j[ns[0].len() as int]);
        }
        assert forall|i: int| 0 <= i < ns[0].push(sep).len() implies ns[0].push(sep)[i] == full[i] by {
            if i < ns[0].len() {
                assert(ns[0].push(sep)[i] == ns[0][i]);
            }
        }
    }
}

proof fn lemma_join_with_free(ns: Seq<Seq<char>>, sep: char, c: char)
    requires
        c != sep,
        forall|i: int, j: int| 0 <= i < ns.len() && 0 <= j < ns[i].len() ==> ns[i][j] != c,
    ensures
        forall|k: int| 0 <= k < join_with(ns, sep).len() ==> join_with(ns, sep)[k] != c,
    decreases ns.len(),
{
    if ns.len() > 1 {
        let rest = ns.drop_last();
        assert forall|i: int, j: int| 0 <= i < rest.len() && 0 <= j < rest[i].len() implies rest[i][j]
            != c by {
            assert(rest[i] == ns[i]);
        }
        lemma_join_with_free(rest, sep, c);
        let last = ns.last();
        assert(last == ns[ns.len() - 1]);
        let j = join_with(rest, sep);
        let full = join_with(ns, sep);
        assert forall|k: int| 0 <= k < full.len() implies full[k] != c by {
            if k < j.len() {
                assert(full[k] == j[k]);
            } else if k > j.len() {
                assert(full[k] == last[k - j.len() - 1]);
            }
        }
    } else if ns.len() == 1 {
        assert forall|k: int| 0 <= k < ns[0].len() implies ns[0][k] != c by {}
    }
}

proof fn lemma_split_join_with(ns: Seq<Seq<char>>, sep: char)
    requires
        ns.len() > 0,
        forall|i: int, j: int| 0 <= i < ns.len() && 0 <= j < ns[i].len() ==> ns[i][j] != sep,
    ensures
        split_on(join_with(ns, sep), sep) == ns,
    decreases ns.len(),
{
    if ns.len() == 1 {
        assert forall|j: int| 0 <= j < ns[0].len() implies ns[0][j] != sep by {}
        lemma_split_single(ns[0], sep);
        assert(seq![ns[0]] =~= ns);
    } else {
        let rest = ns.drop_last();
        assert forall|i: int, j: int| 0 <= i < rest.len() && 0 <= j < rest[i].len() implies rest[i][j]
            != sep by {
            assert(rest[i] == ns[i]);
        }
        lemma_split_join_with(rest, sep);
        let last = ns.last();
        assert(last == ns[ns.len() - 1]);
        assert forall|j: int| 0 <= j < last.len() implies last[j] != sep by {}
        assert(join_with(rest, sep) + seq![sep] + last =~= join_with(rest, sep).push(sep) + last);
        lemma_split_extend(join_with(rest, sep), last, sep);
        assert(rest.push(last) =~= ns);
    }
}

/// On Windows, the text of normalized components normalizes back to the same
/// components, provided the first of them does not read as a drive (`C:`).
pub proof fn lemma_win_normalize_render(ns: Seq<Seq<char>>)
    requires
        forall|i: int| 0 <= i < ns.len() ==> is_win_piece(#[trigger] ns[i]),
        ns.len() > 0 ==> !drive_at(ns[0], 0),
    ensures
        normalize_in(PathStyle::Windows, render_relative_in(PathStyle::Windows, ns)) == Some(ns),
{
    if ns.len() == 0 {
        let s = dot();
        assert(win_prefix(s) is None);
        assert(unify(s) =~= s);
        assert forall|j: int| 0 <= j < s.len() implies s[j] != '\\' by {}
        lemma_split_single(s, '\\');
        assert(split_on(s, '\\')[0] == dot());
        assert(split_on(s, '\\').drop_first() =~= Seq::<Seq<char>>::empty());
        assert(pieces_to_parts(Seq::<Seq<char>>::empty()) =~= Seq::<PathPart>::empty());
        let cs = win_components(s);
        assert(cs =~= seq![PathPart::CurDir]);
        assert(cs.drop_last() =~= Seq::<PathPart>::empty());
        assert(normal_pieces(cs.drop_last()) == Some(Seq::<Seq<char>>::empty()));
        assert(cs.last() == PathPart::CurDir);
        assert(normal_pieces(cs) == Some(Seq::<Seq<char>>::empty()));
        assert(ns =~= Seq::<Seq<char>>::empty());
    } else {
        let s = join_with(ns, '\\');
        assert forall|i: int, j: int| 0 <= i < ns.len() && 0 <= j < ns[i].len() implies ns[i][j]
            != '\\' && ns[i][j] != '/' by {
            assert(is_win_piece(ns[i]));
        }
        lemma_split_join_with(ns, '\\');
        lemma_join_with_free(ns, '\\', '/');
        lemma_join_with_start(ns, '\\');
        assert(is_win_piece(ns[0]));
        let p0 = ns[0];
        assert(s[0] == p0[0]);
        assert(!win_sep(s[0]));
        assert(!drive_at(s, 0)) by {
            if p0.len() >= 2 {
                assert(s[1] == p0[1]);
            } else if ns.len() > 1 {
                assert(s[1] == p0.push('\\')[1]);
            }
        }
        assert(win_prefix(s) is None);
        assert(unify(s) =~= s);
        assert(split_on(s, '\\')[0] == p0);
        lemma_parts_of_normal_pieces(ns);
        assert(win_components(s) == pieces_to_parts(ns));
        assert(s.len() > 0);
    }
}

/// On Windows, normalizing is idempotent for paths whose first normalized
/// component does not read as a drive (`C:`).
pub proof fn lemma_win_normalize_idempotent(s: Seq<char>)
    requires
        normalize_in(PathStyle::Windows, s) is Some,
        normalize_in(PathStyle::Windows, s)->Some_0.len() > 0 ==> !drive_at(
            normalize_in(PathStyle::Windows, s)->Some_0[0],
            0,
        ),
    ensures
        normalize_in(
            PathStyle::Windows,
            render_relative_in(PathStyle::Windows, normalize_in(PathStyle::Windows, s)->Some_0),
        ) == normalize_in(PathStyle::Windows, s),
{
    lemma_win_normalized_pieces(s);
    lemma_win_normalize_render(normalize_in(PathStyle::Windows, s)->Some_0);
}

} // verus!
