//! A model of `std::path`: the components of a path string on Unix, rendering
//! components back to text, relative-path normalization, prefix stripping, and
//! the component-wise order that `Path`'s `Ord` uses. The Windows parse lives in
//! `windows_path`; the functions ending in `_in` take the platform as an argument.
use crate::text::{
    ascii_lower, char_ascii_lower, chars_eq, chars_of, lemma_split_extend, lemma_split_nonempty, lemma_split_pieces_free_of_sep,
    lemma_split_single, split_chars, split_on, string_of,
};
use crate::windows_path::{win_components, win_is_absolute, win_path_components, win_path_is_absolute};
use std::path::PathBuf;
use vstd::prelude::*;

verus! {

/// `std::path::PathBuf`, carried through unchanged.
#[verifier::external_type_specification]
#[verifier::external_body]
pub struct ExPathBuf(PathBuf);

/// `<PathBuf as Clone>::clone`: a copy of the path.
pub assume_specification[ <PathBuf as Clone>::clone ](p: &PathBuf) -> (r: PathBuf)
    ensures
        r == *p,
;

/// The platform whose path rules apply.
#[derive(Clone, Copy, Debug, PartialEq, Eq, Structural)]
pub enum PathStyle {
    Unix,
    Windows,
}

/// The prefix a Windows path begins with, as `std::path::Prefix` parses it. A
/// drive letter is kept as written.
pub enum WinPrefix {
    Verbatim(Seq<char>),
    VerbatimUNC(Seq<char>, Seq<char>),
    VerbatimDisk(char),
    DeviceNS(Seq<char>),
    UNC(Seq<char>, Seq<char>),
    Disk(char),
}

/// A Windows path prefix, with the texts it names.
pub enum PrefixKind {
    Verbatim(Vec<char>),
    VerbatimUNC(Vec<char>, Vec<char>),
    VerbatimDisk(char),
    DeviceNS(Vec<char>),
    UNC(Vec<char>, Vec<char>),
    Disk(char),
}

impl View for PrefixKind {
    type V = WinPrefix;

    open spec fn view(&self) -> WinPrefix {
        match self {
            PrefixKind::Verbatim(a) => WinPrefix::Verbatim(a@),
            PrefixKind::VerbatimUNC(a, b) => WinPrefix::VerbatimUNC(a@, b@),
            PrefixKind::VerbatimDisk(c) => WinPrefix::VerbatimDisk(*c),
            PrefixKind::DeviceNS(a) => WinPrefix::DeviceNS(a@),
            PrefixKind::UNC(a, b) => WinPrefix::UNC(a@, b@),
            PrefixKind::Disk(c) => WinPrefix::Disk(*c),
        }
    }
}

/// One component of a path, as `std::path::Component` reports it. A prefix
/// (Windows only) carries its parsed form and the text it was written as.
pub enum PathPart {
    Prefix(WinPrefix, Seq<char>),
    RootDir,
    CurDir,
    ParentDir,
    Normal(Seq<char>),
}

/// One component of a path, with the text of a normal component.
pub enum Component {
    Prefix(PrefixKind, Vec<char>),
    RootDir,
    CurDir,
    ParentDir,
    Normal(Vec<char>),
}

impl View for Component {
    type V = PathPart;

    open spec fn view(&self) -> PathPart {
        match self {
            Component::Prefix(k, raw) => PathPart::Prefix(k@, raw@),
            Component::RootDir => PathPart::RootDir,
            Component::CurDir => PathPart::CurDir,
            Component::ParentDir => PathPart::ParentDir,
            Component::Normal(v) => PathPart::Normal(v@),
        }
    }
}

/// The views of a sequence of components.
pub open spec fn parts_view(v: Seq<Component>) -> Seq<PathPart> {
    v.map_values(|c: Component| c@)
}

/// The texts of a sequence of character vectors.
pub open spec fn pieces_view(v: Seq<Vec<char>>) -> Seq<Seq<char>> {
    v.map_values(|p: Vec<char>| p@)
}

/// The single-dot piece.
pub open spec fn dot() -> Seq<char> {
    seq!['.']
}

/// The double-dot piece.
pub open spec fn dot_dot() -> Seq<char> {
    seq!['.', '.']
}

/// The components named by pieces between separators: empty pieces and `.` are
/// dropped, `..` is the parent component, any other piece is a normal component.
pub open spec fn pieces_to_parts(ps: Seq<Seq<char>>) -> Seq<PathPart>
    decreases ps.len(),
{
    if ps.len() == 0 {
        Seq::empty()
    } else {
        let rest = pieces_to_parts(ps.drop_last());
        let p = ps.last();
        if p.len() == 0 || p == dot() {
            rest
        } else if p == dot_dot() {
            rest.push(PathPart::ParentDir)
        } else {
            rest.push(PathPart::Normal(p))
        }
    }
}

/// Whether a path string has a root, which on Unix is what `Path::is_absolute` tests.
pub open spec fn is_absolute(s: Seq<char>) -> bool {
    s.len() > 0 && s[0] == '/'
}

/// `Path::components` on Unix: a leading `/` is the root; a leading `.` piece of a
/// relative path is the current directory; the remaining pieces as `pieces_to_parts`.
pub open spec fn components(s: Seq<char>) -> Seq<PathPart> {
    let ps = split_on(s, '/');
    if is_absolute(s) {
        seq![PathPart::RootDir] + pieces_to_parts(ps.drop_first())
    } else if ps[0] == dot() {
        seq![PathPart::CurDir] + pieces_to_parts(ps.drop_first())
    } else {
        pieces_to_parts(ps)
    }
}

/// The text of one component.
pub open spec fn part_text(c: PathPart) -> Seq<char> {
    match c {
        PathPart::Prefix(_, raw) => raw,
        PathPart::RootDir => seq!['/'],
        PathPart::CurDir => dot(),
        PathPart::ParentDir => dot_dot(),
        PathPart::Normal(p) => p,
    }
}

/// Pieces joined with `/` between them.
pub open spec fn join(ps: Seq<Seq<char>>) -> Seq<char>
    decreases ps.len(),
{
    if ps.len() == 0 {
        Seq::empty()
    } else if ps.len() == 1 {
        ps[0]
    } else {
        join(ps.drop_last()) + seq!['/'] + ps.last()
    }
}

/// The path text of a component sequence: a root becomes a leading `/` and the
/// other components are joined with `/`.
pub open spec fn render(cs: Seq<PathPart>) -> Seq<char> {
    if cs.len() > 0 && cs[0] == PathPart::RootDir {
        seq!['/'] + join(cs.drop_first().map_values(|c: PathPart| part_text(c)))
    } else {
        join(cs.map_values(|c: PathPart| part_text(c)))
    }
}

/// The normal components of a relative path with `.` components removed, or
/// `None` when the path is empty or holds a root or a parent component. An
/// empty result stands for the current directory `.`.
pub open spec fn normalize_spec(s: Seq<char>) -> Option<Seq<Seq<char>>> {
    if s.len() == 0 {
        None
    } else {
        normal_pieces(components(s))
    }
}

/// The texts of normal components, `None` when a root or parent component occurs.
pub open spec fn normal_pieces(cs: Seq<PathPart>) -> Option<Seq<Seq<char>>>
    decreases cs.len(),
{
    if cs.len() == 0 {
        Some(Seq::empty())
    } else {
        match normal_pieces(cs.drop_last()) {
            None => None,
            Some(rest) => match cs.last() {
                PathPart::CurDir => Some(rest),
                PathPart::Normal(p) => Some(rest.push(p)),
                _ => None,
            },
        }
    }
}

/// The text of a normalized relative path: `.` for no components, otherwise the
/// components joined with `/`.
pub open spec fn render_relative(ns: Seq<Seq<char>>) -> Seq<char> {
    if ns.len() == 0 {
        dot()
    } else {
        join(ns)
    }
}

/// `Path::strip_prefix`: when the components of `base` begin the components of
/// `path`, the text of the remaining components, rendered from them (`std` gives
/// back the original text, which is the same for paths written with single `/`
/// separators and no `.` pieces).
pub open spec fn strip_prefix_spec(path: Seq<char>, base: Seq<char>) -> Option<Seq<char>> {
    let pc = components(path);
    let bc = components(base);
    if bc.is_prefix_of(pc) {
        Some(render(pc.skip(bc.len() as int)))
    } else {
        None
    }
}

/// `Path::file_name`: the last component when it is a normal one.
pub open spec fn file_name_spec(path: Seq<char>) -> Option<Seq<char>> {
    let cs = components(path);
    if cs.len() > 0 {
        match cs.last() {
            PathPart::Normal(p) => Some(p),
            _ => None,
        }
    } else {
        None
    }
}

/// `Path::parent`: the path without its last component, unless the path is empty
/// or ends in its root; rendered from the components, as for `strip_prefix_spec`.
pub open spec fn parent_spec(path: Seq<char>) -> Option<Seq<char>> {
    let cs = components(path);
    if cs.len() == 0 || cs.last() == PathPart::RootDir {
        None
    } else {
        Some(render(cs.drop_last()))
    }
}

// ---------------------------------------------------------------------------
// Executable counterparts
// ---------------------------------------------------------------------------

pub(crate) fn is_dot(p: &Vec<char>) -> (r: bool)
    ensures
        r == (p@ == dot()),
{
    let r = p.len() == 1 && p[0] == '.';
    proof {
        if r {
            assert(p@ =~= dot());
        }
        if p@ == dot() {
            assert(p@[0] == '.');
        }
    }
    r
}

pub(crate) fn is_dot_dot(p: &Vec<char>) -> (r: bool)
    ensures
        r == (p@ == dot_dot()),
{
    let r = p.len() == 2 && p[0] == '.' && p[1] == '.';
    proof {
        if p@ == dot_dot() {
            assert(p@[0] == '.' && p@[1] == '.');
        }
        if r {
            assert(p@ =~= dot_dot());
        }
    }
    r
}

pub(crate) fn append_pieces(
    out: &mut Vec<Component>,
    pieces: &Vec<Vec<char>>,
    from: usize,
)
    requires
        from <= pieces.len(),
    ensures
        parts_view(final(out)@) == parts_view(old(out)@) + pieces_to_parts(
            pieces_view(pieces@).skip(from as int),
        ),
{
    let ghost start = parts_view(out@);
    let ghost all = pieces_view(pieces@).skip(from as int);
    let mut i: usize = from;
    assert(all.take(0) =~= Seq::<Seq<char>>::empty());
    assert(parts_view(out@) =~= start + pieces_to_parts(all.take(0)));
    while i < pieces.len()
        invariant
            from <= i <= pieces.len(),
            all == pieces_view(pieces@).skip(from as int),
            all.len() == pieces.len() - from,
            parts_view(out@) == start + pieces_to_parts(all.take(i - from)),
        decreases pieces.len() - i,
    {
        let ghost before = out@;
        let p = &pieces[i];
        assert(all[i - from] == p@);
        assert(all.take(i - from + 1).drop_last() == all.take(i - from));
        assert(all.take(i - from + 1).last() == p@);
        if p.len() == 0 || is_dot(p) {
        } else if is_dot_dot(p) {
            out.push(Component::ParentDir);
            assert(parts_view(out@) =~= parts_view(before).push(PathPart::ParentDir));
        } else {
            out.push(Component::Normal(p.clone()));
            assert(parts_view(out@) =~= parts_view(before).push(PathPart::Normal(p@)));
        }
        i = i + 1;
    }
    assert(all.take(pieces.len() - from) == all);
}

/// The components of `s`, as `Path::components` yields them on Unix.
pub fn path_components(s: &str) -> (cs: Vec<Component>)
    ensures
        parts_view(cs@) == components(s@),
{
    let v = chars_of(s);
    let pieces = split_chars(&v, '/');
    let ghost ps = split_on(s@, '/');
    proof {
        lemma_split_nonempty(s@, '/');
        assert(pieces_view(pieces@) =~= ps);
        assert(ps.skip(1) == ps.drop_first());
        assert(ps.skip(0) == ps);
    }
    let mut out: Vec<Component> = Vec::new();
    if v.len() > 0 && v[0] == '/' {
        out.push(Component::RootDir);
        append_pieces(&mut out, &pieces, 1);
    } else if is_dot(&pieces[0]) {
        out.push(Component::CurDir);
        append_pieces(&mut out, &pieces, 1);
    } else {
        append_pieces(&mut out, &pieces, 0);
        assert(parts_view(Seq::<Component>::empty()) =~= Seq::<PathPart>::empty());
    }
    out
}

/// The pieces joined with `/` between them.
pub fn join_pieces(ps: &Vec<Vec<char>>) -> (r: Vec<char>)
    ensures
        r@ == join(pieces_view(ps@)),
{
    let ghost all = pieces_view(ps@);
    let mut r: Vec<char> = Vec::new();
    let mut i: usize = 0;
    while i < ps.len()
        invariant
            i <= ps.len(),
            all == pieces_view(ps@),
            r@ == join(all.take(i as int)),
        decreases ps.len() - i,
    {
        assert(all.take(i + 1).drop_last() == all.take(i as int));
        assert(all.take(i + 1).last() == ps@[i as int]@);
        if i > 0 {
            r.push('/');
        } else {
            assert(all.take(1).len() == 1);
        }
        let mut piece = ps[i].clone();
        r.append(&mut piece);
        i = i + 1;
    }
    assert(all.take(ps.len() as int) == all);
    r
}

pub(crate) fn part_text_of(c: &Component) -> (r: Vec<char>)
    ensures
        r@ == part_text(c@),
{
    match c {
        Component::Prefix(_, raw) => raw.clone(),
        Component::RootDir => {
            let mut r = Vec::new();
            r.push('/');
            r
        },
        Component::CurDir => {
            let mut r = Vec::new();
            r.push('.');
            assert(r@ =~= dot());
            r
        },
        Component::ParentDir => {
            let mut r = Vec::new();
            r.push('.');
            r.push('.');
            assert(r@ =~= dot_dot());
            r
        },
        Component::Normal(p) => p.clone(),
    }
}

/// The path text of the components `cs[from..]`.
pub fn render_components(cs: &Vec<Component>, from: usize) -> (r: Vec<char>)
    requires
        from <= cs.len(),
    ensures
        r@ == render(parts_view(cs@).skip(from as int)),
{
    let ghost rest = parts_view(cs@).skip(from as int);
    let rooted = from < cs.len() && matches!(cs[from], Component::RootDir);
    let start: usize = if rooted {
        from + 1
    } else {
        from
    };
    let mut texts: Vec<Vec<char>> = Vec::new();
    let mut i: usize = start;
    while i < cs.len()
        invariant
            start <= i <= cs.len(),
            texts@.len() == i - start,
            forall|k: int|
                0 <= k < texts@.len() ==> #[trigger] texts@[k]@ == part_text(cs@[start + k]@),
        decreases cs.len() - i,
    {
        texts.push(part_text_of(&cs[i]));
        i = i + 1;
    }
    let joined = join_pieces(&texts);
    proof {
        let tail = if rooted {
            rest.drop_first()
        } else {
            rest
        };
        assert(tail =~= parts_view(cs@).skip(start as int));
        assert(pieces_view(texts@) =~= tail.map_values(
            |c: PathPart| part_text(c),
        ));
        if rooted {
            assert(rest[0] == PathPart::RootDir);
        } else if rest.len() > 0 {
            assert(rest[0] == cs@[from as int]@);
        }
    }
    if rooted {
        let mut r: Vec<char> = Vec::new();
        r.push('/');
        let mut j = joined;
        r.append(&mut j);
        r
    } else {
        joined
    }
}

/// Whether `s` is an absolute path.
pub fn path_is_absolute(s: &str) -> (r: bool)
    ensures
        r == is_absolute(s@),
{
    let v = chars_of(s);
    v.len() > 0 && v[0] == '/'
}

/// The normal components of the relative path `s`, as `normalize_spec` describes.
pub fn normalize_pieces(s: &str) -> (r: Option<Vec<Vec<char>>>)
    ensures
        r is Some <==> normalize_spec(s@) is Some,
        r matches Some(v) ==> pieces_view(v@) == normalize_spec(s@)->Some_0,
{
    let v = chars_of(s);
    if v.len() == 0 {
        return None;
    }
    let cs = path_components(s);
    let ghost pv = parts_view(cs@);
    let mut out: Vec<Vec<char>> = Vec::new();
    let mut i: usize = 0;
    while i < cs.len()
        invariant
            i <= cs.len(),
            pv == parts_view(cs@),
            pv == components(s@),
            s@.len() > 0,
            normal_pieces(pv.take(i as int)) == Some(pieces_view(out@)),
        decreases cs.len() - i,
    {
        let ghost before = out@;
        assert(pv.take(i + 1).drop_last() == pv.take(i as int));
        assert(pv.take(i + 1).last() == cs@[i as int]@);
        match &cs[i] {
            Component::CurDir => {},
            Component::Normal(p) => {
                out.push(p.clone());
                assert(pieces_view(out@) =~= before.map_values(
                    |p: Vec<char>| p@,
                ).push(p@));
            },
            _ => {
                assert(normal_pieces(pv.take(i + 1)) is None);
                proof {
                    lemma_normal_pieces_none_extends(pv, i + 1);
                    assert(pv.take(cs.len() as int) == pv);
                    assert(normal_pieces(pv) is None);
                    assert(s@.len() > 0);
                    assert(normalize_spec(s@) == normal_pieces(pv));
                }
                return None;
            },
        }
        i = i + 1;
    }
    assert(pv.take(cs.len() as int) == pv);
    Some(out)
}

pub(crate) proof fn lemma_normal_pieces_none_extends(cs: Seq<PathPart>, i: int)
    requires
        0 <= i <= cs.len(),
        normal_pieces(cs.take(i)) is None,
    ensures
        normal_pieces(cs) is None,
    decreases cs.len() - i,
{
    if i < cs.len() {
        assert(cs.take(i + 1).drop_last() == cs.take(i));
        lemma_normal_pieces_none_extends(cs, i + 1);
    } else {
        assert(cs.take(i) == cs);
    }
}

/// The text of a normalized relative path.
pub fn render_relative_pieces(ns: &Vec<Vec<char>>) -> (r: String)
    ensures
        r@ == render_relative(pieces_view(ns@)),
{
    if ns.len() == 0 {
        let mut v = Vec::new();
        v.push('.');
        assert(v@ =~= dot());
        string_of(&v)
    } else {
        let j = join_pieces(ns);
        string_of(&j)
    }
}

fn prefixes_equal(a: &PrefixKind, b: &PrefixKind) -> (r: bool)
    ensures
        r == (a@ == b@),
{
    match (a, b) {
        (PrefixKind::Verbatim(x), PrefixKind::Verbatim(y)) => chars_eq(x, y),
        (PrefixKind::VerbatimUNC(x, y), PrefixKind::VerbatimUNC(z, w)) => chars_eq(x, z) && chars_eq(
            y,
            w,
        ),
        (PrefixKind::VerbatimDisk(x), PrefixKind::VerbatimDisk(y)) => *x == *y,
        (PrefixKind::DeviceNS(x), PrefixKind::DeviceNS(y)) => chars_eq(x, y),
        (PrefixKind::UNC(x, y), PrefixKind::UNC(z, w)) => chars_eq(x, z) && chars_eq(y, w),
        (PrefixKind::Disk(x), PrefixKind::Disk(y)) => *x == *y,
        _ => false,
    }
}

/// Whether two components are the same, a prefix with the same text.
pub fn parts_equal(a: &Component, b: &Component) -> (r: bool)
    ensures
        r == (a@ == b@),
{
    match (a, b) {
        (Component::Prefix(k, x), Component::Prefix(l, y)) => prefixes_equal(k, l) && chars_eq(x, y),
        (Component::RootDir, Component::RootDir) => true,
        (Component::CurDir, Component::CurDir) => true,
        (Component::ParentDir, Component::ParentDir) => true,
        (Component::Normal(x), Component::Normal(y)) => chars_eq(x, y),
        _ => false,
    }
}

/// `Path::strip_prefix`: the rest of `path` after the components of `base`.
pub fn strip_prefix(path: &str, base: &str) -> (r: Option<String>)
    ensures
        r is Some <==> strip_prefix_spec(path@, base@) is Some,
        r matches Some(t) ==> t@ == strip_prefix_spec(path@, base@)->Some_0,
{
    let pc = path_components(path);
    let bc = path_components(base);
    let ghost pv = parts_view(pc@);
    let ghost bv = parts_view(bc@);
    assert(bv.len() == bc@.len() && pv.len() == pc@.len());
    if bc.len() > pc.len() {
        return None;
    }
    let mut i: usize = 0;
    while i < bc.len()
        invariant
            bc.len() <= pc.len(),
            i <= bc.len(),
            pv == parts_view(pc@),
            bv == parts_view(bc@),
            pv == components(path@),
            bv == components(base@),
            forall|k: int| 0 <= k < i ==> bv[k] == pv[k],
        decreases bc.len() - i,
    {
        if !parts_equal(&bc[i], &pc[i]) {
            assert(!bv.is_prefix_of(pv)) by {
                assert(pv.subrange(0, bv.len() as int)[i as int] == pv[i as int]);
            }
            return None;
        }
        i = i + 1;
    }
    assert(bv =~= pv.subrange(0, bv.len() as int));
    let rest = render_components(&pc, bc.len());
    Some(string_of(&rest))
}

/// `Path::file_name`: the last component of `path` when it is a normal one.
pub fn file_name(path: &str) -> (r: Option<String>)
    ensures
        r is Some <==> file_name_spec(path@) is Some,
        r matches Some(t) ==> t@ == file_name_spec(path@)->Some_0,
{
    let cs = path_components(path);
    if cs.len() == 0 {
        return None;
    }
    assert(parts_view(cs@).last() == cs@.last()@);
    match &cs[cs.len() - 1] {
        Component::Normal(p) => Some(string_of(p)),
        _ => None,
    }
}

/// `Path::parent`: `path` without its last component.
pub fn parent(path: &str) -> (r: Option<String>)
    ensures
        r is Some <==> parent_spec(path@) is Some,
        r matches Some(t) ==> t@ == parent_spec(path@)->Some_0,
{
    let mut cs = path_components(path);
    if cs.len() == 0 {
        return None;
    }
    assert(parts_view(cs@).last() == cs@.last()@);
    if matches!(cs[cs.len() - 1], Component::RootDir) {
        return None;
    }
    let ghost full = cs@;
    cs.pop();
    assert(parts_view(cs@) =~= parts_view(full).drop_last());
    assert(parts_view(cs@).skip(0) == parts_view(cs@));
    let rest = render_components(&cs, 0);
    Some(string_of(&rest))
}

// ---------------------------------------------------------------------------
// Component-wise order and ancestry of normalized paths
// ---------------------------------------------------------------------------

/// Strict lexicographic order of character sequences by code point, which is the
/// byte order of their UTF-8 encodings.
pub open spec fn chars_lt(a: Seq<char>, b: Seq<char>) -> bool
    decreases a.len(),
{
    if a.len() == 0 {
        b.len() > 0
    } else if b.len() == 0 {
        false
    } else if a[0] != b[0] {
        (a[0] as u32) < (b[0] as u32)
    } else {
        chars_lt(a.drop_first(), b.drop_first())
    }
}

/// Strict lexicographic order of component lists, the order of `Path`'s `Ord`
/// on paths made of normal components.
pub open spec fn pieces_lt(a: Seq<Seq<char>>, b: Seq<Seq<char>>) -> bool
    decreases a.len(),
{
    if a.len() == 0 {
        b.len() > 0
    } else if b.len() == 0 {
        false
    } else if a[0] != b[0] {
        chars_lt(a[0], b[0])
    } else {
        pieces_lt(a.drop_first(), b.drop_first())
    }
}

/// No text comes before itself.
pub proof fn lemma_chars_lt_irreflexive(a: Seq<char>)
    ensures
        !chars_lt(a, a),
    decreases a.len(),
{
    if a.len() > 0 {
        lemma_chars_lt_irreflexive(a.drop_first());
    }
}

/// Of two texts, one comes first or they are equal.
pub proof fn lemma_chars_lt_trichotomy(a: Seq<char>, b: Seq<char>)
    ensures
        a == b || chars_lt(a, b) || chars_lt(b, a),
        !(chars_lt(a, b) && chars_lt(b, a)),
    decreases a.len(),
{
    if a.len() > 0 && b.len() > 0 {
        if a[0] == b[0] {
            lemma_chars_lt_trichotomy(a.drop_first(), b.drop_first());
            if a.drop_first() == b.drop_first() {
                assert(a =~= seq![a[0]] + a.drop_first());
                assert(b =~= seq![b[0]] + b.drop_first());
            }
        } else {
            assert((a[0] as u32) != (b[0] as u32)) by {
                vstd::utf8::char_u32_cast(a[0], a[0] as u32);
                vstd::utf8::char_u32_cast(b[0], b[0] as u32);
            }
        }
    } else if a.len() == 0 && b.len() == 0 {
        assert(a =~= b);
    }
}

/// The order of texts is transitive.
pub proof fn lemma_chars_lt_transitive(a: Seq<char>, b: Seq<char>, c: Seq<char>)
    requires
        chars_lt(a, b),
        chars_lt(b, c),
    ensures
        chars_lt(a, c),
    decreases a.len(),
{
    if a.len() > 0 && b.len() > 0 && c.len() > 0 {
        if a[0] == b[0] && b[0] == c[0] {
            lemma_chars_lt_transitive(a.drop_first(), b.drop_first(), c.drop_first());
        }
    }
}

/// No component list comes before itself.
pub proof fn lemma_pieces_lt_irreflexive(a: Seq<Seq<char>>)
    ensures
        !pieces_lt(a, a),
    decreases a.len(),
{
    if a.len() > 0 {
        lemma_pieces_lt_irreflexive(a.drop_first());
    }
}

/// Of two component lists, one comes first or they are equal.
pub proof fn lemma_pieces_lt_trichotomy(a: Seq<Seq<char>>, b: Seq<Seq<char>>)
    ensures
        a == b || pieces_lt(a, b) || pieces_lt(b, a),
        !(pieces_lt(a, b) && pieces_lt(b, a)),
    decreases a.len(),
{
    if a.len() > 0 && b.len() > 0 {
        if a[0] == b[0] {
            lemma_pieces_lt_trichotomy(a.drop_first(), b.drop_first());
            if a.drop_first() == b.drop_first() {
                assert(a =~= seq![a[0]] + a.drop_first());
                assert(b =~= seq![b[0]] + b.drop_first());
            }
        } else {
            lemma_chars_lt_trichotomy(a[0], b[0]);
        }
    } else if a.len() == 0 && b.len() == 0 {
        assert(a =~= b);
    }
}

/// The order of component lists is transitive.
pub proof fn lemma_pieces_lt_transitive(a: Seq<Seq<char>>, b: Seq<Seq<char>>, c: Seq<Seq<char>>)
    requires
        pieces_lt(a, b),
        pieces_lt(b, c),
    ensures
        pieces_lt(a, c),
    decreases a.len(),
{
    if a.len() > 0 && b.len() > 0 && c.len() > 0 {
        if a[0] == b[0] && b[0] == c[0] {
            lemma_pieces_lt_transitive(a.drop_first(), b.drop_first(), c.drop_first());
        } else if a[0] == b[0] {
        } else if b[0] == c[0] {
        } else {
            lemma_chars_lt_transitive(a[0], b[0], c[0]);
            lemma_chars_lt_trichotomy(a[0], c[0]);
        }
    }
}

/// A proper prefix comes first in the component order.
pub proof fn lemma_proper_prefix_lt(a: Seq<Seq<char>>, b: Seq<Seq<char>>)
    requires
        a.is_prefix_of(b),
        a.len() < b.len(),
    ensures
        pieces_lt(a, b),
    decreases a.len(),
{
    if a.len() > 0 {
        assert(a[0] == b[0]);
        assert(a.drop_first().is_prefix_of(b.drop_first())) by {
            assert forall|i: int| 0 <= i < a.drop_first().len() implies a.drop_first()[i]
                == b.drop_first()[i] by {
                assert(a[i + 1] == b[i + 1]);
            }
            assert(a.drop_first() =~= b.drop_first().subrange(0, a.drop_first().len() as int));
        }
        lemma_proper_prefix_lt(a.drop_first(), b.drop_first());
    }
}

/// The order of two character vectors: -1, 0 or 1 as `a` is before, equal to or after `b`.
pub fn compare_chars(a: &Vec<char>, b: &Vec<char>) -> (r: i8)
    ensures
        -1 <= r <= 1,
        r == -1 <==> chars_lt(a@, b@),
        r == 0 <==> a@ == b@,
        r == 1 <==> chars_lt(b@, a@),
{
    let mut i: usize = 0;
    assert(a@.skip(0) == a@);
    assert(b@.skip(0) == b@);
    while i < a.len() && i < b.len()
        invariant
            i <= a.len(),
            i <= b.len(),
            forall|j: int| 0 <= j < i ==> a@[j] == b@[j],
            chars_lt(a@, b@) == chars_lt(a@.skip(i as int), b@.skip(i as int)),
            chars_lt(b@, a@) == chars_lt(b@.skip(i as int), a@.skip(i as int)),
        decreases a.len() - i,
    {
        assert(a@.skip(i as int)[0] == a@[i as int]);
        assert(b@.skip(i as int)[0] == b@[i as int]);
        assert(a@.skip(i as int).drop_first() == a@.skip(i + 1));
        assert(b@.skip(i as int).drop_first() == b@.skip(i + 1));
        if a[i] != b[i] {
            proof {
                lemma_chars_lt_trichotomy(a@, b@);
            }
            if (a[i] as u32) < (b[i] as u32) {
                return -1;
            } else {
                assert((a@[i as int] as u32) != (b@[i as int] as u32)) by {
                    vstd::utf8::char_u32_cast(a@[i as int], a@[i as int] as u32);
                    vstd::utf8::char_u32_cast(b@[i as int], b@[i as int] as u32);
                }
                return 1;
            }
        }
        i = i + 1;
    }
    proof {
        lemma_chars_lt_trichotomy(a@, b@);
        lemma_chars_lt_irreflexive(a@);
    }
    if a.len() == b.len() {
        assert(a@ =~= b@);
        0
    } else if a.len() < b.len() {
        assert(a@.skip(i as int).len() == 0);
        -1
    } else {
        assert(b@.skip(i as int).len() == 0);
        1
    }
}

/// The order of two component lists: -1, 0 or 1 as `a` is before, equal to or after `b`.
pub fn compare_pieces(a: &Vec<Vec<char>>, b: &Vec<Vec<char>>) -> (r: i8)
    ensures
        -1 <= r <= 1,
        r == -1 <==> pieces_lt(pieces_view(a@), pieces_view(b@)),
        r == 0 <==> pieces_view(a@) == pieces_view(b@),
        r == 1 <==> pieces_lt(pieces_view(b@), pieces_view(a@)),
{
    let ghost av = pieces_view(a@);
    let ghost bv = pieces_view(b@);
    let mut i: usize = 0;
    assert(av.skip(0) == av);
    assert(bv.skip(0) == bv);
    while i < a.len() && i < b.len()
        invariant
            i <= a.len(),
            i <= b.len(),
            av == pieces_view(a@),
            bv == pieces_view(b@),
            forall|j: int| 0 <= j < i ==> av[j] == bv[j],
            pieces_lt(av, bv) == pieces_lt(av.skip(i as int), bv.skip(i as int)),
            pieces_lt(bv, av) == pieces_lt(bv.skip(i as int), av.skip(i as int)),
        decreases a.len() - i,
    {
        assert(av.skip(i as int)[0] == av[i as int]);
        assert(bv.skip(i as int)[0] == bv[i as int]);
        assert(av.skip(i as int).drop_first() == av.skip(i + 1));
        assert(bv.skip(i as int).drop_first() == bv.skip(i + 1));
        let c = compare_chars(&a[i], &b[i]);
        if c != 0 {
            proof {
                lemma_pieces_lt_trichotomy(av, bv);
            }
            return c;
        }
        i = i + 1;
    }
    proof {
        lemma_pieces_lt_trichotomy(av, bv);
        lemma_pieces_lt_irreflexive(av);
    }
    if a.len() == b.len() {
        assert(av =~= bv);
        0
    } else if a.len() < b.len() {
        assert(av.skip(i as int).len() == 0);
        -1
    } else {
        assert(bv.skip(i as int).len() == 0);
        1
    }
}

/// Whether the component list `a` begins the component list `b`, as `Path::starts_with`.
pub fn pieces_prefix(a: &Vec<Vec<char>>, b: &Vec<Vec<char>>) -> (r: bool)
    ensures
        r == pieces_view(a@).is_prefix_of(pieces_view(b@)),
{
    let ghost av = pieces_view(a@);
    let ghost bv = pieces_view(b@);
    if a.len() > b.len() {
        return false;
    }
    let mut i: usize = 0;
    while i < a.len()
        invariant
            a.len() <= b.len(),
            i <= a.len(),
            av == pieces_view(a@),
            bv == pieces_view(b@),
            forall|j: int| 0 <= j < i ==> av[j] == bv[j],
        decreases a.len() - i,
    {
        if !chars_eq(&a[i], &b[i]) {
            assert(bv.subrange(0, av.len() as int)[i as int] == bv[i as int]);
            return false;
        }
        i = i + 1;
    }
    assert(av =~= bv.subrange(0, av.len() as int));
    true
}

// ---------------------------------------------------------------------------
// Normalization laws
// ---------------------------------------------------------------------------

/// A component text that normalization keeps: nonempty, not `.` or `..`, and
/// free of `/`.
pub open spec fn is_normal_piece(p: Seq<char>) -> bool {
    &&& p.len() > 0
    &&& p != dot()
    &&& p != dot_dot()
    &&& forall|i: int| 0 <= i < p.len() ==> p[i] != '/'
}

/// The normal components a sequence of components holds are normal pieces.
pub open spec fn normals_are_pieces(cs: Seq<PathPart>) -> bool {
    forall|i: int| 0 <= i < cs.len() ==> (#[trigger] cs[i] matches PathPart::Normal(p) ==> is_normal_piece(p))
}

proof fn lemma_pieces_to_parts_normals(ps: Seq<Seq<char>>)
    requires
        forall|i: int, j: int| 0 <= i < ps.len() && 0 <= j < ps[i].len() ==> ps[i][j] != '/',
    ensures
        normals_are_pieces(pieces_to_parts(ps)),
    decreases ps.len(),
{
    if ps.len() > 0 {
        let rest = ps.drop_last();
        assert forall|i: int, j: int| 0 <= i < rest.len() && 0 <= j < rest[i].len() implies rest[i][j]
            != '/' by {
            assert(rest[i] == ps[i]);
        }
        lemma_pieces_to_parts_normals(rest);
        let r = pieces_to_parts(rest);
        let p = ps.last();
        assert(p == ps[ps.len() - 1]);
        let out = pieces_to_parts(ps);
        assert forall|i: int| 0 <= i < out.len() implies (#[trigger] out[i] matches PathPart::Normal(
            q,
        ) ==> is_normal_piece(q)) by {
            if i < r.len() {
                assert(out[i] == r[i]);
            }
        }
    }
}

proof fn lemma_normal_pieces_are_normal(cs: Seq<PathPart>)
    requires
        normals_are_pieces(cs),
        normal_pieces(cs) is Some,
    ensures
        forall|i: int|
            0 <= i < normal_pieces(cs)->Some_0.len() ==> is_normal_piece(
                #[trigger] normal_pieces(cs)->Some_0[i],
            ),
    decreases cs.len(),
{
    if cs.len() > 0 {
        let rest = cs.drop_last();
        assert(normals_are_pieces(rest)) by {
            assert forall|i: int| 0 <= i < rest.len() implies (#[trigger] rest[i] matches PathPart::Normal(
                p,
            ) ==> is_normal_piece(p)) by {
                assert(rest[i] == cs[i]);
            }
        }
        lemma_normal_pieces_are_normal(rest);
        assert(cs.last() == cs[cs.len() - 1]);
    }
}

/// Every component that normalization yields is a normal piece.
pub proof fn lemma_normalized_pieces_are_normal(s: Seq<char>)
    requires
        normalize_spec(s) is Some,
    ensures
        forall|i: int|
            0 <= i < normalize_spec(s)->Some_0.len() ==> is_normal_piece(
                #[trigger] normalize_spec(s)->Some_0[i],
            ),
{
    let ps = split_on(s, '/');
    lemma_split_nonempty(s, '/');
    lemma_split_pieces_free_of_sep(s, '/');
    let tail = ps.drop_first();
    assert forall|i: int, j: int| 0 <= i < tail.len() && 0 <= j < tail[i].len() implies tail[i][j]
        != '/' by {
        assert(tail[i] == ps[i + 1]);
    }
    assert forall|i: int, j: int| 0 <= i < ps.len() && 0 <= j < ps[i].len() implies ps[i][j]
        != '/' by {}
    lemma_pieces_to_parts_normals(tail);
    lemma_pieces_to_parts_normals(ps);
    let cs = components(s);
    assert(normals_are_pieces(cs)) by {
        if is_absolute(s) || ps[0] == dot() {
            let head = if is_absolute(s) {
                seq![PathPart::RootDir]
            } else {
                seq![PathPart::CurDir]
            };
            let body = pieces_to_parts(tail);
            assert(cs == head + body);
            assert forall|i: int| 0 <= i < cs.len() implies (#[trigger] cs[i] matches PathPart::Normal(
                p,
            ) ==> is_normal_piece(p)) by {
                if i >= 1 {
                    assert(cs[i] == body[i - 1]);
                }
            }
        }
    }
    lemma_normal_pieces_are_normal(cs);
}

proof fn lemma_split_join(ns: Seq<Seq<char>>)
    requires
        ns.len() > 0,
        forall|i: int, j: int| 0 <= i < ns.len() && 0 <= j < ns[i].len() ==> ns[i][j] != '/',
    ensures
        split_on(join(ns), '/') == ns,
    decreases ns.len(),
{
    if ns.len() == 1 {
        assert forall|j: int| 0 <= j < ns[0].len() implies ns[0][j] != '/' by {}
        lemma_split_single(ns[0], '/');
        assert(seq![ns[0]] =~= ns);
    } else {
        let rest = ns.drop_last();
        assert forall|i: int, j: int| 0 <= i < rest.len() && 0 <= j < rest[i].len() implies rest[i][j]
            != '/' by {
            assert(rest[i] == ns[i]);
        }
        lemma_split_join(rest);
        let last = ns.last();
        assert(last == ns[ns.len() - 1]);
        assert forall|j: int| 0 <= j < last.len() implies last[j] != '/' by {}
        assert(join(rest) + seq!['/'] + last =~= join(rest).push('/') + last);
        lemma_split_extend(join(rest), last, '/');
        assert(rest.push(last) =~= ns);
    }
}

proof fn lemma_join_first(ns: Seq<Seq<char>>)
    requires
        ns.len() > 0,
        ns[0].len() > 0,
    ensures
        join(ns).len() > 0,
        join(ns)[0] == ns[0][0],
    decreases ns.len(),
{
    if ns.len() > 1 {
        let rest = ns.drop_last();
        assert(rest[0] == ns[0]);
        lemma_join_first(rest);
    }
}

pub(crate) proof fn lemma_parts_of_normal_pieces(ns: Seq<Seq<char>>)
    requires
        forall|i: int| 0 <= i < ns.len() ==> is_normal_piece(#[trigger] ns[i]),
    ensures
        pieces_to_parts(ns) == ns.map_values(|p: Seq<char>| PathPart::Normal(p)),
        normal_pieces(ns.map_values(|p: Seq<char>| PathPart::Normal(p))) == Some(ns),
    decreases ns.len(),
{
    if ns.len() > 0 {
        let rest = ns.drop_last();
        assert forall|i: int| 0 <= i < rest.len() implies is_normal_piece(#[trigger] rest[i]) by {
            assert(rest[i] == ns[i]);
        }
        lemma_parts_of_normal_pieces(rest);
        let last = ns.last();
        assert(is_normal_piece(ns[ns.len() - 1]));
        let m = ns.map_values(|p: Seq<char>| PathPart::Normal(p));
        let mr = rest.map_values(|p: Seq<char>| PathPart::Normal(p));
        assert(m =~= mr.push(PathPart::Normal(last)));
        assert(m.drop_last() =~= mr);
        assert(rest.push(last) =~= ns);
    }
}

/// The text of normalized components normalizes back to the same components.
pub proof fn lemma_normalize_render(ns: Seq<Seq<char>>)
    requires
        forall|i: int| 0 <= i < ns.len() ==> is_normal_piece(#[trigger] ns[i]),
    ensures
        normalize_spec(render_relative(ns)) == Some(ns),
{
    if ns.len() == 0 {
        let s = dot();
        assert(s[0] == '.');
        assert(!is_absolute(s));
        assert forall|j: int| 0 <= j < s.len() implies s[j] != '/' by {}
        lemma_split_single(s, '/');
        let ps = split_on(s, '/');
        assert(ps =~= seq![dot()]);
        assert(ps[0] == dot());
        assert(ps.drop_first() =~= Seq::<Seq<char>>::empty());
        assert(pieces_to_parts(Seq::<Seq<char>>::empty()) =~= Seq::<PathPart>::empty());
        assert(components(s) =~= seq![PathPart::CurDir]);
        let cs = seq![PathPart::CurDir];
        assert(cs.drop_last() =~= Seq::<PathPart>::empty());
        assert(normal_pieces(cs.drop_last()) == Some(Seq::<Seq<char>>::empty()));
        assert(normal_pieces(cs) == Some(Seq::<Seq<char>>::empty()));
        assert(render_relative(ns) == s);
        assert(ns =~= Seq::<Seq<char>>::empty());
    } else {
        let s = join(ns);
        assert forall|i: int, j: int| 0 <= i < ns.len() && 0 <= j < ns[i].len() implies ns[i][j]
            != '/' by {
            assert(is_normal_piece(ns[i]));
        }
        lemma_split_join(ns);
        assert(is_normal_piece(ns[0]));
        lemma_join_first(ns);
        assert(!is_absolute(s));
        let ps = split_on(s, '/');
        assert(ps == ns);
        assert(ps[0] != dot());
        lemma_parts_of_normal_pieces(ns);
        assert(components(s) == pieces_to_parts(ns));
        assert(render_relative(ns) == s);
        assert(s.len() > 0);
        assert(normalize_spec(s) == normal_pieces(components(s)));
    }
}

/// Normalizing is idempotent: the text of a normalized path normalizes to the
/// same components.
pub proof fn lemma_normalize_idempotent(s: Seq<char>)
    requires
        normalize_spec(s) is Some,
    ensures
        normalize_spec(render_relative(normalize_spec(s)->Some_0)) == normalize_spec(s),
{
    lemma_normalized_pieces_are_normal(s);
    lemma_normalize_render(normalize_spec(s)->Some_0);
}


// ---------------------------------------------------------------------------
// Rules that depend on the platform
// ---------------------------------------------------------------------------

/// Two prefixes that `std::path` takes as equal: the same form with the same
/// texts, a drive letter compared without regard to ASCII case.
pub open spec fn same_prefix(a: WinPrefix, b: WinPrefix) -> bool {
    match (a, b) {
        (WinPrefix::Disk(x), WinPrefix::Disk(y)) => ascii_lower(x) == ascii_lower(y),
        (WinPrefix::VerbatimDisk(x), WinPrefix::VerbatimDisk(y)) => ascii_lower(x) == ascii_lower(y),
        _ => a == b,
    }
}

/// Two components that `std::path` takes as equal: prefixes by their parsed
/// form (not their text), any other component exactly.
pub open spec fn same_part(a: PathPart, b: PathPart) -> bool {
    match (a, b) {
        (PathPart::Prefix(k, _), PathPart::Prefix(l, _)) => same_prefix(k, l),
        _ => a == b,
    }
}

/// The components `a` begin the components `b`, compared as `same_part`.
pub open spec fn parts_begin(a: Seq<PathPart>, b: Seq<PathPart>) -> bool {
    a.len() <= b.len() && forall|i: int| 0 <= i < a.len() ==> same_part(#[trigger] a[i], b[i])
}

/// The components `a` and `b` are the same, compared as `same_part`.
pub open spec fn parts_match(a: Seq<PathPart>, b: Seq<PathPart>) -> bool {
    a.len() == b.len() && parts_begin(a, b)
}

/// `Path::components` on the given platform.
pub open spec fn components_in(style: PathStyle, s: Seq<char>) -> Seq<PathPart> {
    match style {
        PathStyle::Unix => components(s),
        PathStyle::Windows => win_components(s),
    }
}

/// `Path::is_absolute` on the given platform.
pub open spec fn is_absolute_in(style: PathStyle, s: Seq<char>) -> bool {
    match style {
        PathStyle::Unix => is_absolute(s),
        PathStyle::Windows => win_is_absolute(s),
    }
}

/// Pieces joined with `sep` between them.
pub open spec fn join_with(ps: Seq<Seq<char>>, sep: char) -> Seq<char>
    decreases ps.len(),
{
    if ps.len() == 0 {
        Seq::empty()
    } else if ps.len() == 1 {
        ps[0]
    } else {
        join_with(ps.drop_last(), sep) + seq![sep] + ps.last()
    }
}

/// The text of Windows components after any prefix: a root becomes a leading
/// `\` and the other components are joined with `\`.
pub open spec fn win_render_tail(cs: Seq<PathPart>) -> Seq<char> {
    if cs.len() > 0 && cs[0] == PathPart::RootDir {
        seq!['\\'] + join_with(cs.drop_first().map_values(|c: PathPart| part_text(c)), '\\')
    } else {
        join_with(cs.map_values(|c: PathPart| part_text(c)), '\\')
    }
}

/// The text of Windows components: the prefix as written, then `win_render_tail`.
pub open spec fn win_render(cs: Seq<PathPart>) -> Seq<char> {
    if cs.len() > 0 && cs[0] is Prefix {
        part_text(cs[0]) + win_render_tail(cs.drop_first())
    } else {
        win_render_tail(cs)
    }
}

/// `Path::strip_prefix` on the given platform: when the components of `base`
/// begin those of `path`, the text of the remaining components. On Windows the
/// text is rendered from the components (`\` between them), which is the text
/// `std` gives back for paths written with single `\` separators and no `.` pieces.
pub open spec fn strip_prefix_in(style: PathStyle, path: Seq<char>, base: Seq<char>) -> Option<Seq<char>> {
    match style {
        PathStyle::Unix => strip_prefix_spec(path, base),
        PathStyle::Windows => {
            let pc = win_components(path);
            let bc = win_components(base);
            if parts_begin(bc, pc) {
                Some(win_render(pc.skip(bc.len() as int)))
            } else {
                None
            }
        },
    }
}

/// `Path::file_name` on the given platform: the last component when it is a normal one.
pub open spec fn file_name_in(style: PathStyle, path: Seq<char>) -> Option<Seq<char>> {
    let cs = components_in(style, path);
    if cs.len() > 0 {
        match cs.last() {
            PathPart::Normal(p) => Some(p),
            _ => None,
        }
    } else {
        None
    }
}

/// `Path::parent` on the given platform: the path without its last component,
/// unless the path is empty or ends in its root or prefix. On Windows the text
/// is rendered from the components, as for `strip_prefix_in`.
pub open spec fn parent_in(style: PathStyle, path: Seq<char>) -> Option<Seq<char>> {
    match style {
        PathStyle::Unix => parent_spec(path),
        PathStyle::Windows => {
            let cs = win_components(path);
            if cs.len() == 0 || cs.last() == PathPart::RootDir || cs.last() is Prefix {
                None
            } else {
                Some(win_render(cs.drop_last()))
            }
        },
    }
}

/// The normal components of a relative path on the given platform, as
/// `normalize_spec`: `None` when the path is empty or holds a prefix, a root or
/// a parent component.
pub open spec fn normalize_in(style: PathStyle, s: Seq<char>) -> Option<Seq<Seq<char>>> {
    if s.len() == 0 {
        None
    } else {
        normal_pieces(components_in(style, s))
    }
}

/// The text of a normalized relative path on the given platform: `.` for no
/// components, otherwise the components joined with the platform's separator.
pub open spec fn render_relative_in(style: PathStyle, ns: Seq<Seq<char>>) -> Seq<char> {
    match style {
        PathStyle::Unix => render_relative(ns),
        PathStyle::Windows => if ns.len() == 0 {
            dot()
        } else {
            join_with(ns, '\\')
        },
    }
}

/// The components of `s` on the given platform.
pub fn path_components_in(style: PathStyle, s: &str) -> (cs: Vec<Component>)
    ensures
        parts_view(cs@) == components_in(style, s@),
{
    match style {
        PathStyle::Unix => path_components(s),
        PathStyle::Windows => win_path_components(s),
    }
}

/// Whether `s` is an absolute path on the given platform.
pub fn path_is_absolute_in(style: PathStyle, s: &str) -> (r: bool)
    ensures
        r == is_absolute_in(style, s@),
{
    match style {
        PathStyle::Unix => path_is_absolute(s),
        PathStyle::Windows => win_path_is_absolute(s),
    }
}

fn same_letter(x: char, y: char) -> (r: bool)
    ensures
        r == (ascii_lower(x) == ascii_lower(y)),
{
    char_ascii_lower(x) == char_ascii_lower(y)
}

fn prefixes_same(a: &PrefixKind, b: &PrefixKind) -> (r: bool)
    ensures
        r == same_prefix(a@, b@),
{
    match (a, b) {
        (PrefixKind::Disk(x), PrefixKind::Disk(y)) => same_letter(*x, *y),
        (PrefixKind::VerbatimDisk(x), PrefixKind::VerbatimDisk(y)) => same_letter(*x, *y),
        _ => prefixes_equal(a, b),
    }
}

/// Whether two components are the same as `std::path` compares them.
pub fn parts_same_kind(a: &Component, b: &Component) -> (r: bool)
    ensures
        r == same_part(a@, b@),
{
    match (a, b) {
        (Component::Prefix(k, _), Component::Prefix(l, _)) => prefixes_same(k, l),
        _ => parts_equal(a, b),
    }
}

/// Whether the components `a` begin the components `b`, as `Path::starts_with`.
pub fn components_begin(a: &Vec<Component>, b: &Vec<Component>) -> (r: bool)
    ensures
        r == parts_begin(parts_view(a@), parts_view(b@)),
{
    let ghost av = parts_view(a@);
    let ghost bv = parts_view(b@);
    if a.len() > b.len() {
        return false;
    }
    let mut i: usize = 0;
    while i < a.len()
        invariant
            a.len() <= b.len(),
            i <= a.len(),
            av == parts_view(a@),
            bv == parts_view(b@),
            forall|j: int| 0 <= j < i ==> same_part(#[trigger] av[j], bv[j]),
        decreases a.len() - i,
    {
        if !parts_same_kind(&a[i], &b[i]) {
            assert(!same_part(av[i as int], bv[i as int]));
            return false;
        }
        i = i + 1;
    }
    true
}

/// The pieces joined with `sep` between them.
pub fn join_pieces_with(ps: &Vec<Vec<char>>, sep: char) -> (r: Vec<char>)
    ensures
        r@ == join_with(pieces_view(ps@), sep),
{
    let ghost all = pieces_view(ps@);
    let mut r: Vec<char> = Vec::new();
    let mut i: usize = 0;
    while i < ps.len()
        invariant
            i <= ps.len(),
            all == pieces_view(ps@),
            r@ == join_with(all.take(i as int), sep),
        decreases ps.len() - i,
    {
        assert(all.take(i + 1).drop_last() == all.take(i as int));
        assert(all.take(i + 1).last() == ps@[i as int]@);
        if i > 0 {
            r.push(sep);
        } else {
            assert(all.take(1).len() == 1);
        }
        let mut piece = ps[i].clone();
        r.append(&mut piece);
        i = i + 1;
    }
    assert(all.take(ps.len() as int) == all);
    r
}

/// The Windows text of the components `cs[from..]`, as `win_render` describes.
pub fn win_render_components(cs: &Vec<Component>, from: usize) -> (r: Vec<char>)
    requires
        from <= cs.len(),
    ensures
        r@ == win_render(parts_view(cs@).skip(from as int)),
{
    let ghost all = parts_view(cs@).skip(from as int);
    let prefixed = from < cs.len() && matches!(cs[from], Component::Prefix(_, _));
    let mut out: Vec<char> = Vec::new();
    let mut at = from;
    if prefixed {
        out = part_text_of(&cs[from]);
        at = from + 1;
        assert(all[0] == cs@[from as int]@);
    }
    let ghost tail = parts_view(cs@).skip(at as int);
    assert(tail =~= if prefixed { all.drop_first() } else { all });
    let rooted = at < cs.len() && matches!(cs[at], Component::RootDir);
    let start: usize = if rooted {
        at + 1
    } else {
        at
    };
    if rooted {
        assert(tail[0] == cs@[at as int]@);
        out.push('\\');
    } else if at < cs.len() {
        assert(tail[0] == cs@[at as int]@);
    }
    let mut texts: Vec<Vec<char>> = Vec::new();
    let mut i: usize = start;
    while i < cs.len()
        invariant
            start <= i <= cs.len(),
            texts@.len() == i - start,
            forall|k: int|
                0 <= k < texts@.len() ==> #[trigger] texts@[k]@ == part_text(cs@[start + k]@),
        decreases cs.len() - i,
    {
        texts.push(part_text_of(&cs[i]));
        i = i + 1;
    }
    let mut joined = join_pieces_with(&texts, '\\');
    proof {
        let rest = if rooted {
            tail.drop_first()
        } else {
            tail
        };
        assert(rest =~= parts_view(cs@).skip(start as int));
        assert(pieces_view(texts@) =~= rest.map_values(|c: PathPart| part_text(c)));
    }
    out.append(&mut joined);
    out
}

/// `Path::strip_prefix` on the given platform, as `strip_prefix_in` describes.
pub fn path_strip_prefix_in(style: PathStyle, path: &str, base: &str) -> (r: Option<String>)
    ensures
        r is Some <==> strip_prefix_in(style, path@, base@) is Some,
        r matches Some(t) ==> t@ == strip_prefix_in(style, path@, base@)->Some_0,
{
    match style {
        PathStyle::Unix => strip_prefix(path, base),
        PathStyle::Windows => {
            let pc = win_path_components(path);
            let bc = win_path_components(base);
            if components_begin(&bc, &pc) {
                let rest = win_render_components(&pc, bc.len());
                Some(string_of(&rest))
            } else {
                None
            }
        },
    }
}

/// `Path::file_name` on the given platform.
pub fn path_file_name_in(style: PathStyle, path: &str) -> (r: Option<String>)
    ensures
        r is Some <==> file_name_in(style, path@) is Some,
        r matches Some(t) ==> t@ == file_name_in(style, path@)->Some_0,
{
    let cs = path_components_in(style, path);
    if cs.len() == 0 {
        return None;
    }
    assert(parts_view(cs@).last() == cs@.last()@);
    match &cs[cs.len() - 1] {
        Component::Normal(p) => Some(string_of(p)),
        _ => None,
    }
}

/// `Path::parent` on the given platform, as `parent_in` describes.
pub fn path_parent_in(style: PathStyle, path: &str) -> (r: Option<String>)
    ensures
        r is Some <==> parent_in(style, path@) is Some,
        r matches Some(t) ==> t@ == parent_in(style, path@)->Some_0,
{
    match style {
        PathStyle::Unix => parent(path),
        PathStyle::Windows => {
            let mut cs = win_path_components(path);
            if cs.len() == 0 {
                return None;
            }
            assert(parts_view(cs@).last() == cs@.last()@);
            if matches!(cs[cs.len() - 1], Component::RootDir) || matches!(
                cs[cs.len() - 1],
                Component::Prefix(_, _)
            ) {
                return None;
            }
            let ghost full = cs@;
            cs.pop();
            assert(parts_view(cs@) =~= parts_view(full).drop_last());
            assert(parts_view(cs@).skip(0) == parts_view(cs@));
            let rest = win_render_components(&cs, 0);
            Some(string_of(&rest))
        },
    }
}

/// The normal components of the relative path `s` on the given platform, as
/// `normalize_in` describes.
pub fn normalize_pieces_in(style: PathStyle, s: &str) -> (r: Option<Vec<Vec<char>>>)
    ensures
        r is Some <==> normalize_in(style, s@) is Some,
        r matches Some(v) ==> pieces_view(v@) == normalize_in(style, s@)->Some_0,
{
    let v = chars_of(s);
    if v.len() == 0 {
        return None;
    }
    let cs = path_components_in(style, s);
    let ghost pv = parts_view(cs@);
    let mut out: Vec<Vec<char>> = Vec::new();
    let mut i: usize = 0;
    while i < cs.len()
        invariant
            i <= cs.len(),
            pv == parts_view(cs@),
            pv == components_in(style, s@),
            s@.len() > 0,
            normal_pieces(pv.take(i as int)) == Some(pieces_view(out@)),
        decreases cs.len() - i,
    {
        let ghost before = out@;
        assert(pv.take(i + 1).drop_last() == pv.take(i as int));
        assert(pv.take(i + 1).last() == cs@[i as int]@);
        match &cs[i] {
            Component::CurDir => {},
            Component::Normal(p) => {
                out.push(p.clone());
                assert(pieces_view(out@) =~= before.map_values(|p: Vec<char>| p@).push(p@));
            },
            _ => {
                assert(normal_pieces(pv.take(i + 1)) is None);
                proof {
                    lemma_normal_pieces_none_extends(pv, i + 1);
                    assert(pv.take(cs.len() as int) == pv);
                }
                return None;
            },
        }
        i = i + 1;
    }
    assert(pv.take(cs.len() as int) == pv);
    Some(out)
}

/// The text of a normalized relative path on the given platform.
pub fn render_relative_pieces_in(style: PathStyle, ns: &Vec<Vec<char>>) -> (r: String)
    ensures
        r@ == render_relative_in(style, pieces_view(ns@)),
{
    match style {
        PathStyle::Unix => render_relative_pieces(ns),
        PathStyle::Windows => {
            if ns.len() == 0 {
                let mut v = Vec::new();
                v.push('.');
                assert(v@ =~= dot());
                string_of(&v)
            } else {
                let j = join_pieces_with(ns, '\\');
                string_of(&j)
            }
        },
    }
}

} // verus!
