//! Turns trusted change paths into a bounded, deterministic list of rescan
//! targets: unsafe paths fail closed, the root becomes one recursive target,
//! duplicates and descendants of other targets are dropped, and too many
//! targets fall back to a full rescan.
use crate::fsevents_callback::CollectedFseventsChange;
use crate::paths::{
    is_normal_piece, lemma_normalize_render, lemma_normalized_pieces_are_normal,
    compare_pieces, lemma_pieces_lt_irreflexive, lemma_pieces_lt_transitive,
    lemma_pieces_lt_trichotomy, lemma_proper_prefix_lt, normalize_pieces, normalize_spec, pieces_view,
    pieces_lt, pieces_prefix, render_relative, render_relative_pieces,
};
use vstd::prelude::*;

verus! {

/// Why a plan falls back to a full rescan.
#[derive(Clone, Copy, Debug, PartialEq, Eq, Structural)]
pub enum FullRescanReason {
    InvalidChangePath,
    TooManyTargets,
}

/// A path to rescan relative to the root, and whether its subtree is rescanned too.
#[derive(Clone, Debug, PartialEq, Eq)]
pub struct IncrementalRescanTarget {
    pub relative_path: String,
    pub recursive: bool,
}

/// The rescan a set of changes calls for.
#[derive(Clone, Debug, PartialEq, Eq)]
pub enum IncrementalRescanPlan {
    Partial { targets: Vec<IncrementalRescanTarget> },
    Full { reason: FullRescanReason },
}

/// A path as a list of normal components.
pub type Pieces = Seq<Seq<char>>;

/// The components of a vector-of-vectors path.
pub open spec fn pieces_of(v: Vec<Vec<char>>) -> Pieces {
    pieces_view(v@)
}

/// The paths of a vector of paths.
pub open spec fn paths_of(v: Seq<Vec<Vec<char>>>) -> Seq<Pieces> {
    v.map_values(|p: Vec<Vec<char>>| pieces_of(p))
}

/// The relative path texts of a list of changes.
pub open spec fn change_paths(changes: Seq<CollectedFseventsChange>) -> Seq<Seq<char>> {
    changes.map_values(|c: CollectedFseventsChange| c.relative_path@)
}

/// `q` is a component prefix of `p` and shorter than it.
pub open spec fn proper_prefix(q: Pieces, p: Pieces) -> bool {
    q.is_prefix_of(p) && q.len() < p.len()
}

/// Strictly increasing in the component order.
pub open spec fn strictly_sorted(l: Seq<Pieces>) -> bool {
    forall|a: int, b: int| 0 <= a < b < l.len() ==> pieces_lt(#[trigger] l[a], #[trigger] l[b])
}

/// `x` is one of the paths and none of the paths is a proper prefix of it.
pub open spec fn minimal_in(x: Pieces, s: Seq<Pieces>) -> bool {
    s.contains(x) && !(exists|q: Pieces| #[trigger] s.contains(q) && proper_prefix(q, x))
}

/// `l` lists, in component order, exactly the minimal paths of `s`.
pub open spec fn sorted_minimal(l: Seq<Pieces>, s: Seq<Pieces>) -> bool {
    strictly_sorted(l) && forall|x: Pieces| #[trigger] l.contains(x) <==> minimal_in(x, s)
}

/// The minimal paths of `s` in component order.
pub open spec fn collapsed(s: Seq<Pieces>) -> Seq<Pieces> {
    choose|l: Seq<Pieces>| sorted_minimal(l, s)
}

/// Scanning the first `k` change paths: `Some(true)` when an invalid path comes
/// first, `Some(false)` when the root `.` comes first, `None` when neither occurs.
pub open spec fn first_stop(ps: Seq<Seq<char>>, k: int) -> Option<bool>
    decreases k,
{
    if k <= 0 {
        None
    } else {
        match first_stop(ps, k - 1) {
            Some(b) => Some(b),
            None => match normalize_spec(ps[k - 1]) {
                None => Some(true),
                Some(ns) => if ns.len() == 0 {
                    Some(false)
                } else {
                    None
                },
            },
        }
    }
}

/// The normalized forms of the change paths (meaningful when every path is valid).
pub open spec fn normalized_all(ps: Seq<Seq<char>>) -> Seq<Pieces> {
    ps.map_values(|p: Seq<char>| normalize_spec(p)->Some_0)
}

/// The targets are the given paths, in order, with the given recursion flag.
pub open spec fn targets_are(
    targets: Seq<IncrementalRescanTarget>,
    l: Seq<Pieces>,
    recursive: bool,
) -> bool {
    &&& targets.len() == l.len()
    &&& forall|i: int|
        0 <= i < l.len() ==> (#[trigger] targets[i]).relative_path@ == render_relative(l[i])
            && targets[i].recursive == recursive
}

/// The plan for a list of change paths.
pub open spec fn plan_matches(
    r: IncrementalRescanPlan,
    ps: Seq<Seq<char>>,
    rescan_subtrees: bool,
    max_targets: usize,
) -> bool {
    match first_stop(ps, ps.len() as int) {
        Some(true) => r == IncrementalRescanPlan::Full { reason: FullRescanReason::InvalidChangePath },
        Some(false) => r matches IncrementalRescanPlan::Partial { targets } && targets_are(
            targets@,
            seq![Seq::<Seq<char>>::empty()],
            true,
        ),
        None => {
            let l = collapsed(normalized_all(ps));
            if l.len() > max_targets {
                r == IncrementalRescanPlan::Full { reason: FullRescanReason::TooManyTargets }
            } else {
                r matches IncrementalRescanPlan::Partial { targets } && targets_are(
                    targets@,
                    l,
                    rescan_subtrees,
                )
            }
        },
    }
}

/// Two strictly sorted lists with the same members are equal.
pub proof fn lemma_sorted_unique(a: Seq<Pieces>, b: Seq<Pieces>)
    requires
        strictly_sorted(a),
        strictly_sorted(b),
        forall|x: Pieces| a.contains(x) <==> b.contains(x),
    ensures
        a == b,
    decreases a.len(),
{
    if a.len() == 0 {
        if b.len() > 0 {
            assert(b.contains(b[0]));
        }
        assert(a =~= b);
    } else if b.len() == 0 {
        assert(a.contains(a[0]));
    } else {
        assert(a.contains(a[0]));
        let j = choose|j: int| 0 <= j < b.len() && b[j] == a[0];
        assert(b.contains(b[0]));
        let i = choose|i: int| 0 <= i < a.len() && a[i] == b[0];
        if j > 0 {
            assert(pieces_lt(b[0], b[j]));
            if i > 0 {
                assert(pieces_lt(a[0], a[i]));
                lemma_pieces_lt_trichotomy(a[0], b[0]);
            } else {
                lemma_pieces_lt_irreflexive(a[0]);
            }
        } else if i > 0 {
            assert(pieces_lt(a[0], a[i]));
            lemma_pieces_lt_irreflexive(a[0]);
        }
        assert(a[0] == b[0]);
        let a1 = a.drop_first();
        let b1 = b.drop_first();
        assert forall|x: Pieces| a1.contains(x) implies b1.contains(x) by {
            let k = choose|k: int| 0 <= k < a1.len() && a1[k] == x;
            assert(a.contains(x)) by {
                assert(a[k + 1] == x);
            }
            let m = choose|m: int| 0 <= m < b.len() && b[m] == x;
            if m == 0 {
                assert(pieces_lt(a[0], a[k + 1]));
                lemma_pieces_lt_irreflexive(a[0]);
            }
            assert(b1[m - 1] == x);
        }
        assert forall|x: Pieces| b1.contains(x) implies a1.contains(x) by {
            let k = choose|k: int| 0 <= k < b1.len() && b1[k] == x;
            assert(b.contains(x)) by {
                assert(b[k + 1] == x);
            }
            let m = choose|m: int| 0 <= m < a.len() && a[m] == x;
            if m == 0 {
                assert(pieces_lt(b[0], b[k + 1]));
                lemma_pieces_lt_irreflexive(b[0]);
            }
            assert(a1[m - 1] == x);
        }
        lemma_sorted_unique(a1, b1);
        assert(a =~= seq![a[0]] + a1);
        assert(b =~= seq![b[0]] + b1);
    }
}

proof fn lemma_prefix_transitive(a: Pieces, b: Pieces, c: Pieces)
    requires
        a.is_prefix_of(b),
        b.is_prefix_of(c),
    ensures
        a.is_prefix_of(c),
{
    assert forall|i: int| 0 <= i < a.len() implies a[i] == c[i] by {
        assert(a[i] == b.subrange(0, a.len() as int)[i]);
        assert(b[i] == c.subrange(0, b.len() as int)[i]);
    }
    assert(a =~= c.subrange(0, a.len() as int));
}

proof fn lemma_prefix_reflexive(a: Pieces)
    ensures
        a.is_prefix_of(a),
{
    assert(a =~= a.subrange(0, a.len() as int));
}

/// The laws of the collapsed target list: targets come in strictly increasing
/// component order (so none repeats), every target is one of the paths, no
/// target lies under another, and every path lies under (or is) some target.
pub proof fn lemma_collapsed_laws(s: Seq<Pieces>)
    requires
        exists|l: Seq<Pieces>| sorted_minimal(l, s),
    ensures
        strictly_sorted(collapsed(s)),
        collapsed(s).no_duplicates(),
        forall|x: Pieces| #[trigger] collapsed(s).contains(x) ==> s.contains(x),
        forall|i: int, j: int|
            #![trigger collapsed(s)[i], collapsed(s)[j]]
            0 <= i < collapsed(s).len() && 0 <= j < collapsed(s).len() && i != j ==> !collapsed(
                s,
            )[i].is_prefix_of(collapsed(s)[j]),
        forall|p: Pieces|
            #[trigger] s.contains(p) ==> exists|t: Pieces| #[trigger]
                collapsed(s).contains(t) && t.is_prefix_of(p),
{
    let l = collapsed(s);
    assert(sorted_minimal(l, s));
    assert forall|i: int, j: int| 0 <= i < l.len() && 0 <= j < l.len() && i != j implies l[i]
        != l[j] by {
        if i < j {
            assert(pieces_lt(l[i], l[j]));
        } else {
            assert(pieces_lt(l[j], l[i]));
        }
        lemma_pieces_lt_irreflexive(l[i]);
    }
    assert forall|x: Pieces| #[trigger] l.contains(x) implies s.contains(x) by {
        assert(minimal_in(x, s));
    }
    assert forall|i: int, j: int|
        #![trigger l[i], l[j]]
        0 <= i < l.len() && 0 <= j < l.len() && i != j implies !l[i].is_prefix_of(l[j]) by {
        assert(l[i] != l[j]);
        if l[i].is_prefix_of(l[j]) {
            assert(l.contains(l[j]));
            assert(minimal_in(l[j], s));
            assert(l.contains(l[i]));
            assert(s.contains(l[i]));
            if l[i].len() == l[j].len() {
                assert(l[i] =~= l[j]);
            }
            assert(proper_prefix(l[i], l[j]));
        }
    }
    assert forall|p: Pieces| #[trigger] s.contains(p) implies exists|t: Pieces| #[trigger]
        l.contains(t) && t.is_prefix_of(p) by {
        lemma_has_minimal_prefix(s, p, l, p.len() as nat);
    }
}

proof fn lemma_has_minimal_prefix(s: Seq<Pieces>, p: Pieces, l: Seq<Pieces>, bound: nat)
    requires
        sorted_minimal(l, s),
        s.contains(p),
        p.len() <= bound,
    ensures
        exists|t: Pieces| #[trigger] l.contains(t) && t.is_prefix_of(p),
    decreases bound,
{
    if minimal_in(p, s) {
        lemma_prefix_reflexive(p);
        assert(l.contains(p));
    } else {
        let q = choose|q: Pieces| #[trigger] s.contains(q) && proper_prefix(q, p);
        lemma_has_minimal_prefix(s, q, l, (bound - 1) as nat);
        let t = choose|t: Pieces| #[trigger] l.contains(t) && t.is_prefix_of(q);
        lemma_prefix_transitive(t, q, p);
    }
}

/// The normalized form of a relative path: `.` components removed, `None` for
/// an empty path or one that climbs out (`..`) or is absolute.
pub fn normalize_relative(path: &str) -> (r: Option<String>)
    ensures
        r is Some <==> normalize_spec(path@) is Some,
        r matches Some(t) ==> t@ == render_relative(normalize_spec(path@)->Some_0),
{
    match normalize_pieces(path) {
        None => None,
        Some(ns) => Some(render_relative_pieces(&ns)),
    }
}

proof fn lemma_first_stop_stays(ps: Seq<Seq<char>>, k: int)
    requires
        0 <= k <= ps.len(),
        first_stop(ps, k) is Some,
    ensures
        first_stop(ps, ps.len() as int) == first_stop(ps, k),
    decreases ps.len() - k,
{
    if k < ps.len() {
        lemma_first_stop_stays(ps, k + 1);
    }
}

proof fn lemma_first_stop_none_valid(ps: Seq<Seq<char>>, k: int, j: int)
    requires
        0 <= j < k <= ps.len(),
        first_stop(ps, k) is None,
    ensures
        normalize_spec(ps[j]) is Some,
        normalize_spec(ps[j])->Some_0.len() > 0,
    decreases k,
{
    if j < k - 1 {
        lemma_first_stop_none_valid(ps, k - 1, j);
    }
}

/// Inserts `x` into a strictly sorted list of distinct paths, keeping it so.
fn insert_sorted(sorted: &mut Vec<Vec<Vec<char>>>, x: Vec<Vec<char>>)
    requires
        strictly_sorted(paths_of(old(sorted)@)),
    ensures
        strictly_sorted(paths_of(final(sorted)@)),
        forall|y: Pieces|
            #[trigger] paths_of(final(sorted)@).contains(y) <==> (paths_of(old(sorted)@).contains(y)
                || y == pieces_of(x)),
{
    let ghost xv = pieces_of(x);
    let ghost old_paths = paths_of(sorted@);
    let mut pos: usize = 0;
    let mut greater = false;
    while pos < sorted.len() && !greater
        invariant
            pos <= sorted.len(),
            old_paths == paths_of(sorted@),
            strictly_sorted(old_paths),
            xv == pieces_of(x),
            forall|k: int| 0 <= k < pos ==> pieces_lt(#[trigger] old_paths[k], xv),
            greater ==> pos < sorted.len() && pieces_lt(xv, old_paths[pos as int]),
        decreases sorted.len() - pos + (if greater { 0int } else { 1int }),
    {
        let c = compare_pieces(&sorted[pos], &x);
        assert(old_paths[pos as int] == pieces_of(sorted@[pos as int]));
        if c == 0 {
            assert(old_paths.contains(xv));
            return;
        }
        if c == 1 {
            greater = true;
        } else {
            pos = pos + 1;
        }
    }
    sorted.insert(pos, x);
    let ghost np = paths_of(sorted@);
    assert(np =~= old_paths.insert(pos as int, xv));
    assert forall|a: int, b: int| 0 <= a < b < np.len() implies pieces_lt(
        #[trigger] np[a],
        #[trigger] np[b],
    ) by {
        if b < pos {
            assert(pieces_lt(old_paths[a], old_paths[b]));
        } else if b == pos {
            assert(pieces_lt(old_paths[a], xv));
        } else if a == pos {
            assert(pieces_lt(xv, old_paths[pos as int]));
            if b - 1 > pos {
                assert(pieces_lt(old_paths[pos as int], old_paths[b - 1]));
                lemma_pieces_lt_transitive(xv, old_paths[pos as int], old_paths[b - 1]);
            }
        } else if a < pos {
            assert(pieces_lt(old_paths[a], xv));
            assert(pieces_lt(xv, old_paths[pos as int]));
            lemma_pieces_lt_transitive(old_paths[a], xv, old_paths[pos as int]);
            if b - 1 > pos {
                assert(pieces_lt(old_paths[pos as int], old_paths[b - 1]));
                lemma_pieces_lt_transitive(old_paths[a], old_paths[pos as int], old_paths[b - 1]);
            }
        } else {
            assert(pieces_lt(old_paths[a - 1], old_paths[b - 1]));
        }
    }
    assert forall|y: Pieces| #[trigger] np.contains(y) <==> (old_paths.contains(y) || y == xv) by {
        if np.contains(y) {
            let k = choose|k: int| 0 <= k < np.len() && np[k] == y;
            if k < pos {
                assert(old_paths[k] == y);
            } else if k > pos {
                assert(old_paths[k - 1] == y);
            }
        }
        if old_paths.contains(y) {
            let k = choose|k: int| 0 <= k < old_paths.len() && old_paths[k] == y;
            if k < pos {
                assert(np[k] == y);
            } else {
                assert(np[k + 1] == y);
            }
        }
        if y == xv {
            assert(np[pos as int] == y);
        }
    }
}

/// The state of the collapsing pass after the first `i` paths of `sp`: `kv`
/// is sorted, drawn from those paths, holds exactly their minimal ones, and
/// each of them lies under a kept path.
#[verifier::opaque]
pub open spec fn collapse_inv(kv: Seq<Pieces>, sp: Seq<Pieces>, i: int) -> bool {
    &&& strictly_sorted(kv)
    &&& kept_origin(kv, sp, i)
    &&& kept_minimal(kv, sp, i)
    &&& kept_covers(kv, sp, i)
}

/// Every kept path is one of the first `i` paths.
#[verifier::opaque]
pub open spec fn kept_origin(kv: Seq<Pieces>, sp: Seq<Pieces>, i: int) -> bool {
    forall|m: int| 0 <= m < kv.len() ==> sp.take(i).contains(#[trigger] kv[m])
}

/// The kept paths are exactly the minimal ones among the first `i` paths.
#[verifier::opaque]
pub open spec fn kept_minimal(kv: Seq<Pieces>, sp: Seq<Pieces>, i: int) -> bool {
    forall|x: Pieces| #[trigger] kv.contains(x) <==> minimal_in(x, sp.take(i))
}

/// Each of the first `i` paths lies under a kept path.
#[verifier::opaque]
pub open spec fn kept_covers(kv: Seq<Pieces>, sp: Seq<Pieces>, i: int) -> bool {
    forall|j: int|
        0 <= j < i ==> exists|t: Pieces| #[trigger] kv.contains(t) && t.is_prefix_of(#[trigger] sp[j])
}

proof fn lemma_kept_before(kv: Seq<Pieces>, sp: Seq<Pieces>, i: int)
    requires
        strictly_sorted(sp),
        0 <= i < sp.len(),
        collapse_inv(kv, sp, i),
    ensures
        forall|m: int| 0 <= m < kv.len() ==> pieces_lt(#[trigger] kv[m], sp[i]),
        !sp.take(i).contains(sp[i]),
{
    reveal(collapse_inv);
    reveal(kept_origin);
    assert forall|m: int| 0 <= m < kv.len() implies pieces_lt(#[trigger] kv[m], sp[i]) by {
        let pre = sp.take(i);
        assert(pre.contains(kv[m]));
        let j = choose|j: int| 0 <= j < pre.len() && pre[j] == kv[m];
        assert(pre[j] == sp[j]);
        assert(pieces_lt(sp[j], sp[i]));
    }
    let pre = sp.take(i);
    if pre.contains(sp[i]) {
        let j = choose|j: int| 0 <= j < pre.len() && pre[j] == sp[i];
        assert(pre[j] == sp[j]);
        assert(pieces_lt(sp[j], sp[i]));
        lemma_pieces_lt_irreflexive(sp[i]);
    }
}

proof fn lemma_take_contains(sp: Seq<Pieces>, i: int, x: Pieces)
    requires
        0 <= i < sp.len(),
    ensures
        sp.take(i + 1).contains(x) <==> (sp.take(i).contains(x) || x == sp[i]),
{
    let pre = sp.take(i);
    let post = sp.take(i + 1);
    if pre.contains(x) {
        let j = choose|j: int| 0 <= j < pre.len() && pre[j] == x;
        assert(post[j] == x);
    }
    if x == sp[i] {
        assert(post[i] == x);
    }
    if post.contains(x) {
        let j = choose|j: int| 0 <= j < post.len() && post[j] == x;
        if j < i {
            assert(pre[j] == x);
        }
    }
}

/// A kept path stays minimal when a later path is added.
proof fn lemma_minimal_kept_stays(kv: Seq<Pieces>, sp: Seq<Pieces>, i: int, x: Pieces)
    requires
        strictly_sorted(sp),
        0 <= i < sp.len(),
        collapse_inv(kv, sp, i),
        kv.contains(x),
    ensures
        minimal_in(x, sp.take(i + 1)),
{
    lemma_kept_before(kv, sp, i);
    reveal(collapse_inv);
    reveal(kept_minimal);
    let pre = sp.take(i);
    let post = sp.take(i + 1);
    assert(minimal_in(x, pre));
    lemma_take_contains(sp, i, x);
    if exists|q: Pieces| #[trigger] post.contains(q) && proper_prefix(q, x) {
        let q = choose|q: Pieces| #[trigger] post.contains(q) && proper_prefix(q, x);
        lemma_take_contains(sp, i, q);
        if q == sp[i] {
            let m = choose|m: int| 0 <= m < kv.len() && kv[m] == x;
            assert(pieces_lt(kv[m], sp[i]));
            lemma_proper_prefix_lt(q, x);
            lemma_pieces_lt_trichotomy(x, q);
        } else {
            assert(pre.contains(q));
        }
    }
}

/// A path of the first `i + 1` that is minimal there and is not the new one
/// was already minimal among the first `i`.
proof fn lemma_minimal_shrinks(sp: Seq<Pieces>, i: int, x: Pieces)
    requires
        0 <= i < sp.len(),
        minimal_in(x, sp.take(i + 1)),
        x != sp[i],
    ensures
        minimal_in(x, sp.take(i)),
{
    let pre = sp.take(i);
    let post = sp.take(i + 1);
    lemma_take_contains(sp, i, x);
    assert forall|q: Pieces| #[trigger] pre.contains(q) implies !proper_prefix(q, x) by {
        lemma_take_contains(sp, i, q);
        assert(post.contains(q));
    }
}

proof fn lemma_collapse_skip(kv: Seq<Pieces>, sp: Seq<Pieces>, i: int)
    requires
        strictly_sorted(sp),
        0 <= i < sp.len(),
        collapse_inv(kv, sp, i),
        exists|t: Pieces| #[trigger] kv.contains(t) && t.is_prefix_of(sp[i]),
    ensures
        collapse_inv(kv, sp, i + 1),
{
    reveal(collapse_inv);
    lemma_kept_before(kv, sp, i);
    lemma_skip_origin(kv, sp, i);
    lemma_skip_minimal(kv, sp, i);
    lemma_skip_covers(kv, sp, i);
}

proof fn lemma_skip_origin(kv: Seq<Pieces>, sp: Seq<Pieces>, i: int)
    requires
        0 <= i < sp.len(),
        kept_origin(kv, sp, i),
    ensures
        kept_origin(kv, sp, i + 1),
{
    reveal(kept_origin);
    assert forall|m2: int| 0 <= m2 < kv.len() implies sp.take(i + 1).contains(#[trigger] kv[m2]) by {
        assert(sp.take(i).contains(kv[m2]));
        lemma_take_contains(sp, i, kv[m2]);
    }
}

proof fn lemma_skip_covers(kv: Seq<Pieces>, sp: Seq<Pieces>, i: int)
    requires
        0 <= i < sp.len(),
        kept_covers(kv, sp, i),
        exists|t: Pieces| #[trigger] kv.contains(t) && t.is_prefix_of(sp[i]),
    ensures
        kept_covers(kv, sp, i + 1),
{
    reveal(kept_covers);
    let t = choose|t: Pieces| #[trigger] kv.contains(t) && t.is_prefix_of(sp[i]);
    assert forall|j: int| 0 <= j < i + 1 implies exists|t2: Pieces| #[trigger]
        kv.contains(t2) && t2.is_prefix_of(#[trigger] sp[j]) by {
        if j == i {
            assert(kv.contains(t) && t.is_prefix_of(sp[j]));
        }
    }
}

proof fn lemma_skip_minimal(kv: Seq<Pieces>, sp: Seq<Pieces>, i: int)
    requires
        strictly_sorted(sp),
        0 <= i < sp.len(),
        strictly_sorted(kv),
        kept_origin(kv, sp, i),
        kept_minimal(kv, sp, i),
        kept_covers(kv, sp, i),
        exists|t: Pieces| #[trigger] kv.contains(t) && t.is_prefix_of(sp[i]),
    ensures
        kept_minimal(kv, sp, i + 1),
{
    assert(collapse_inv(kv, sp, i)) by {
        reveal(collapse_inv);
    }
    lemma_kept_before(kv, sp, i);
    let pv = sp[i];
    let pre = sp.take(i);
    let post = sp.take(i + 1);
    let t = choose|t: Pieces| #[trigger] kv.contains(t) && t.is_prefix_of(pv);
    let m = choose|m: int| 0 <= m < kv.len() && kv[m] == t;
    assert(pieces_lt(kv[m], pv));
    if t.len() == pv.len() {
        assert(t =~= pv);
        lemma_pieces_lt_irreflexive(pv);
    }
    reveal(kept_minimal);
    assert(minimal_in(t, pre));
    lemma_take_contains(sp, i, t);
    assert(post.contains(t));
    assert(!minimal_in(pv, post));
    assert forall|x: Pieces| #[trigger] kv.contains(x) <==> minimal_in(x, post) by {
        if kv.contains(x) {
            lemma_minimal_kept_stays(kv, sp, i, x);
        }
        if minimal_in(x, post) {
            lemma_minimal_shrinks(sp, i, x);
        }
    }
}

proof fn lemma_collapse_keep(kv: Seq<Pieces>, sp: Seq<Pieces>, i: int)
    requires
        strictly_sorted(sp),
        0 <= i < sp.len(),
        collapse_inv(kv, sp, i),
        forall|m: int| 0 <= m < kv.len() ==> !(#[trigger] kv[m]).is_prefix_of(sp[i]),
    ensures
        collapse_inv(kv.push(sp[i]), sp, i + 1),
{
    reveal(collapse_inv);
    lemma_kept_before(kv, sp, i);
    let pv = sp[i];
    let nk = kv.push(pv);
    assert forall|a: int, b: int| 0 <= a < b < nk.len() implies pieces_lt(
        #[trigger] nk[a],
        #[trigger] nk[b],
    ) by {
        if b < kv.len() {
            assert(pieces_lt(kv[a], kv[b]));
        } else {
            assert(pieces_lt(kv[a], pv));
        }
    }
    lemma_keep_origin(kv, sp, i);
    lemma_keep_minimal(kv, sp, i);
    lemma_keep_covers(kv, sp, i);
}

proof fn lemma_keep_origin(kv: Seq<Pieces>, sp: Seq<Pieces>, i: int)
    requires
        0 <= i < sp.len(),
        kept_origin(kv, sp, i),
    ensures
        kept_origin(kv.push(sp[i]), sp, i + 1),
{
    reveal(kept_origin);
    let nk = kv.push(sp[i]);
    assert forall|m: int| 0 <= m < nk.len() implies sp.take(i + 1).contains(#[trigger] nk[m]) by {
        lemma_take_contains(sp, i, nk[m]);
        if m < kv.len() {
            assert(nk[m] == kv[m]);
            assert(sp.take(i).contains(kv[m]));
        } else {
            assert(nk[m] == sp[i]);
        }
    }
}

proof fn lemma_keep_covers(kv: Seq<Pieces>, sp: Seq<Pieces>, i: int)
    requires
        0 <= i < sp.len(),
        kept_covers(kv, sp, i),
    ensures
        kept_covers(kv.push(sp[i]), sp, i + 1),
{
    reveal(kept_covers);
    let pv = sp[i];
    let nk = kv.push(pv);
    assert forall|j: int| 0 <= j < i + 1 implies exists|t2: Pieces| #[trigger]
        nk.contains(t2) && t2.is_prefix_of(#[trigger] sp[j]) by {
        if j == i {
            lemma_prefix_reflexive(pv);
            assert(nk[kv.len() as int] == pv);
            assert(nk.contains(pv) && pv.is_prefix_of(sp[j]));
        } else {
            let t = choose|t: Pieces| #[trigger] kv.contains(t) && t.is_prefix_of(sp[j]);
            let mt = choose|mt: int| 0 <= mt < kv.len() && kv[mt] == t;
            assert(nk[mt] == t);
            assert(nk.contains(t));
        }
    }
}

/// The new path has no proper prefix among the first `i + 1` paths.
proof fn lemma_keep_new_minimal(kv: Seq<Pieces>, sp: Seq<Pieces>, i: int)
    requires
        strictly_sorted(sp),
        0 <= i < sp.len(),
        kept_covers(kv, sp, i),
        forall|m: int| 0 <= m < kv.len() ==> !(#[trigger] kv[m]).is_prefix_of(sp[i]),
    ensures
        minimal_in(sp[i], sp.take(i + 1)),
{
    let pv = sp[i];
    let pre = sp.take(i);
    let post = sp.take(i + 1);
    reveal(kept_covers);
    assert forall|q: Pieces| #[trigger] post.contains(q) implies !proper_prefix(q, pv) by {
        lemma_take_contains(sp, i, q);
        if proper_prefix(q, pv) && q != pv {
            let jq = choose|jq: int| 0 <= jq < pre.len() && pre[jq] == q;
            assert(sp[jq] == q);
            let t = choose|t: Pieces| #[trigger] kv.contains(t) && t.is_prefix_of(sp[jq]);
            lemma_prefix_transitive(t, q, pv);
            let mt = choose|mt: int| 0 <= mt < kv.len() && kv[mt] == t;
            assert(!kv[mt].is_prefix_of(pv));
        }
    }
    lemma_take_contains(sp, i, pv);
}

proof fn lemma_keep_minimal(kv: Seq<Pieces>, sp: Seq<Pieces>, i: int)
    requires
        strictly_sorted(sp),
        0 <= i < sp.len(),
        collapse_inv(kv, sp, i),
        forall|m: int| 0 <= m < kv.len() ==> !(#[trigger] kv[m]).is_prefix_of(sp[i]),
    ensures
        kept_minimal(kv.push(sp[i]), sp, i + 1),
{
    reveal(collapse_inv);
    let pv = sp[i];
    let post = sp.take(i + 1);
    let nk = kv.push(pv);
    lemma_keep_new_minimal(kv, sp, i);
    reveal(kept_minimal);
    assert forall|x: Pieces| #[trigger] nk.contains(x) <==> minimal_in(x, post) by {
        if nk.contains(x) {
            let mx = choose|mx: int| 0 <= mx < nk.len() && nk[mx] == x;
            if mx < kv.len() {
                assert(kv[mx] == x);
                assert(kv.contains(x));
                lemma_minimal_kept_stays(kv, sp, i, x);
            }
        }
        if minimal_in(x, post) {
            if x == pv {
                assert(nk[kv.len() as int] == pv);
            } else {
                lemma_minimal_shrinks(sp, i, x);
                assert(kv.contains(x));
                let mx = choose|mx: int| 0 <= mx < kv.len() && kv[mx] == x;
                assert(nk[mx] == x);
            }
        }
    }
}

fn copy_pieces(p: &Vec<Vec<char>>) -> (r: Vec<Vec<char>>)
    ensures
        pieces_of(r) == pieces_of(*p),
{
    let mut r: Vec<Vec<char>> = Vec::new();
    let mut i: usize = 0;
    while i < p.len()
        invariant
            i <= p.len(),
            pieces_view(r@) == pieces_view(p@).take(i as int),
        decreases p.len() - i,
    {
        let c = p[i].clone();
        assert(c@ == p@[i as int]@);
        let ghost before = r@;
        r.push(c);
        assert(pieces_view(r@) =~= pieces_view(before).push(c@));
        assert(pieces_view(p@).take(i + 1) =~= pieces_view(p@).take(i as int).push(p@[i as int]@));
        i = i + 1;
    }
    assert(pieces_view(p@).take(p.len() as int) == pieces_view(p@));
    r
}

proof fn lemma_collapse_start(sp: Seq<Pieces>)
    ensures
        collapse_inv(Seq::<Pieces>::empty(), sp, 0),
{
    let kv = Seq::<Pieces>::empty();
    reveal(collapse_inv);
    reveal(kept_minimal);
    reveal(kept_origin);
    reveal(kept_covers);
    assert forall|x: Pieces| #[trigger] kv.contains(x) <==> minimal_in(x, sp.take(0)) by {
        assert(sp.take(0) =~= Seq::<Pieces>::empty());
    }
}

proof fn lemma_collapse_done(kv: Seq<Pieces>, sp: Seq<Pieces>)
    requires
        collapse_inv(kv, sp, sp.len() as int),
    ensures
        sorted_minimal(kv, sp),
{
    reveal(collapse_inv);
    reveal(kept_minimal);
    assert(sp.take(sp.len() as int) == sp);
}

fn any_prefix_of(kept: &Vec<Vec<Vec<char>>>, p: &Vec<Vec<char>>) -> (covered: bool)
    ensures
        covered ==> exists|t: Pieces| #[trigger] paths_of(kept@).contains(t) && t.is_prefix_of(pieces_of(*p)),
        !covered ==> forall|m: int|
            0 <= m < paths_of(kept@).len() ==> !(#[trigger] paths_of(kept@)[m]).is_prefix_of(pieces_of(*p)),
{
    let ghost kv = paths_of(kept@);
    let mut k: usize = 0;
    while k < kept.len()
        invariant
            k <= kept.len(),
            kv == paths_of(kept@),
            forall|m: int| 0 <= m < k ==> !(#[trigger] kv[m]).is_prefix_of(pieces_of(*p)),
        decreases kept.len() - k,
    {
        if pieces_prefix(&kept[k], p) {
            assert(kv[k as int] == pieces_of(kept@[k as int]));
            assert(kv.contains(kv[k as int]));
            return true;
        }
        k = k + 1;
    }
    false
}

/// Keeps, in order, the paths of a strictly sorted list that have no proper
/// prefix among the list.
#[verifier::rlimit(50)]
fn collapse_targets(sorted: &Vec<Vec<Vec<char>>>) -> (kept: Vec<Vec<Vec<char>>>)
    requires
        strictly_sorted(paths_of(sorted@)),
    ensures
        sorted_minimal(paths_of(kept@), paths_of(sorted@)),
{
    let ghost sp = paths_of(sorted@);
    let mut kept: Vec<Vec<Vec<char>>> = Vec::new();
    let mut i: usize = 0;
    proof {
        assert(paths_of(kept@) =~= Seq::<Pieces>::empty());
        lemma_collapse_start(sp);
    }
    while i < sorted.len()
        invariant
            i <= sorted.len(),
            sp == paths_of(sorted@),
            strictly_sorted(sp),
            collapse_inv(paths_of(kept@), sp, i as int),
        decreases sorted.len() - i,
    {
        let p = &sorted[i];
        let ghost kv = paths_of(kept@);
        assert(sp[i as int] == pieces_of(*p));
        let covered = any_prefix_of(&kept, p);
        if covered {
            proof {
                lemma_collapse_skip(kv, sp, i as int);
            }
        } else {
            kept.push(copy_pieces(p));
            proof {
                assert(paths_of(kept@) =~= kv.push(sp[i as int]));
                lemma_collapse_keep(kv, sp, i as int);
            }
        }
        i = i + 1;
    }
    proof {
        lemma_collapse_done(paths_of(kept@), sp);
    }
    kept
}

/// Plans the rescan of the changed paths: a path that is empty, absolute or
/// climbs out of the root fails closed to a full rescan; the root itself makes
/// one recursive target; otherwise the distinct paths without an ancestor among
/// them become the targets, in path order, unless there are more than
/// `max_targets` of them.
pub fn plan_incremental_rescan(
    changes: &[CollectedFseventsChange],
    rescan_subtrees: bool,
    max_targets: usize,
) -> (r: IncrementalRescanPlan)
    ensures
        plan_matches(r, change_paths(changes@), rescan_subtrees, max_targets),
        first_stop(change_paths(changes@), changes@.len() as int) is None ==> exists|l: Seq<
            Pieces,
        >| sorted_minimal(l, normalized_all(change_paths(changes@))),
{
    let ghost ps = change_paths(changes@);
    let mut sorted: Vec<Vec<Vec<char>>> = Vec::new();
    let mut i: usize = 0;
    while i < changes.len()
        invariant
            i <= changes.len(),
            ps == change_paths(changes@),
            first_stop(ps, i as int) is None,
            strictly_sorted(paths_of(sorted@)),
            forall|y: Pieces|
                #[trigger] paths_of(sorted@).contains(y) <==> normalized_all(ps).take(
                    i as int,
                ).contains(y),
        decreases changes.len() - i,
    {
        assert(ps[i as int] == changes@[i as int].relative_path@);
        let ns = match normalize_pieces(changes[i].relative_path.as_str()) {
            None => {
                assert(first_stop(ps, i + 1) == Some(true));
                proof {
                    lemma_first_stop_stays(ps, i + 1);
                }
                return IncrementalRescanPlan::Full { reason: FullRescanReason::InvalidChangePath };
            },
            Some(ns) => ns,
        };
        if ns.len() == 0 {
            assert(first_stop(ps, i + 1) == Some(false));
            proof {
                lemma_first_stop_stays(ps, i + 1);
            }
            let mut root = Vec::new();
            root.push('.');
            let text = crate::text::string_of(&root);
            let mut targets = Vec::new();
            targets.push(IncrementalRescanTarget { relative_path: text, recursive: true });
            assert(targets_are(targets@, seq![Seq::<Seq<char>>::empty()], true));
            return IncrementalRescanPlan::Partial { targets };
        }
        let ghost before = paths_of(sorted@);
        insert_sorted(&mut sorted, ns);
        proof {
            let na = normalized_all(ps);
            assert(na.take(i + 1) =~= na.take(i as int).push(na[i as int]));
            assert forall|y: Pieces| #[trigger] paths_of(sorted@).contains(y) <==> na.take(
                i + 1,
            ).contains(y) by {
                let t0 = na.take(i as int);
                let t1 = na.take(i + 1);
                assert(before.contains(y) == t0.contains(y));
                assert(na[i as int] == normalize_spec(ps[i as int])->Some_0);
                assert(na[i as int] == pieces_of(ns));
                assert(paths_of(sorted@).contains(y) == (before.contains(y) || y == pieces_of(ns)));
                if y == pieces_of(ns) {
                    assert(t1[i as int] == y);
                }
                if t0.contains(y) {
                    let k = choose|k: int| 0 <= k < t0.len() && t0[k] == y;
                    assert(t1[k] == y);
                }
                if t1.contains(y) {
                    let k = choose|k: int| 0 <= k < t1.len() && t1[k] == y;
                    if k < i {
                        assert(t0[k] == y);
                    } else {
                        assert(t1[k] == na[i as int]);
                    }
                }
            }
        }
        i = i + 1;
    }
    let kept = collapse_targets(&sorted);
    let ghost na = normalized_all(ps);
    proof {
        assert(na.take(changes.len() as int) == na);
        let sp = paths_of(sorted@);
        let kv = paths_of(kept@);
        // Minimality over the sorted list equals minimality over all paths.
        assert forall|x: Pieces| #[trigger] kv.contains(x) <==> minimal_in(x, na) by {
            assert(minimal_in(x, sp) == minimal_in(x, na)) by {
                assert(sp.contains(x) == na.contains(x));
                if exists|q: Pieces| #[trigger] sp.contains(q) && proper_prefix(q, x) {
                    let q = choose|q: Pieces| #[trigger] sp.contains(q) && proper_prefix(q, x);
                    assert(na.contains(q));
                }
                if exists|q: Pieces| #[trigger] na.contains(q) && proper_prefix(q, x) {
                    let q = choose|q: Pieces| #[trigger] na.contains(q) && proper_prefix(q, x);
                    assert(sp.contains(q));
                }
            }
        }
        assert(sorted_minimal(kv, na));
        lemma_sorted_unique(kv, collapsed(na));
        assert(ps.len() == changes@.len());
    }
    if kept.len() > max_targets {
        return IncrementalRescanPlan::Full { reason: FullRescanReason::TooManyTargets };
    }
    let mut targets: Vec<IncrementalRescanTarget> = Vec::new();
    let mut k: usize = 0;
    while k < kept.len()
        invariant
            k <= kept.len(),
            targets@.len() == k,
            forall|m: int|
                0 <= m < k ==> (#[trigger] targets@[m]).relative_path@ == render_relative(
                    paths_of(kept@)[m],
                ) && targets@[m].recursive == rescan_subtrees,
        decreases kept.len() - k,
    {
        let text = render_relative_pieces(&kept[k]);
        targets.push(IncrementalRescanTarget { relative_path: text, recursive: rescan_subtrees });
        k = k + 1;
    }
    IncrementalRescanPlan::Partial { targets }
}

/// A relative path text that normalization leaves as it is.
pub open spec fn is_normalized_text(t: Seq<char>) -> bool {
    normalize_spec(t) matches Some(ns) && render_relative(ns) == t
}

/// Every target of a partial plan is already in normalized form: normalizing
/// its text gives back the same components, whose text is the target's path.
pub proof fn lemma_plan_targets_normalized(
    r: IncrementalRescanPlan,
    ps: Seq<Seq<char>>,
    rescan_subtrees: bool,
    max_targets: usize,
)
    requires
        plan_matches(r, ps, rescan_subtrees, max_targets),
    ensures
        r matches IncrementalRescanPlan::Partial { targets } ==> forall|i: int|
            0 <= i < targets@.len() ==> is_normalized_text((#[trigger] targets@[i]).relative_path@),
{
    if let IncrementalRescanPlan::Partial { targets } = r {
        match first_stop(ps, ps.len() as int) {
            Some(true) => {},
            Some(false) => {
                let root = Seq::<Seq<char>>::empty();
                lemma_normalize_render(root);
                assert forall|i: int| 0 <= i < targets@.len() implies is_normalized_text(
                    (#[trigger] targets@[i]).relative_path@,
                ) by {
                    assert(seq![root][i] == root);
                }
            },
            None => {
                let na = normalized_all(ps);
                let l = collapsed(na);
                lemma_sorted_minimal_exists(na);
                lemma_collapsed_laws(na);
                assert forall|i: int| 0 <= i < targets@.len() implies is_normalized_text(
                    (#[trigger] targets@[i]).relative_path@,
                ) by {
                    assert(l.contains(l[i]));
                    assert(na.contains(l[i]));
                    let k = choose|k: int| 0 <= k < na.len() && na[k] == l[i];
                    lemma_first_stop_none_valid(ps, ps.len() as int, k);
                    lemma_normalized_pieces_are_normal(ps[k]);
                    assert(na[k] == normalize_spec(ps[k])->Some_0);
                    assert forall|j: int| 0 <= j < l[i].len() implies is_normal_piece(
                        #[trigger] l[i][j],
                    ) by {
                        assert(l[i][j] == normalize_spec(ps[k])->Some_0[j]);
                    }
                    lemma_normalize_render(l[i]);
                }
            },
        }
    }
}

/// `l` without the paths that lie under `x`.
pub open spec fn drop_under(l: Seq<Pieces>, x: Pieces) -> Seq<Pieces>
    decreases l.len(),
{
    if l.len() == 0 {
        Seq::empty()
    } else if proper_prefix(x, l[0]) {
        drop_under(l.drop_first(), x)
    } else {
        seq![l[0]] + drop_under(l.drop_first(), x)
    }
}

/// `x` put into the sorted list `f` at its place.
pub open spec fn placed_in(f: Seq<Pieces>, x: Pieces) -> Seq<Pieces>
    decreases f.len(),
{
    if f.len() == 0 {
        seq![x]
    } else if pieces_lt(x, f[0]) {
        seq![x] + f
    } else {
        seq![f[0]] + placed_in(f.drop_first(), x)
    }
}

proof fn lemma_sorted_cons(h: Pieces, t: Seq<Pieces>)
    requires
        strictly_sorted(t),
        forall|y: Pieces| #[trigger] t.contains(y) ==> pieces_lt(h, y),
    ensures
        strictly_sorted(seq![h] + t),
{
    let r = seq![h] + t;
    assert forall|a: int, b: int| 0 <= a < b < r.len() implies pieces_lt(#[trigger] r[a], #[trigger] r[b]) by {
        assert(r[b] == t[b - 1]);
        if a == 0 {
            assert(t.contains(t[b - 1]));
        } else {
            assert(r[a] == t[a - 1]);
        }
    }
}

proof fn lemma_drop_under(l: Seq<Pieces>, x: Pieces)
    requires
        strictly_sorted(l),
    ensures
        strictly_sorted(drop_under(l, x)),
        forall|y: Pieces| #[trigger] drop_under(l, x).contains(y) <==> (l.contains(y) && !proper_prefix(x, y)),
    decreases l.len(),
{
    if l.len() > 0 {
        let t = l.drop_first();
        assert(strictly_sorted(t)) by {
            assert forall|a: int, b: int| 0 <= a < b < t.len() implies pieces_lt(#[trigger] t[a], #[trigger] t[b]) by {
                assert(t[a] == l[a + 1] && t[b] == l[b + 1]);
            }
        }
        lemma_drop_under(t, x);
        let d = drop_under(t, x);
        assert forall|y: Pieces| l.contains(y) <==> (y == l[0] || t.contains(y)) by {
            if l.contains(y) {
                let i = choose|i: int| 0 <= i < l.len() && l[i] == y;
                if i > 0 {
                    assert(t[i - 1] == y);
                }
            }
            if t.contains(y) {
                let i = choose|i: int| 0 <= i < t.len() && t[i] == y;
                assert(l[i + 1] == y);
            }
        }
        if !proper_prefix(x, l[0]) {
            assert forall|y: Pieces| #[trigger] d.contains(y) implies pieces_lt(l[0], y) by {
                let i = choose|i: int| 0 <= i < t.len() && t[i] == y;
                assert(l[i + 1] == y);
            }
            lemma_sorted_cons(l[0], d);
            let r = seq![l[0]] + d;
            assert forall|y: Pieces| r.contains(y) <==> (y == l[0] || d.contains(y)) by {
                if r.contains(y) {
                    let i = choose|i: int| 0 <= i < r.len() && r[i] == y;
                    if i > 0 {
                        assert(d[i - 1] == y);
                    }
                }
                if d.contains(y) {
                    let i = choose|i: int| 0 <= i < d.len() && d[i] == y;
                    assert(r[i + 1] == y);
                }
                if y == l[0] {
                    assert(r[0] == y);
                }
            }
        }
    } else {
        assert(drop_under(l, x) =~= Seq::<Pieces>::empty());
    }
}

proof fn lemma_placed_in(f: Seq<Pieces>, x: Pieces)
    requires
        strictly_sorted(f),
        !f.contains(x),
    ensures
        strictly_sorted(placed_in(f, x)),
        forall|y: Pieces| #[trigger] placed_in(f, x).contains(y) <==> (f.contains(y) || y == x),
    decreases f.len(),
{
    let r = placed_in(f, x);
    if f.len() == 0 {
        assert forall|y: Pieces| #[trigger] r.contains(y) <==> (f.contains(y) || y == x) by {
            if r.contains(y) {
                assert(r[0] == x);
            }
            if y == x {
                assert(r[0] == y);
            }
        }
    } else {
        let t = f.drop_first();
        assert(strictly_sorted(t)) by {
            assert forall|a: int, b: int| 0 <= a < b < t.len() implies pieces_lt(#[trigger] t[a], #[trigger] t[b]) by {
                assert(t[a] == f[a + 1] && t[b] == f[b + 1]);
            }
        }
        assert forall|y: Pieces| f.contains(y) <==> (y == f[0] || t.contains(y)) by {
            if f.contains(y) {
                let i = choose|i: int| 0 <= i < f.len() && f[i] == y;
                if i > 0 {
                    assert(t[i - 1] == y);
                }
            }
            if t.contains(y) {
                let i = choose|i: int| 0 <= i < t.len() && t[i] == y;
                assert(f[i + 1] == y);
            }
            if y == f[0] {
                assert(f[0] == y);
            }
        }
        if pieces_lt(x, f[0]) {
            assert forall|y: Pieces| #[trigger] f.contains(y) implies pieces_lt(x, y) by {
                let i = choose|i: int| 0 <= i < f.len() && f[i] == y;
                if i > 0 {
                    assert(pieces_lt(f[0], f[i]));
                    lemma_pieces_lt_transitive(x, f[0], y);
                }
            }
            lemma_sorted_cons(x, f);
            assert forall|y: Pieces| r.contains(y) <==> (f.contains(y) || y == x) by {
                if r.contains(y) {
                    let i = choose|i: int| 0 <= i < r.len() && r[i] == y;
                    if i > 0 {
                        assert(f[i - 1] == y);
                    }
                }
                if f.contains(y) {
                    let i = choose|i: int| 0 <= i < f.len() && f[i] == y;
                    assert(r[i + 1] == y);
                }
                if y == x {
                    assert(r[0] == y);
                }
            }
        } else {
            assert(f.contains(f[0]));
            lemma_pieces_lt_trichotomy(x, f[0]);
            assert(!t.contains(x));
            lemma_placed_in(t, x);
            let d = placed_in(t, x);
            assert forall|y: Pieces| #[trigger] d.contains(y) implies pieces_lt(f[0], y) by {
                if t.contains(y) {
                    let i = choose|i: int| 0 <= i < t.len() && t[i] == y;
                    assert(f[i + 1] == y);
                }
            }
            lemma_sorted_cons(f[0], d);
            assert forall|y: Pieces| r.contains(y) <==> (f.contains(y) || y == x) by {
                if r.contains(y) {
                    let i = choose|i: int| 0 <= i < r.len() && r[i] == y;
                    if i > 0 {
                        assert(d[i - 1] == y);
                    }
                }
                if d.contains(y) {
                    let i = choose|i: int| 0 <= i < d.len() && d[i] == y;
                    assert(r[i + 1] == y);
                }
                if y == f[0] {
                    assert(r[0] == y);
                }
            }
        }
    }
}

/// Every list of paths has a sorted list of its minimal paths.
proof fn lemma_sorted_minimal_exists(s: Seq<Pieces>)
    ensures
        exists|l: Seq<Pieces>| sorted_minimal(l, s),
    decreases s.len(),
{
    if s.len() == 0 {
        let l = Seq::<Pieces>::empty();
        assert(sorted_minimal(l, s));
    } else {
        let t = s.drop_last();
        let x = s.last();
        lemma_sorted_minimal_exists(t);
        let l = choose|l: Seq<Pieces>| sorted_minimal(l, t);
        assert forall|y: Pieces| s.contains(y) <==> (t.contains(y) || y == x) by {
            if s.contains(y) {
                let i = choose|i: int| 0 <= i < s.len() && s[i] == y;
                if i < s.len() - 1 {
                    assert(t[i] == y);
                }
            }
            if t.contains(y) {
                let i = choose|i: int| 0 <= i < t.len() && t[i] == y;
                assert(s[i] == y);
            }
            if y == x {
                assert(s[s.len() - 1] == y);
            }
        }
        if t.contains(x) || exists|q: Pieces| #[trigger] t.contains(q) && proper_prefix(q, x) {
            assert forall|y: Pieces| #[trigger] l.contains(y) <==> minimal_in(y, s) by {
                if minimal_in(y, t) {
                    if proper_prefix(x, y) {
                        if t.contains(x) {
                        } else {
                            let q = choose|q: Pieces| #[trigger] t.contains(q) && proper_prefix(q, x);
                            lemma_prefix_transitive(q, x, y);
                            assert(proper_prefix(q, y));
                        }
                    }
                    assert(!(exists|q: Pieces| #[trigger] s.contains(q) && proper_prefix(q, y))) by {
                        if exists|q: Pieces| #[trigger] s.contains(q) && proper_prefix(q, y) {
                            let q = choose|q: Pieces| #[trigger] s.contains(q) && proper_prefix(q, y);
                            if q != x {
                                assert(t.contains(q));
                            }
                        }
                    }
                }
                if minimal_in(y, s) {
                    if y == x && !t.contains(x) {
                        let q = choose|q: Pieces| #[trigger] t.contains(q) && proper_prefix(q, x);
                        assert(s.contains(q));
                    }
                    assert(t.contains(y));
                    assert(!(exists|q: Pieces| #[trigger] t.contains(q) && proper_prefix(q, y))) by {
                        if exists|q: Pieces| #[trigger] t.contains(q) && proper_prefix(q, y) {
                            let q = choose|q: Pieces| #[trigger] t.contains(q) && proper_prefix(q, y);
                            assert(s.contains(q));
                        }
                    }
                }
            }
            assert(sorted_minimal(l, s));
        } else {
            lemma_drop_under(l, x);
            let d = drop_under(l, x);
            assert(!d.contains(x)) by {
                if d.contains(x) {
                    assert(minimal_in(x, t));
                }
            }
            lemma_placed_in(d, x);
            let r = placed_in(d, x);
            assert forall|y: Pieces| #[trigger] r.contains(y) <==> minimal_in(y, s) by {
                if y == x {
                    assert(!(exists|q: Pieces| #[trigger] s.contains(q) && proper_prefix(q, x))) by {
                        if exists|q: Pieces| #[trigger] s.contains(q) && proper_prefix(q, x) {
                            let q = choose|q: Pieces| #[trigger] s.contains(q) && proper_prefix(q, x);
                            if q != x {
                                assert(t.contains(q));
                            }
                        }
                    }
                } else {
                    if minimal_in(y, s) {
                        assert(t.contains(y));
                        assert(!(exists|q: Pieces| #[trigger] t.contains(q) && proper_prefix(q, y))) by {
                            if exists|q: Pieces| #[trigger] t.contains(q) && proper_prefix(q, y) {
                                let q = choose|q: Pieces| #[trigger] t.contains(q) && proper_prefix(q, y);
                                assert(s.contains(q));
                            }
                        }
                        assert(minimal_in(y, t));
                        assert(!proper_prefix(x, y)) by {
                            assert(s.contains(x));
                        }
                    }
                    if r.contains(y) {
                        assert(l.contains(y) && !proper_prefix(x, y));
                        assert(minimal_in(y, t));
                        assert(!(exists|q: Pieces| #[trigger] s.contains(q) && proper_prefix(q, y))) by {
                            if exists|q: Pieces| #[trigger] s.contains(q) && proper_prefix(q, y) {
                                let q = choose|q: Pieces| #[trigger] s.contains(q) && proper_prefix(q, y);
                                if q != x {
                                    assert(t.contains(q));
                                }
                            }
                        }
                    }
                }
            }
            assert(sorted_minimal(r, s));
        }
    }
}

/// A change path that planning refuses: it does not normalize.
pub open spec fn invalid_change(p: Seq<char>) -> bool {
    normalize_spec(p) is None
}

/// A change path that names the root itself.
pub open spec fn root_change(p: Seq<char>) -> bool {
    normalize_spec(p) matches Some(ns) && ns.len() == 0
}

proof fn lemma_first_stop_cases(ps: Seq<Seq<char>>, k: int)
    requires
        0 <= k <= ps.len(),
    ensures
        first_stop(ps, k) is None <==> forall|i: int|
            0 <= i < k ==> !invalid_change(#[trigger] ps[i]) && !root_change(ps[i]),
        first_stop(ps, k) == Some(true) ==> exists|i: int| 0 <= i < k && invalid_change(#[trigger] ps[i]),
        first_stop(ps, k) == Some(false) ==> exists|i: int| 0 <= i < k && root_change(#[trigger] ps[i]),
    decreases k,
{
    if k > 0 {
        lemma_first_stop_cases(ps, k - 1);
        if first_stop(ps, k - 1) is None {
            if first_stop(ps, k) is None {
                assert forall|i: int| 0 <= i < k implies !invalid_change(#[trigger] ps[i])
                    && !root_change(ps[i]) by {
                    if i < k - 1 {
                    }
                }
            } else {
                assert(invalid_change(ps[k - 1]) || root_change(ps[k - 1]));
            }
        } else {
            assert(first_stop(ps, k) == first_stop(ps, k - 1));
            if first_stop(ps, k) is None {
            } else {
                let b = first_stop(ps, k - 1)->Some_0;
                if b {
                    let i = choose|i: int| 0 <= i < k - 1 && invalid_change(#[trigger] ps[i]);
                    assert(0 <= i < k && invalid_change(ps[i]));
                } else {
                    let i = choose|i: int| 0 <= i < k - 1 && root_change(#[trigger] ps[i]);
                    assert(0 <= i < k && root_change(ps[i]));
                }
                let j = choose|j: int| 0 <= j < k - 1 && (invalid_change(#[trigger] ps[j])
                    || root_change(ps[j]));
                assert(!(!invalid_change(ps[j]) && !root_change(ps[j])));
            }
        }
    }
}

/// The outcome of scanning a whole list of change paths, from its members alone:
/// the list holds an invalid path, or the root, or neither.
proof fn lemma_first_stop_by_members(ps: Seq<Seq<char>>)
    requires
        !((exists|i: int| 0 <= i < ps.len() && invalid_change(#[trigger] ps[i])) && (exists|i: int|
            0 <= i < ps.len() && root_change(#[trigger] ps[i]))),
    ensures
        first_stop(ps, ps.len() as int) == if exists|i: int|
            0 <= i < ps.len() && invalid_change(#[trigger] ps[i]) {
            Some(true)
        } else if exists|i: int| 0 <= i < ps.len() && root_change(#[trigger] ps[i]) {
            Some(false)
        } else {
            None::<bool>
        },
{
    lemma_first_stop_cases(ps, ps.len() as int);
    if exists|i: int| 0 <= i < ps.len() && invalid_change(#[trigger] ps[i]) {
        let i = choose|i: int| 0 <= i < ps.len() && invalid_change(#[trigger] ps[i]);
        assert(!(!invalid_change(ps[i]) && !root_change(ps[i])));
    } else if exists|i: int| 0 <= i < ps.len() && root_change(#[trigger] ps[i]) {
        let i = choose|i: int| 0 <= i < ps.len() && root_change(#[trigger] ps[i]);
        assert(!(!invalid_change(ps[i]) && !root_change(ps[i])));
    }
}

/// Planning depends only on which paths changed, not on their order or on
/// repeats: two lists of change paths with the same members get the same plan,
/// unless a list holds both a path that is refused and the root itself (then
/// whichever comes first decides).
pub proof fn lemma_plan_ignores_order_and_repeats(
    ps: Seq<Seq<char>>,
    qs: Seq<Seq<char>>,
    r: IncrementalRescanPlan,
    rescan_subtrees: bool,
    max_targets: usize,
)
    requires
        forall|x: Seq<char>| ps.contains(x) <==> qs.contains(x),
        !((exists|i: int| 0 <= i < ps.len() && invalid_change(#[trigger] ps[i])) && (exists|i: int|
            0 <= i < ps.len() && root_change(#[trigger] ps[i]))),
    ensures
        first_stop(ps, ps.len() as int) == first_stop(qs, qs.len() as int),
        collapsed(normalized_all(ps)) == collapsed(normalized_all(qs)),
        plan_matches(r, ps, rescan_subtrees, max_targets) == plan_matches(
            r,
            qs,
            rescan_subtrees,
            max_targets,
        ),
{
    let bad_p = exists|i: int| 0 <= i < ps.len() && invalid_change(#[trigger] ps[i]);
    let bad_q = exists|i: int| 0 <= i < qs.len() && invalid_change(#[trigger] qs[i]);
    let root_p = exists|i: int| 0 <= i < ps.len() && root_change(#[trigger] ps[i]);
    let root_q = exists|i: int| 0 <= i < qs.len() && root_change(#[trigger] qs[i]);
    assert(bad_p == bad_q) by {
        if bad_p {
            let i = choose|i: int| 0 <= i < ps.len() && invalid_change(#[trigger] ps[i]);
            assert(ps.contains(ps[i]));
            let j = choose|j: int| 0 <= j < qs.len() && qs[j] == ps[i];
            assert(invalid_change(qs[j]));
        }
        if bad_q {
            let j = choose|j: int| 0 <= j < qs.len() && invalid_change(#[trigger] qs[j]);
            assert(qs.contains(qs[j]));
            let i = choose|i: int| 0 <= i < ps.len() && ps[i] == qs[j];
            assert(invalid_change(ps[i]));
        }
    }
    assert(root_p == root_q) by {
        if root_p {
            let i = choose|i: int| 0 <= i < ps.len() && root_change(#[trigger] ps[i]);
            assert(ps.contains(ps[i]));
            let j = choose|j: int| 0 <= j < qs.len() && qs[j] == ps[i];
            assert(root_change(qs[j]));
        }
        if root_q {
            let j = choose|j: int| 0 <= j < qs.len() && root_change(#[trigger] qs[j]);
            assert(qs.contains(qs[j]));
            let i = choose|i: int| 0 <= i < ps.len() && ps[i] == qs[j];
            assert(root_change(ps[i]));
        }
    }
    lemma_first_stop_by_members(ps);
    lemma_first_stop_by_members(qs);
    let np = normalized_all(ps);
    let nq = normalized_all(qs);
    assert forall|x: Pieces| np.contains(x) <==> nq.contains(x) by {
        if np.contains(x) {
            let i = choose|i: int| 0 <= i < np.len() && np[i] == x;
            assert(ps.contains(ps[i]));
            let j = choose|j: int| 0 <= j < qs.len() && qs[j] == ps[i];
            assert(nq[j] == x);
        }
        if nq.contains(x) {
            let j = choose|j: int| 0 <= j < nq.len() && nq[j] == x;
            assert(qs.contains(qs[j]));
            let i = choose|i: int| 0 <= i < ps.len() && ps[i] == qs[j];
            assert(np[i] == x);
        }
    }
    assert forall|x: Pieces| minimal_in(x, np) == minimal_in(x, nq) by {
        if minimal_in(x, np) && !minimal_in(x, nq) {
            let q = choose|q: Pieces| #[trigger] nq.contains(q) && proper_prefix(q, x);
            assert(np.contains(q));
        }
        if minimal_in(x, nq) && !minimal_in(x, np) {
            let q = choose|q: Pieces| #[trigger] np.contains(q) && proper_prefix(q, x);
            assert(nq.contains(q));
        }
    }
    assert forall|l: Seq<Pieces>| sorted_minimal(l, np) == sorted_minimal(l, nq) by {
        assert forall|x: Pieces| #[trigger] l.contains(x) implies (minimal_in(x, np) == minimal_in(x, nq)) by {}
        if sorted_minimal(l, np) {
            assert forall|x: Pieces| #[trigger] l.contains(x) <==> minimal_in(x, nq) by {
                assert(minimal_in(x, np) == minimal_in(x, nq));
            }
        }
        if sorted_minimal(l, nq) {
            assert forall|x: Pieces| #[trigger] l.contains(x) <==> minimal_in(x, np) by {
                assert(minimal_in(x, np) == minimal_in(x, nq));
            }
        }
    }
    lemma_sorted_minimal_exists(np);
    lemma_sorted_minimal_exists(nq);
    let a = collapsed(np);
    let b = collapsed(nq);
    assert(sorted_minimal(a, np));
    assert(sorted_minimal(b, nq));
    assert(sorted_minimal(a, nq));
    lemma_sorted_unique(a, b);
}

} // verus!
