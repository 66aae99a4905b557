//! The checks an incremental snapshot must pass before the stored baseline is
//! copied and its rescanned parts are replaced: an absolute root that matches
//! the checkpoint, well-formed targets, and replacement entries that lie under
//! the root, inside some target, and appear once each.
use crate::cache_activity::{opt_text, CacheObservation};
use crate::incremental_rescan::IncrementalRescanTarget;
use crate::index_checkpoint::IndexCheckpoint;
use crate::paths::{
    compare_pieces, components_begin, components_in, is_absolute_in, normalize_in,
    normalize_pieces_in, parts_begin, parts_match, parts_view, path_components_in,
    path_is_absolute_in, path_strip_prefix_in, pieces_view, render_relative_in,
    render_relative_pieces_in, strip_prefix_in, Component, PathPart, PathStyle,
};
use crate::text::{concat, owned, str_eq};
use vstd::prelude::*;

verus! {

/// One rescanned path, as the partial scan reports it.
#[derive(Clone, Debug, PartialEq, Eq)]
pub struct IncrementalEntry {
    pub path: String,
    pub file_count: u64,
    pub directory_count: u64,
    pub skipped_count: u64,
    pub skip_reason: Option<&'static str>,
    pub counted_size_bytes: u64,
    pub logical_size_bytes: u64,
    pub allocated_size_bytes: Option<u64>,
    pub file_identity: Option<String>,
    pub volume_identity: Option<String>,
    pub modified_at: Option<i64>,
}

/// Whether a target covers a relative path on the given platform, comparing
/// whole components as `Path`'s `==` and `starts_with` do: the root target `.`
/// covers everything when recursive (and nothing otherwise); another target
/// covers its own path and, when recursive, the paths under it.
pub open spec fn covers_spec(style: PathStyle, target: Seq<char>, recursive: bool, relative: Seq<char>) -> bool {
    let tc = components_in(style, target);
    let rc = components_in(style, relative);
    if tc == seq![PathPart::CurDir] {
        recursive
    } else {
        parts_match(rc, tc) || (recursive && parts_begin(tc, rc))
    }
}

/// Whether `target` covers the relative path `relative` on the given platform.
pub fn target_covers(target: &IncrementalRescanTarget, relative: &str, style: PathStyle) -> (r: bool)
    ensures
        r == covers_spec(style, target.relative_path@, target.recursive, relative@),
{
    let tc = path_components_in(style, target.relative_path.as_str());
    let is_cur = tc.len() == 1 && matches!(tc[0], Component::CurDir);
    assert(is_cur == (parts_view(tc@) == seq![PathPart::CurDir])) by {
        if parts_view(tc@) == seq![PathPart::CurDir] {
            assert(parts_view(tc@).len() == 1);
            assert(parts_view(tc@)[0] == tc@[0]@);
        }
        if is_cur {
            assert(parts_view(tc@) =~= seq![PathPart::CurDir]);
        }
    }
    if is_cur {
        return target.recursive;
    }
    let rc = path_components_in(style, relative);
    (rc.len() == tc.len() && components_begin(&rc, &tc)) || (target.recursive && components_begin(
        &tc,
        &rc,
    ))
}

/// The normalized form of a relative path on the given platform: `.`
/// components removed, `None` for an empty path or one that climbs out, is
/// absolute or holds a prefix.
pub fn normalize_relative(path: &str, style: PathStyle) -> (r: Option<String>)
    ensures
        r is Some <==> normalize_in(style, path@) is Some,
        r matches Some(t) ==> t@ == render_relative_in(style, normalize_in(style, path@)->Some_0),
{
    match normalize_pieces_in(style, path) {
        None => None,
        Some(ns) => Some(render_relative_pieces_in(style, &ns)),
    }
}

/// The key a file is told apart by: `volume:file` when both identities are
/// known, the file identity alone when only it is known, otherwise none.
pub open spec fn identity_key(volume: Option<Seq<char>>, file: Option<Seq<char>>) -> Option<
    Seq<char>,
> {
    match (volume, file) {
        (Some(v), Some(f)) => Some(v + ":"@ + f),
        (None, Some(f)) => Some(f),
        _ => None,
    }
}

/// The cache observation of a rescanned entry: only a single file that was not
/// skipped gives one, made of its size, its modification time and its key.
pub fn observation(entry: &IncrementalEntry) -> (r: Option<CacheObservation>)
    ensures
        r is None <==> (entry.file_count != 1 || entry.skipped_count != 0),
        r matches Some(o) ==> {
            &&& o.logical_size == Some(entry.logical_size_bytes)
            &&& o.modified_at == entry.modified_at
            &&& opt_text(o.file_identity) == identity_key(
                opt_text(entry.volume_identity),
                opt_text(entry.file_identity),
            )
        },
{
    if entry.file_count != 1 || entry.skipped_count != 0 {
        return None;
    }
    let file_identity = match (&entry.volume_identity, &entry.file_identity) {
        (Some(volume), Some(file)) => {
            let head = concat(volume.as_str(), ":");
            Some(concat(head.as_str(), file.as_str()))
        },
        (None, Some(file)) => Some(file.clone()),
        _ => None,
    };
    Some(
        CacheObservation {
            logical_size: Some(entry.logical_size_bytes),
            modified_at: entry.modified_at,
            file_identity,
        },
    )
}

/// The kind under which an entry is stored: a directory, a file, or other.
pub fn incremental_entry_type(entry: &IncrementalEntry) -> (t: &'static str)
    ensures
        t@ == if entry.directory_count > 0 {
            "directory"@
        } else if entry.file_count > 0 {
            "file"@
        } else {
            "other"@
        },
{
    if entry.directory_count > 0 {
        "directory"
    } else if entry.file_count > 0 {
        "file"
    } else {
        "other"
    }
}

/// The normalized form of a target's path (meaningful when it has one).
pub open spec fn target_text(style: PathStyle, t: IncrementalRescanTarget) -> Seq<char> {
    render_relative_in(style, normalize_in(style, t.relative_path@)->Some_0)
}

/// Some target, taken in normalized form, covers `relative`.
pub open spec fn any_covers(style: PathStyle, ts: Seq<IncrementalRescanTarget>, relative: Seq<char>) -> bool {
    exists|i: int|
        0 <= i < ts.len() && covers_spec(style, target_text(style, #[trigger] ts[i]), ts[i].recursive, relative)
}

/// The normalized components of an entry's path relative to the root, or the
/// message that it lies outside the root or is not a proper relative path.
pub open spec fn entry_pieces(style: PathStyle, e: IncrementalEntry, root: Seq<char>) -> Result<Seq<Seq<char>>, Seq<char>> {
    match strip_prefix_in(style, e.path@, root) {
        None => Err("部分再走査結果が走査root外を指しています"@),
        Some(rel) => match normalize_in(style, rel) {
            None => Err("部分再走査結果の相対pathが不正です"@),
            Some(ns) => Ok(ns),
        },
    }
}

/// The fault of the entry at `k`, given that the ones before it passed: its
/// relative path is malformed, no target covers it, or an earlier entry has it.
pub open spec fn entry_fault(
    style: PathStyle,
    ts: Seq<IncrementalRescanTarget>,
    es: Seq<IncrementalEntry>,
    root: Seq<char>,
    k: int,
) -> Option<Seq<char>> {
    match entry_pieces(style, es[k], root) {
        Err(m) => Some(m),
        Ok(ns) => if !any_covers(style, ts, render_relative_in(style, ns)) {
            Some("部分再走査結果が指定target外を指しています"@)
        } else if exists|j: int| 0 <= j < k && #[trigger] entry_pieces(style, es[j], root) == Ok::<
            Seq<Seq<char>>,
            Seq<char>,
        >(ns) {
            Some("部分再走査結果に重複pathがあります"@)
        } else {
            None
        },
    }
}

/// The first fault among the first `k` entries.
pub open spec fn first_fault(
    style: PathStyle,
    ts: Seq<IncrementalRescanTarget>,
    es: Seq<IncrementalEntry>,
    root: Seq<char>,
    k: int,
) -> Option<Seq<char>>
    decreases k,
{
    if k <= 0 {
        None
    } else {
        match first_fault(style, ts, es, root, k - 1) {
            Some(m) => Some(m),
            None => entry_fault(style, ts, es, root, k - 1),
        }
    }
}

/// Why an incremental snapshot request is refused, in the order the checks
/// run, or `None` when it passes them all.
pub open spec fn request_fault(
    style: PathStyle,
    root: Seq<char>,
    ts: Seq<IncrementalRescanTarget>,
    es: Seq<IncrementalEntry>,
    checkpoint_root: Seq<char>,
) -> Option<Seq<char>> {
    if !is_absolute_in(style, root) {
        Some("部分更新対象には絶対pathが必要です"@)
    } else if checkpoint_root != root {
        Some("部分更新対象とcheckpointのrootが一致しません"@)
    } else if exists|i: int| 0 <= i < ts.len() && normalize_in(style, (#[trigger] ts[i]).relative_path@) is None {
        Some("部分再走査targetが不正です"@)
    } else {
        first_fault(style, ts, es, root, es.len() as int)
    }
}

proof fn lemma_first_fault_stays(
    style: PathStyle,
    ts: Seq<IncrementalRescanTarget>,
    es: Seq<IncrementalEntry>,
    root: Seq<char>,
    k: int,
)
    requires
        0 <= k <= es.len(),
        first_fault(style, ts, es, root, k) is Some,
    ensures
        first_fault(style, ts, es, root, es.len() as int) == first_fault(style, ts, es, root, k),
    decreases es.len() - k,
{
    if k < es.len() {
        lemma_first_fault_stays(style, ts, es, root, k + 1);
    }
}

fn seen_before(seen: &Vec<Vec<Vec<char>>>, p: &Vec<Vec<char>>) -> (r: bool)
    ensures
        r == exists|j: int| 0 <= j < seen@.len() && pieces_view((#[trigger] seen@[j])@) == pieces_view(p@),
{
    let mut j: usize = 0;
    while j < seen.len()
        invariant
            j <= seen.len(),
            forall|m: int| 0 <= m < j ==> pieces_view((#[trigger] seen@[m])@) != pieces_view(p@),
        decreases seen.len() - j,
    {
        if compare_pieces(&seen[j], p) == 0 {
            return true;
        }
        j = j + 1;
    }
    false
}

/// Checks an incremental snapshot request and returns its targets in
/// normalized form: the root must be absolute and be the checkpoint's root,
/// every target must be a proper relative path, and every replacement entry
/// must lie under the root, inside some target, and appear once.
pub fn validate_incremental_request(
    root_path: &str,
    targets: &[IncrementalRescanTarget],
    replacements: &[IncrementalEntry],
    checkpoint: &IndexCheckpoint,
    style: PathStyle,
) -> (r: Result<Vec<IncrementalRescanTarget>, String>)
    ensures
        match r {
            Ok(nts) => {
                &&& request_fault(style, root_path@, targets@, replacements@, checkpoint.root_path@) is None
                &&& nts@.len() == targets@.len()
                &&& forall|i: int|
                    0 <= i < targets@.len() ==> (#[trigger] nts@[i]).relative_path@ == target_text(
                        style,
                        targets@[i],
                    ) && nts@[i].recursive == targets@[i].recursive
            },
            Err(e) => request_fault(style, root_path@, targets@, replacements@, checkpoint.root_path@)
                == Some(e@),
        },
{
    if !path_is_absolute_in(style, root_path) {
        return Err(owned("部分更新対象には絶対pathが必要です"));
    }
    if !str_eq(checkpoint.root_path.as_str(), root_path) {
        return Err(owned("部分更新対象とcheckpointのrootが一致しません"));
    }
    let ghost ts = targets@;
    let ghost es = replacements@;
    let ghost root = root_path@;
    let mut normalized: Vec<IncrementalRescanTarget> = Vec::new();
    let mut i: usize = 0;
    while i < targets.len()
        invariant
            i <= targets.len(),
            ts == targets@,
            is_absolute_in(style, root_path@),
            checkpoint.root_path@ == root_path@,
            normalized@.len() == i,
            forall|m: int| 0 <= m < i ==> normalize_in(style, (#[trigger] ts[m]).relative_path@) is Some,
            forall|m: int|
                0 <= m < i ==> (#[trigger] normalized@[m]).relative_path@ == target_text(style, ts[m])
                    && normalized@[m].recursive == ts[m].recursive,
        decreases targets.len() - i,
    {
        match normalize_relative(targets[i].relative_path.as_str(), style) {
            None => {
                assert(normalize_in(style, ts[i as int].relative_path@) is None);
                return Err(owned("部分再走査targetが不正です"));
            },
            Some(t) => {
                normalized.push(
                    IncrementalRescanTarget { relative_path: t, recursive: targets[i].recursive },
                );
            },
        }
        i = i + 1;
    }
    let mut seen: Vec<Vec<Vec<char>>> = Vec::new();
    let mut k: usize = 0;
    while k < replacements.len()
        invariant
            k <= replacements.len(),
            es == replacements@,
            ts == targets@,
            root == root_path@,
            is_absolute_in(style, root),
            checkpoint.root_path@ == root,
            forall|m: int| 0 <= m < ts.len() ==> normalize_in(style, (#[trigger] ts[m]).relative_path@) is Some,
            normalized@.len() == ts.len(),
            forall|m: int|
                0 <= m < ts.len() ==> (#[trigger] normalized@[m]).relative_path@ == target_text(style, ts[m])
                    && normalized@[m].recursive == ts[m].recursive,
            first_fault(style, ts, es, root, k as int) is None,
            seen@.len() == k,
            forall|j: int|
                0 <= j < k ==> entry_pieces(style, es[j], root) == Ok::<Seq<Seq<char>>, Seq<char>>(
                    pieces_view((#[trigger] seen@[j])@),
                ),
        decreases replacements.len() - k,
    {
        let rel = match path_strip_prefix_in(style, replacements[k].path.as_str(), root_path) {
            None => {
                assert(first_fault(style, ts, es, root, k + 1) is Some);
                proof {
                    lemma_first_fault_stays(style, ts, es, root, k + 1);
                }
                return Err(owned("部分再走査結果が走査root外を指しています"));
            },
            Some(rel) => rel,
        };
        let pieces = match normalize_pieces_in(style, rel.as_str()) {
            None => {
                assert(first_fault(style, ts, es, root, k + 1) is Some);
                proof {
                    lemma_first_fault_stays(style, ts, es, root, k + 1);
                }
                return Err(owned("部分再走査結果の相対pathが不正です"));
            },
            Some(p) => p,
        };
        let ghost ns = pieces_view(pieces@);
        assert(entry_pieces(style, es[k as int], root) == Ok::<Seq<Seq<char>>, Seq<char>>(ns));
        let text = render_relative_pieces_in(style, &pieces);
        let mut covered = false;
        let mut t: usize = 0;
        while t < normalized.len()
            invariant
                t <= normalized.len(),
                normalized@.len() == ts.len(),
                forall|m: int|
                    0 <= m < ts.len() ==> (#[trigger] normalized@[m]).relative_path@ == target_text(
                        style,
                        ts[m],
                    ) && normalized@[m].recursive == ts[m].recursive,
                covered == exists|m: int|
                    0 <= m < t && covers_spec(style, target_text(style, #[trigger] ts[m]), ts[m].recursive, text@),
            decreases normalized.len() - t,
        {
            if target_covers(&normalized[t], text.as_str(), style) {
                covered = true;
            }
            t = t + 1;
        }
        if !covered {
            assert(!any_covers(style, ts, render_relative_in(style, ns)));
            assert(first_fault(style, ts, es, root, k + 1) is Some);
            proof {
                lemma_first_fault_stays(style, ts, es, root, k + 1);
            }
            return Err(owned("部分再走査結果が指定target外を指しています"));
        }
        if seen_before(&seen, &pieces) {
            assert(exists|j: int| 0 <= j < k && #[trigger] entry_pieces(style, es[j], root) == Ok::<
                Seq<Seq<char>>,
                Seq<char>,
            >(ns)) by {
                let j = choose|j: int| 0 <= j < seen@.len() && pieces_view((#[trigger] seen@[j])@)
                    == pieces_view(pieces@);
                assert(entry_pieces(style, es[j], root) == Ok::<Seq<Seq<char>>, Seq<char>>(ns));
            }
            assert(first_fault(style, ts, es, root, k + 1) is Some);
            proof {
                lemma_first_fault_stays(style, ts, es, root, k + 1);
            }
            return Err(owned("部分再走査結果に重複pathがあります"));
        }
        assert(!exists|j: int| 0 <= j < k && #[trigger] entry_pieces(style, es[j], root) == Ok::<
            Seq<Seq<char>>,
            Seq<char>,
        >(ns)) by {
            if exists|j: int| 0 <= j < k && #[trigger] entry_pieces(style, es[j], root) == Ok::<
                Seq<Seq<char>>,
                Seq<char>,
            >(ns) {
                let j = choose|j: int| 0 <= j < k && #[trigger] entry_pieces(style, es[j], root) == Ok::<
                    Seq<Seq<char>>,
                    Seq<char>,
                >(ns);
                assert(pieces_view(seen@[j]@) == ns);
            }
        }
        assert(entry_fault(style, ts, es, root, k as int) is None);
        seen.push(pieces);
        k = k + 1;
    }
    Ok(normalized)
}

proof fn lemma_no_fault_before(
    style: PathStyle,
    ts: Seq<IncrementalRescanTarget>,
    es: Seq<IncrementalEntry>,
    root: Seq<char>,
    k: int,
)
    requires
        0 <= k <= es.len(),
        first_fault(style, ts, es, root, k) is None,
    ensures
        forall|m: int| 0 <= m < k ==> entry_fault(style, ts, es, root, m) is None,
    decreases k,
{
    if k > 0 {
        lemma_no_fault_before(style, ts, es, root, k - 1);
    }
}

/// In an accepted request every replacement entry lies under the root at a
/// proper relative path, some target covers it, and no two entries name the
/// same path.
pub proof fn lemma_accepted_replacements(
    style: PathStyle,
    root: Seq<char>,
    ts: Seq<IncrementalRescanTarget>,
    es: Seq<IncrementalEntry>,
    checkpoint_root: Seq<char>,
)
    requires
        request_fault(style, root, ts, es, checkpoint_root) is None,
    ensures
        is_absolute_in(style, root),
        checkpoint_root == root,
        forall|i: int| 0 <= i < ts.len() ==> normalize_in(style, (#[trigger] ts[i]).relative_path@) is Some,
        forall|k: int|
            0 <= k < es.len() ==> (#[trigger] entry_pieces(style, es[k], root)) is Ok && any_covers(
                style,
                ts,
                render_relative_in(style, entry_pieces(style, es[k], root)->Ok_0),
            ),
        forall|j: int, k: int|
            0 <= j < k < es.len() ==> #[trigger] entry_pieces(style, es[j], root) != #[trigger] entry_pieces(
                style,
                es[k],
                root,
            ),
{
    lemma_no_fault_before(style, ts, es, root, es.len() as int);
    assert forall|k: int| 0 <= k < es.len() implies (#[trigger] entry_pieces(style, es[k], root)) is Ok
        && any_covers(style, ts, render_relative_in(style, entry_pieces(style, es[k], root)->Ok_0)) by {
        assert(entry_fault(style, ts, es, root, k) is None);
    }
    assert forall|j: int, k: int| 0 <= j < k < es.len() implies #[trigger] entry_pieces(
        style,
        es[j],
        root,
    ) != #[trigger] entry_pieces(style, es[k], root) by {
        assert(entry_fault(style, ts, es, root, k) is None);
        assert(entry_pieces(style, es[k], root) is Ok);
    }
}

} // verus!
