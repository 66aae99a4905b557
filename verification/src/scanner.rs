//! The bookkeeping of a folder scan: progress records, saturating totals, the
//! volume-boundary check, and the bounded list of the largest top-level
//! entries reported in the summary.
use crate::cache_activity::opt_text;
use crate::file_metrics::FileMetrics;
use crate::text::concat;
use vstd::prelude::*;

verus! {

/// The number of top-level entries a summary keeps.
pub const MAX_SUMMARY_ENTRIES: usize = 200;

/// One scanned or skipped path, as reported while a scan runs.
#[derive(Clone, Debug)]
pub struct ScanProgress {
    pub path: String,
    pub file_count: u64,
    pub directory_count: u64,
    pub skipped_count: u64,
    pub skip_reason: Option<&'static str>,
    pub counted_size_bytes: u64,
    pub logical_size_bytes: u64,
    pub allocated_size_bytes: Option<u64>,
    pub file_identity: Option<String>,
    pub volume_identity: Option<String>,
    pub modified_at: Option<i64>,
}

/// The totals of one top-level entry of a scanned folder.
#[derive(Clone, Debug, PartialEq, Eq)]
pub struct ScanEntry {
    pub name: String,
    pub path: String,
    pub size_bytes: u64,
    pub allocated_size_bytes: u64,
    pub file_count: u64,
    pub directory_count: u64,
    pub skipped_count: u64,
    pub hard_link_duplicate_count: u64,
    pub sparse_file_count: u64,
    pub compressed_file_count: u64,
    pub is_directory: bool,
}

/// The result of scanning a folder.
#[derive(Clone, Debug, PartialEq, Eq)]
pub struct ScanSummary {
    pub root_path: String,
    pub total_size_bytes: u64,
    pub allocated_size_bytes: u64,
    pub file_count: u64,
    pub directory_count: u64,
    pub skipped_count: u64,
    pub hard_link_duplicate_count: u64,
    pub sparse_file_count: u64,
    pub compressed_file_count: u64,
    pub elapsed_milliseconds: u128,
    pub entries: Vec<ScanEntry>,
    pub entries_truncated: bool,
}

/// Running totals of a scan, each saturating at `u64::MAX`.
#[derive(Clone, Copy, Debug, Default, PartialEq, Eq, Structural)]
pub struct Totals {
    pub size: u64,
    pub allocated: u64,
    pub files: u64,
    pub directories: u64,
    pub skipped: u64,
    pub hard_link_duplicates: u64,
    pub sparse_files: u64,
    pub compressed_files: u64,
}

/// `a + b`, or `u64::MAX` when the sum does not fit.
pub open spec fn sat_add(a: u64, b: u64) -> u64 {
    if a + b > u64::MAX {
        u64::MAX
    } else {
        (a + b) as u64
    }
}

/// The field-wise saturating sum of two totals.
pub open spec fn totals_sum(a: Totals, b: Totals) -> Totals {
    Totals {
        size: sat_add(a.size, b.size),
        allocated: sat_add(a.allocated, b.allocated),
        files: sat_add(a.files, b.files),
        directories: sat_add(a.directories, b.directories),
        skipped: sat_add(a.skipped, b.skipped),
        hard_link_duplicates: sat_add(a.hard_link_duplicates, b.hard_link_duplicates),
        sparse_files: sat_add(a.sparse_files, b.sparse_files),
        compressed_files: sat_add(a.compressed_files, b.compressed_files),
    }
}

/// A directory crosses onto another volume: the root's volume is known and the
/// directory's differs from it or is unknown.
pub open spec fn crosses_volume_spec(root: Option<Seq<char>>, current: Option<Seq<char>>) -> bool {
    match (root, current) {
        (Some(r), Some(c)) => r != c,
        (Some(_), None) => true,
        _ => false,
    }
}

/// The first index of a smallest size.
pub open spec fn first_min_index(s: Seq<ScanEntry>) -> int
    decreases s.len(),
{
    if s.len() <= 1 {
        0
    } else {
        let k = first_min_index(s.drop_last());
        if s.last().size_bytes < s[k].size_bytes {
            s.len() - 1
        } else {
            k
        }
    }
}

/// `Vec::swap_remove`: the last element moves into position `i`.
pub open spec fn swap_remove_spec<A>(s: Seq<A>, i: int) -> Seq<A> {
    s.update(i, s.last()).drop_last()
}

/// Two summaries hold the same values.
pub open spec fn same_summary(a: ScanSummary, b: ScanSummary) -> bool {
    &&& a.root_path == b.root_path
    &&& a.total_size_bytes == b.total_size_bytes
    &&& a.allocated_size_bytes == b.allocated_size_bytes
    &&& a.file_count == b.file_count
    &&& a.directory_count == b.directory_count
    &&& a.skipped_count == b.skipped_count
    &&& a.hard_link_duplicate_count == b.hard_link_duplicate_count
    &&& a.sparse_file_count == b.sparse_file_count
    &&& a.compressed_file_count == b.compressed_file_count
    &&& a.elapsed_milliseconds == b.elapsed_milliseconds
    &&& a.entries@ == b.entries@
    &&& a.entries_truncated == b.entries_truncated
}

/// A copy of an entry.
pub fn copy_entry(e: &ScanEntry) -> (r: ScanEntry)
    ensures
        r == *e,
{
    ScanEntry {
        name: e.name.clone(),
        path: e.path.clone(),
        size_bytes: e.size_bytes,
        allocated_size_bytes: e.allocated_size_bytes,
        file_count: e.file_count,
        directory_count: e.directory_count,
        skipped_count: e.skipped_count,
        hard_link_duplicate_count: e.hard_link_duplicate_count,
        sparse_file_count: e.sparse_file_count,
        compressed_file_count: e.compressed_file_count,
        is_directory: e.is_directory,
    }
}

/// A copy of a summary.
pub fn copy_summary(s: &ScanSummary) -> (r: ScanSummary)
    ensures
        same_summary(r, *s),
{
    let mut entries: Vec<ScanEntry> = Vec::new();
    let mut i: usize = 0;
    while i < s.entries.len()
        invariant
            i <= s.entries.len(),
            entries@ == s.entries@.take(i as int),
        decreases s.entries.len() - i,
    {
        entries.push(copy_entry(&s.entries[i]));
        assert(s.entries@.take(i + 1) == s.entries@.take(i as int).push(s.entries@[i as int]));
        i = i + 1;
    }
    assert(s.entries@.take(s.entries.len() as int) == s.entries@);
    ScanSummary {
        root_path: s.root_path.clone(),
        total_size_bytes: s.total_size_bytes,
        allocated_size_bytes: s.allocated_size_bytes,
        file_count: s.file_count,
        directory_count: s.directory_count,
        skipped_count: s.skipped_count,
        hard_link_duplicate_count: s.hard_link_duplicate_count,
        sparse_file_count: s.sparse_file_count,
        compressed_file_count: s.compressed_file_count,
        elapsed_milliseconds: s.elapsed_milliseconds,
        entries,
        entries_truncated: s.entries_truncated,
    }
}

/// `a + b`, saturating at `u64::MAX`.
pub fn sat_add_u64(a: u64, b: u64) -> (r: u64)
    ensures
        r == sat_add(a, b),
{
    a.saturating_add(b)
}

impl Totals {
    /// Adds another entry's totals into these.
    pub fn accumulate(&mut self, other: &Totals)
        ensures
            *final(self) == totals_sum(*old(self), *other),
    {
        self.size = sat_add_u64(self.size, other.size);
        self.allocated = sat_add_u64(self.allocated, other.allocated);
        self.files = sat_add_u64(self.files, other.files);
        self.directories = sat_add_u64(self.directories, other.directories);
        self.skipped = sat_add_u64(self.skipped, other.skipped);
        self.hard_link_duplicates = sat_add_u64(self.hard_link_duplicates, other.hard_link_duplicates);
        self.sparse_files = sat_add_u64(self.sparse_files, other.sparse_files);
        self.compressed_files = sat_add_u64(self.compressed_files, other.compressed_files);
    }
}

/// Whether a directory lies on another volume than the scan root: a known root
/// volume that differs from the directory's, or whose directory volume is unknown.
pub fn crosses_volume(root: Option<&str>, current: Option<&str>) -> (r: bool)
    ensures
        r == crosses_volume_spec(
            match root {
                Some(s) => Some(s@),
                None => None,
            },
            match current {
                Some(s) => Some(s@),
                None => None,
            },
        ),
{
    match (root, current) {
        (Some(root), Some(current)) => !crate::text::str_eq(root, current),
        (Some(_), None) => true,
        _ => false,
    }
}

/// Counts one skipped path in `totals` and returns the progress record that
/// reports it with its reason.
pub fn skipped(totals: &mut Totals, path: String, reason: &'static str) -> (p: ScanProgress)
    ensures
        *final(totals) == (Totals { skipped: sat_add(old(totals).skipped, 1), ..*old(totals) }),
        p.path == path,
        p.file_count == 0 && p.directory_count == 0 && p.skipped_count == 1,
        p.skip_reason == Some(reason),
        p.counted_size_bytes == 0 && p.logical_size_bytes == 0,
        p.allocated_size_bytes is None && p.file_identity is None && p.volume_identity is None
            && p.modified_at is None,
{
    totals.skipped = sat_add_u64(totals.skipped, 1);
    ScanProgress {
        path,
        file_count: 0,
        directory_count: 0,
        skipped_count: 1,
        skip_reason: Some(reason),
        counted_size_bytes: 0,
        logical_size_bytes: 0,
        allocated_size_bytes: None,
        file_identity: None,
        volume_identity: None,
        modified_at: None,
    }
}

proof fn lemma_first_min_index(s: Seq<ScanEntry>)
    requires
        s.len() >= 1,
    ensures
        0 <= first_min_index(s) < s.len(),
        forall|j: int| 0 <= j < s.len() ==> s[first_min_index(s)].size_bytes <= (#[trigger] s[j]).size_bytes,
        forall|j: int| 0 <= j < first_min_index(s) ==> s[first_min_index(s)].size_bytes < (#[trigger] s[j]).size_bytes,
    decreases s.len(),
{
    if s.len() > 1 {
        lemma_first_min_index(s.drop_last());
        let k = first_min_index(s.drop_last());
        assert forall|j: int| 0 <= j < s.len() - 1 implies s[j] == s.drop_last()[j] by {}
    }
}

fn min_size_index(entries: &Vec<ScanEntry>) -> (i: usize)
    requires
        entries.len() >= 1,
    ensures
        i as int == first_min_index(entries@),
{
    let mut best: usize = 0;
    let mut k: usize = 1;
    while k < entries.len()
        invariant
            1 <= k <= entries.len(),
            best as int == first_min_index(entries@.take(k as int)),
        decreases entries.len() - k,
    {
        let ghost t = entries@.take(k + 1);
        assert(t.drop_last() == entries@.take(k as int));
        proof {
            lemma_first_min_index(entries@.take(k as int));
        }
        assert(t[best as int] == entries@[best as int]);
        if entries[k].size_bytes < entries[best].size_bytes {
            best = k;
        }
        k = k + 1;
    }
    assert(entries@.take(entries.len() as int) == entries@);
    best
}

/// Adds a top-level entry to the summary list and, when the list then holds
/// more than `MAX_SUMMARY_ENTRIES`, drops the first entry of smallest size by
/// moving the last entry into its place. Returns whether an entry was dropped.
pub fn retain_largest(entries: &mut Vec<ScanEntry>, entry: ScanEntry) -> (truncated: bool)
    ensures
        ({
            let grown = old(entries)@.push(entry);
            if grown.len() <= MAX_SUMMARY_ENTRIES {
                !truncated && final(entries)@ == grown
            } else {
                truncated && final(entries)@ == swap_remove_spec(grown, first_min_index(grown))
            }
        }),
{
    entries.push(entry);
    if entries.len() <= MAX_SUMMARY_ENTRIES {
        return false;
    }
    let smallest = min_size_index(entries);
    let ghost grown = entries@;
    proof {
        lemma_first_min_index(grown);
    }
    entries.swap_remove(smallest);
    assert(entries@ =~= swap_remove_spec(grown, smallest as int));
    true
}

/// Dropping an entry keeps the list at the bound and drops an entry no larger
/// than any that remains.
pub proof fn lemma_retain_largest_bounded(old_entries: Seq<ScanEntry>, entry: ScanEntry)
    requires
        old_entries.len() <= MAX_SUMMARY_ENTRIES,
    ensures
        ({
            let grown = old_entries.push(entry);
            grown.len() > MAX_SUMMARY_ENTRIES ==> {
                let kept = swap_remove_spec(grown, first_min_index(grown));
                &&& kept.len() == MAX_SUMMARY_ENTRIES
                &&& forall|j: int|
                    0 <= j < kept.len() ==> grown[first_min_index(grown)].size_bytes
                        <= (#[trigger] kept[j]).size_bytes
            }
        }),
{
    let grown = old_entries.push(entry);
    if grown.len() > MAX_SUMMARY_ENTRIES {
        lemma_first_min_index(grown);
        let k = first_min_index(grown);
        let kept = swap_remove_spec(grown, k);
        assert forall|j: int| 0 <= j < kept.len() implies grown[k].size_bytes
            <= (#[trigger] kept[j]).size_bytes by {
            if j == k {
                assert(kept[j] == grown.last());
                assert(grown.last() == grown[grown.len() - 1]);
            } else {
                assert(kept[j] == grown[j]);
            }
        }
    }
}

/// Sizes never increase along the list.
pub open spec fn sorted_by_size_desc(s: Seq<ScanEntry>) -> bool {
    forall|a: int, b: int| 0 <= a < b < s.len() ==> (#[trigger] s[a]).size_bytes >= (#[trigger] s[b]).size_bytes
}

/// `s` with `x` inserted after every entry at least as large as `x`.
pub open spec fn insert_desc(s: Seq<ScanEntry>, x: ScanEntry) -> Seq<ScanEntry>
    decreases s.len(),
{
    if s.len() == 0 {
        seq![x]
    } else if s.last().size_bytes >= x.size_bytes {
        s.push(x)
    } else {
        insert_desc(s.drop_last(), x).push(s.last())
    }
}

/// The stable sort of `s` by decreasing size: entries of equal size keep their order.
pub open spec fn stable_sort_desc(s: Seq<ScanEntry>) -> Seq<ScanEntry>
    decreases s.len(),
{
    if s.len() == 0 {
        Seq::empty()
    } else {
        insert_desc(stable_sort_desc(s.drop_last()), s.last())
    }
}

proof fn lemma_insert_desc(s: Seq<ScanEntry>, x: ScanEntry, pos: int)
    requires
        sorted_by_size_desc(s),
        0 <= pos <= s.len(),
        forall|j: int| 0 <= j < pos ==> (#[trigger] s[j]).size_bytes >= x.size_bytes,
        forall|j: int| pos <= j < s.len() ==> (#[trigger] s[j]).size_bytes < x.size_bytes,
    ensures
        insert_desc(s, x) == s.insert(pos, x),
        sorted_by_size_desc(s.insert(pos, x)),
    decreases s.len(),
{
    if s.len() == 0 {
        assert(s.insert(pos, x) =~= seq![x]);
    } else if s.last().size_bytes >= x.size_bytes {
        assert(pos == s.len()) by {
            if pos < s.len() {
                assert(s[s.len() - 1].size_bytes < x.size_bytes);
            }
        }
        assert(s.insert(pos, x) =~= s.push(x));
    } else {
        let t = s.drop_last();
        assert(pos < s.len()) by {
            if pos == s.len() {
                assert(s[s.len() - 1].size_bytes >= x.size_bytes);
            }
        }
        assert forall|a: int, b: int| 0 <= a < b < t.len() implies (#[trigger] t[a]).size_bytes
            >= (#[trigger] t[b]).size_bytes by {
            assert(s[a].size_bytes >= s[b].size_bytes);
        }
        assert forall|j: int| 0 <= j < pos implies (#[trigger] t[j]).size_bytes >= x.size_bytes by {
            assert(t[j] == s[j]);
        }
        assert forall|j: int| pos <= j < t.len() implies (#[trigger] t[j]).size_bytes
            < x.size_bytes by {
            assert(t[j] == s[j]);
        }
        lemma_insert_desc(t, x, pos);
        assert(t.insert(pos, x).push(s.last()) =~= s.insert(pos, x));
    }
    let r = s.insert(pos, x);
    assert forall|a: int, b: int| 0 <= a < b < r.len() implies (#[trigger] r[a]).size_bytes
        >= (#[trigger] r[b]).size_bytes by {
        if b < pos {
            assert(s[a].size_bytes >= s[b].size_bytes);
        } else if b == pos {
            assert(r[a] == s[a]);
        } else if a == pos {
            assert(r[b] == s[b - 1]);
        } else if a < pos {
            assert(s[a].size_bytes >= s[b - 1].size_bytes);
        } else {
            assert(s[a - 1].size_bytes >= s[b - 1].size_bytes);
        }
    }
}

/// Sorts the entries by decreasing size, keeping the order of equal sizes.
pub fn sort_by_size_desc(entries: Vec<ScanEntry>) -> (r: Vec<ScanEntry>)
    ensures
        r@ == stable_sort_desc(entries@),
        sorted_by_size_desc(r@),
{
    let mut rest = entries;
    let n = rest.len();
    let ghost input = rest@;
    let mut sorted: Vec<ScanEntry> = Vec::new();
    let mut taken: usize = 0;
    let mut items: Vec<ScanEntry> = Vec::new();
    // Move the entries out in order so that each can be inserted by value.
    while rest.len() > 0
        invariant
            rest@ + items@.reverse() == input,
        decreases rest.len(),
    {
        let e = rest.pop().unwrap();
        let ghost before_items = items@;
        items.push(e);
        assert(items@.reverse() =~= seq![e] + before_items.reverse());
    }
    assert(items@.reverse() == input);
    let ghost order = items@.reverse();
    proof {
        assert(sorted@ =~= stable_sort_desc(order.take(0)));
    }
    while items.len() > 0
        invariant
            order == input,
            input.len() == n,
            taken + items@.len() == input.len(),
            items@.reverse() == input.skip(taken as int),
            sorted@ == stable_sort_desc(input.take(taken as int)),
            sorted_by_size_desc(sorted@),
        decreases items.len(),
    {
        let ghost before_items = items@;
        let x = items.pop().unwrap();
        assert(before_items.reverse()[0] == x);
        assert(input.skip(taken as int)[0] == input[taken as int]);
        assert(items@.reverse() =~= before_items.reverse().drop_first());
        assert(input.skip(taken as int).drop_first() == input.skip(taken + 1));
        let mut pos: usize = 0;
        while pos < sorted.len() && sorted[pos].size_bytes >= x.size_bytes
            invariant
                pos <= sorted.len(),
                forall|j: int| 0 <= j < pos ==> (#[trigger] sorted@[j]).size_bytes >= x.size_bytes,
            decreases sorted.len() - pos,
        {
            pos = pos + 1;
        }
        proof {
            assert forall|j: int| pos <= j < sorted@.len() implies (#[trigger] sorted@[j]).size_bytes
                < x.size_bytes by {
                if pos < sorted@.len() {
                    assert(sorted@[pos as int].size_bytes < x.size_bytes);
                    if j > pos {
                        assert(sorted@[pos as int].size_bytes >= sorted@[j].size_bytes);
                    }
                }
            }
            lemma_insert_desc(sorted@, x, pos as int);
            let t = input.take(taken + 1);
            assert(t.drop_last() == input.take(taken as int));
            assert(t.last() == x);
        }
        sorted.insert(pos, x);
        taken = taken + 1;
    }
    assert(input.take(taken as int) == input);
    sorted
}

/// The key under which a file's hard links are told apart: `volume:file`
/// when both identities are known, otherwise none.
pub open spec fn link_key_spec(volume: Option<Seq<char>>, file: Option<Seq<char>>) -> Option<Seq<char>> {
    match (volume, file) {
        (Some(v), Some(f)) => Some(v + ":"@ + f),
        _ => None,
    }
}

/// The hard-link key of a file's metrics.
pub fn link_key(metrics: &FileMetrics) -> (r: Option<String>)
    ensures
        opt_text(r) == link_key_spec(opt_text(metrics.volume_identity), opt_text(metrics.file_identity)),
{
    match (&metrics.volume_identity, &metrics.file_identity) {
        (Some(volume), Some(file)) => {
            let head = concat(volume.as_str(), ":");
            Some(concat(head.as_str(), file.as_str()))
        },
        _ => None,
    }
}

/// The totals after counting one file: a duplicate hard link adds only to the
/// file and duplicate counts; another file adds its size, its allocation when
/// known, and its sparse and compressed flags.
pub open spec fn with_file(t: Totals, m: FileMetrics, duplicate: bool) -> Totals {
    if duplicate {
        Totals {
            files: sat_add(t.files, 1),
            hard_link_duplicates: sat_add(t.hard_link_duplicates, 1),
            ..t
        }
    } else {
        Totals {
            files: sat_add(t.files, 1),
            size: sat_add(t.size, m.logical_size),
            allocated: match m.allocated_size {
                Some(a) => sat_add(t.allocated, a),
                None => t.allocated,
            },
            sparse_files: sat_add(t.sparse_files, if m.is_sparse { 1 } else { 0 }),
            compressed_files: sat_add(t.compressed_files, if m.is_compressed { 1 } else { 0 }),
            ..t
        }
    }
}

/// Counts one file in `totals` and returns the progress record that reports
/// it; a duplicate hard link reports no counted size.
pub fn account_file(totals: &mut Totals, path: String, metrics: FileMetrics, duplicate: bool) -> (p:
    ScanProgress)
    ensures
        *final(totals) == with_file(*old(totals), metrics, duplicate),
        p.path == path,
        p.file_count == 1 && p.directory_count == 0 && p.skipped_count == 0,
        p.skip_reason is None,
        p.counted_size_bytes == if duplicate {
            0
        } else {
            metrics.logical_size
        },
        p.logical_size_bytes == metrics.logical_size,
        p.allocated_size_bytes == metrics.allocated_size,
        p.file_identity == metrics.file_identity,
        p.volume_identity == metrics.volume_identity,
        p.modified_at == metrics.modified_at,
{
    totals.files = sat_add_u64(totals.files, 1);
    if duplicate {
        totals.hard_link_duplicates = sat_add_u64(totals.hard_link_duplicates, 1);
    } else {
        totals.size = sat_add_u64(totals.size, metrics.logical_size);
        if let Some(a) = metrics.allocated_size {
            totals.allocated = sat_add_u64(totals.allocated, a);
        }
        totals.sparse_files = sat_add_u64(totals.sparse_files, if metrics.is_sparse { 1 } else { 0 });
        totals.compressed_files = sat_add_u64(
            totals.compressed_files,
            if metrics.is_compressed { 1 } else { 0 },
        );
    }
    ScanProgress {
        path,
        file_count: 1,
        directory_count: 0,
        skipped_count: 0,
        skip_reason: None,
        counted_size_bytes: if duplicate {
            0
        } else {
            metrics.logical_size
        },
        logical_size_bytes: metrics.logical_size,
        allocated_size_bytes: metrics.allocated_size,
        file_identity: metrics.file_identity,
        volume_identity: metrics.volume_identity,
        modified_at: metrics.modified_at,
    }
}

/// Counts one entered directory in `totals` and returns the progress record
/// that reports it with its volume identity.
pub fn account_directory(totals: &mut Totals, path: String, volume_identity: Option<String>) -> (p:
    ScanProgress)
    ensures
        *final(totals) == (Totals {
            directories: sat_add(old(totals).directories, 1),
            ..*old(totals)
        }),
        p.path == path,
        p.file_count == 0 && p.directory_count == 1 && p.skipped_count == 0,
        p.skip_reason is None,
        p.counted_size_bytes == 0 && p.logical_size_bytes == 0,
        p.allocated_size_bytes is None && p.file_identity is None && p.modified_at is None,
        p.volume_identity == volume_identity,
{
    totals.directories = sat_add_u64(totals.directories, 1);
    ScanProgress {
        path,
        file_count: 0,
        directory_count: 1,
        skipped_count: 0,
        skip_reason: None,
        counted_size_bytes: 0,
        logical_size_bytes: 0,
        allocated_size_bytes: None,
        file_identity: None,
        volume_identity,
        modified_at: None,
    }
}

/// The reason a directory on another volume is skipped: `different_volume`
/// when its volume is known, `volume_identity_unavailable` when it is not.
pub fn volume_skip_reason(volume_identity: &Option<String>) -> (r: &'static str)
    ensures
        r@ == if volume_identity is Some {
            "different_volume"@
        } else {
            "volume_identity_unavailable"@
        },
{
    if volume_identity.is_some() {
        "different_volume"
    } else {
        "volume_identity_unavailable"
    }
}

/// The kind of a directory entry, as its file type reports it.
#[derive(Clone, Copy, Debug, PartialEq, Eq, Structural)]
pub enum EntryKind {
    Symlink,
    File,
    Directory,
    Other,
}

/// What the walk has just learned about the entry it is looking at.
#[derive(Clone, Debug, PartialEq, Eq)]
pub enum EntryEvent {
    /// Whether the scan may go on, asked before each entry.
    Control(bool),
    /// The parent's listing gave an error in place of an entry.
    ListingFailed,
    /// The entry's file type could not be read.
    TypeUnavailable,
    /// The entry's file type.
    TypeRead(EntryKind),
    /// The file could not be opened, or its metrics could not be read.
    FileUnavailable,
    /// The file was opened and measured.
    FileMeasured,
    /// The directory could not be opened (it was replaced or is unreadable).
    DirectoryOpenFailed,
    /// The directory was opened; the identity of its volume, when known.
    DirectoryOpened(Option<String>),
    /// The directory's entries could not be read.
    DirectoryListFailed,
    /// The directory's entries were read.
    DirectoryListed,
}

/// What the walk does next with the entry.
#[derive(Clone, Copy, Debug, PartialEq, Eq)]
pub enum EntryAction {
    /// Stop the scan: it was cancelled.
    Cancel,
    /// Read the entry's file type.
    ReadType,
    /// Report the entry as skipped for this reason; it is done.
    Skip(&'static str),
    /// Open the file and read its metrics.
    OpenFile,
    /// Open the directory and read its volume identity.
    OpenDirectory,
    /// Read the directory's entries.
    ListDirectory,
    /// Count the file (after the hard-link check); it is done.
    CountFile,
    /// Count the directory and walk its entries.
    EnterDirectory,
}

/// The abstract form of an action.
pub enum EntryStep {
    Cancel,
    ReadType,
    Skip(Seq<char>),
    OpenFile,
    OpenDirectory,
    ListDirectory,
    CountFile,
    EnterDirectory,
}

impl View for EntryAction {
    type V = EntryStep;

    open spec fn view(&self) -> EntryStep {
        match self {
            EntryAction::Cancel => EntryStep::Cancel,
            EntryAction::ReadType => EntryStep::ReadType,
            EntryAction::Skip(r) => EntryStep::Skip(r@),
            EntryAction::OpenFile => EntryStep::OpenFile,
            EntryAction::OpenDirectory => EntryStep::OpenDirectory,
            EntryAction::ListDirectory => EntryStep::ListDirectory,
            EntryAction::CountFile => EntryStep::CountFile,
            EntryAction::EnterDirectory => EntryStep::EnterDirectory,
        }
    }
}

/// The next step of the walk of one entry: a cancelled scan stops; an entry
/// the listing could not give, one whose type is unknown, a link (never
/// followed), an entry that is neither file nor directory, a file that cannot
/// be opened or measured, a directory that cannot be opened or listed, and a
/// directory on another volume than the root are skipped with their reasons;
/// a file is opened and then counted; a directory is opened, checked against
/// the root's volume, listed and then entered.
pub open spec fn entry_step_spec(event: EntryEvent, root_volume: Option<Seq<char>>) -> EntryStep {
    match event {
        EntryEvent::Control(go_on) => if go_on {
            EntryStep::ReadType
        } else {
            EntryStep::Cancel
        },
        EntryEvent::ListingFailed => EntryStep::Skip("directory_entry_unreadable"@),
        EntryEvent::TypeUnavailable => EntryStep::Skip("metadata_unavailable"@),
        EntryEvent::TypeRead(kind) => match kind {
            EntryKind::Symlink => EntryStep::Skip("link_not_followed"@),
            EntryKind::File => EntryStep::OpenFile,
            EntryKind::Directory => EntryStep::OpenDirectory,
            EntryKind::Other => EntryStep::Skip("unsupported_entry_type"@),
        },
        EntryEvent::FileUnavailable => EntryStep::Skip("file_snapshot_unavailable"@),
        EntryEvent::FileMeasured => EntryStep::CountFile,
        EntryEvent::DirectoryOpenFailed => EntryStep::Skip("directory_replaced_or_unreadable"@),
        EntryEvent::DirectoryOpened(volume) => {
            let v = match volume {
                Some(s) => Some(s@),
                None => None,
            };
            if crosses_volume_spec(root_volume, v) {
                EntryStep::Skip(
                    if v is Some {
                        "different_volume"@
                    } else {
                        "volume_identity_unavailable"@
                    },
                )
            } else {
                EntryStep::ListDirectory
            }
        },
        EntryEvent::DirectoryListFailed => EntryStep::Skip("directory_unreadable"@),
        EntryEvent::DirectoryListed => EntryStep::EnterDirectory,
    }
}

/// The next step of the walk of one entry, as `entry_step_spec` describes,
/// for a scan whose root lies on the volume `root_volume` (when known).
pub fn entry_step(event: &EntryEvent, root_volume: Option<&str>) -> (a: EntryAction)
    ensures
        a@ == entry_step_spec(
            *event,
            match root_volume {
                Some(s) => Some(s@),
                None => None,
            },
        ),
{
    match event {
        EntryEvent::Control(go_on) => if *go_on {
            EntryAction::ReadType
        } else {
            EntryAction::Cancel
        },
        EntryEvent::ListingFailed => EntryAction::Skip("directory_entry_unreadable"),
        EntryEvent::TypeUnavailable => EntryAction::Skip("metadata_unavailable"),
        EntryEvent::TypeRead(kind) => match kind {
            EntryKind::Symlink => EntryAction::Skip("link_not_followed"),
            EntryKind::File => EntryAction::OpenFile,
            EntryKind::Directory => EntryAction::OpenDirectory,
            EntryKind::Other => EntryAction::Skip("unsupported_entry_type"),
        },
        EntryEvent::FileUnavailable => EntryAction::Skip("file_snapshot_unavailable"),
        EntryEvent::FileMeasured => EntryAction::CountFile,
        EntryEvent::DirectoryOpenFailed => EntryAction::Skip("directory_replaced_or_unreadable"),
        EntryEvent::DirectoryOpened(volume) => {
            let current = match volume {
                Some(s) => Some(s.as_str()),
                None => None,
            };
            if crosses_volume(root_volume, current) {
                EntryAction::Skip(volume_skip_reason(volume))
            } else {
                EntryAction::ListDirectory
            }
        },
        EntryEvent::DirectoryListFailed => EntryAction::Skip("directory_unreadable"),
        EntryEvent::DirectoryListed => EntryAction::EnterDirectory,
    }
}

/// The summary entry of a top-level item from its totals.
pub fn summary_entry(name: String, path: String, item: &Totals, is_directory: bool) -> (e: ScanEntry)
    ensures
        e.name == name && e.path == path,
        e.size_bytes == item.size && e.allocated_size_bytes == item.allocated,
        e.file_count == item.files && e.directory_count == item.directories,
        e.skipped_count == item.skipped,
        e.hard_link_duplicate_count == item.hard_link_duplicates,
        e.sparse_file_count == item.sparse_files,
        e.compressed_file_count == item.compressed_files,
        e.is_directory == is_directory,
{
    ScanEntry {
        name,
        path,
        size_bytes: item.size,
        allocated_size_bytes: item.allocated,
        file_count: item.files,
        directory_count: item.directories,
        skipped_count: item.skipped,
        hard_link_duplicate_count: item.hard_link_duplicates,
        sparse_file_count: item.sparse_files,
        compressed_file_count: item.compressed_files,
        is_directory,
    }
}

/// The summary of a finished scan: the totals, and the kept entries sorted
/// by decreasing size (equal sizes keep their order).
pub fn finish_summary(
    root_path: String,
    totals: &Totals,
    entries: Vec<ScanEntry>,
    entries_truncated: bool,
    elapsed_milliseconds: u128,
) -> (s: ScanSummary)
    ensures
        s.root_path == root_path,
        s.total_size_bytes == totals.size && s.allocated_size_bytes == totals.allocated,
        s.file_count == totals.files && s.directory_count == totals.directories,
        s.skipped_count == totals.skipped,
        s.hard_link_duplicate_count == totals.hard_link_duplicates,
        s.sparse_file_count == totals.sparse_files,
        s.compressed_file_count == totals.compressed_files,
        s.elapsed_milliseconds == elapsed_milliseconds,
        s.entries@ == stable_sort_desc(entries@),
        s.entries_truncated == entries_truncated,
{
    let sorted = sort_by_size_desc(entries);
    ScanSummary {
        root_path,
        total_size_bytes: totals.size,
        allocated_size_bytes: totals.allocated,
        file_count: totals.files,
        directory_count: totals.directories,
        skipped_count: totals.skipped,
        hard_link_duplicate_count: totals.hard_link_duplicates,
        sparse_file_count: totals.sparse_files,
        compressed_file_count: totals.compressed_files,
        elapsed_milliseconds,
        entries: sorted,
        entries_truncated,
    }
}

/// The totals after counting files in order, each with whether it is a
/// duplicate hard link.
pub open spec fn with_files(t: Totals, fs: Seq<(FileMetrics, bool)>) -> Totals
    decreases fs.len(),
{
    if fs.len() == 0 {
        t
    } else {
        with_file(with_files(t, fs.drop_last()), fs.last().0, fs.last().1)
    }
}

/// The sum of the sizes the progress records of these files count: a
/// duplicate hard link counts nothing.
pub open spec fn counted_sum(fs: Seq<(FileMetrics, bool)>) -> int
    decreases fs.len(),
{
    if fs.len() == 0 {
        0
    } else {
        counted_sum(fs.drop_last()) + if fs.last().1 {
            0
        } else {
            fs.last().0.logical_size as int
        }
    }
}

/// The counted sizes reported for the files of a scan add up to the size the
/// totals gain, and every file adds one to the file count, as long as no total
/// reaches `u64::MAX`.
pub proof fn lemma_counted_sizes_match_total(t: Totals, fs: Seq<(FileMetrics, bool)>)
    requires
        t.size + counted_sum(fs) <= u64::MAX,
        t.files + fs.len() <= u64::MAX,
    ensures
        with_files(t, fs).size == t.size + counted_sum(fs),
        with_files(t, fs).files == t.files + fs.len(),
    decreases fs.len(),
{
    if fs.len() > 0 {
        let rest = fs.drop_last();
        assert(counted_sum(rest) <= counted_sum(fs));
        lemma_counted_sizes_match_total(t, rest);
    }
}

/// The number of files in `fs` that are not duplicate hard links and whose
/// metrics have the given flag.
pub open spec fn flagged_count(fs: Seq<(FileMetrics, bool)>, flag: spec_fn(FileMetrics) -> bool) -> int
    decreases fs.len(),
{
    if fs.len() == 0 {
        0
    } else {
        flagged_count(fs.drop_last(), flag) + if !fs.last().1 && flag(fs.last().0) {
            1int
        } else {
            0int
        }
    }
}

/// `x`, or `u64::MAX` when `x` does not fit.
pub open spec fn capped_total(x: int) -> int {
    if x > u64::MAX {
        u64::MAX as int
    } else {
        x
    }
}

/// Counting one file adds one to the file total; a duplicate hard link adds one
/// to the duplicates and nothing else; any other file adds one to the sparse
/// total exactly when it is sparse and one to the compressed total exactly when
/// it is compressed, each flag on its own (every sum stopping at `u64::MAX`).
pub proof fn lemma_file_flags_counted(t: Totals, m: FileMetrics, duplicate: bool)
    ensures
        with_file(t, m, duplicate).files == capped_total(t.files + 1),
        with_file(t, m, duplicate).compressed_files == if !duplicate && m.is_compressed {
            capped_total(t.compressed_files + 1)
        } else {
            t.compressed_files as int
        },
        with_file(t, m, duplicate).sparse_files == if !duplicate && m.is_sparse {
            capped_total(t.sparse_files + 1)
        } else {
            t.sparse_files as int
        },
        with_file(t, m, duplicate).hard_link_duplicates == if duplicate {
            capped_total(t.hard_link_duplicates + 1)
        } else {
            t.hard_link_duplicates as int
        },
        with_file(t, m, duplicate).size == if duplicate {
            t.size as int
        } else {
            capped_total(t.size + m.logical_size)
        },
        with_file(t, m, duplicate).directories == t.directories,
        with_file(t, m, duplicate).skipped == t.skipped,
{
}

/// Counting the files `fs` adds to the compressed total the number of them that
/// are compressed and not duplicate hard links, and to the sparse total the
/// number of such sparse files (each sum stopping at `u64::MAX`); from zero
/// totals these are the scan's totals.
pub proof fn lemma_flag_totals(t: Totals, fs: Seq<(FileMetrics, bool)>)
    ensures
        with_files(t, fs).compressed_files == capped_total(
            t.compressed_files + flagged_count(fs, |m: FileMetrics| m.is_compressed),
        ),
        with_files(t, fs).sparse_files == capped_total(
            t.sparse_files + flagged_count(fs, |m: FileMetrics| m.is_sparse),
        ),
    decreases fs.len(),
{
    if fs.len() > 0 {
        lemma_flag_totals(t, fs.drop_last());
        lemma_flagged_count_nonneg(fs.drop_last(), |m: FileMetrics| m.is_compressed);
        lemma_flagged_count_nonneg(fs.drop_last(), |m: FileMetrics| m.is_sparse);
        lemma_file_flags_counted(with_files(t, fs.drop_last()), fs.last().0, fs.last().1);
    }
}

proof fn lemma_flagged_count_nonneg(fs: Seq<(FileMetrics, bool)>, flag: spec_fn(FileMetrics) -> bool)
    ensures
        flagged_count(fs, flag) >= 0,
    decreases fs.len(),
{
    if fs.len() > 0 {
        lemma_flagged_count_nonneg(fs.drop_last(), flag);
    }
}

} // verus!
