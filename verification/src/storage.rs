//! The scan index kept in SQLite, on the library side: the rows a scan writes,
//! the bounded write buffer of a streaming scan, conversions between counts and
//! stored integers, and the schema migration a database version calls for.
use crate::paths::{
    file_name_in, parent_in, path_file_name_in, path_parent_in, path_strip_prefix_in, strip_prefix_in,
    PathStyle,
};
use crate::scanner::{ScanProgress, ScanSummary};
use crate::text::{concat, i64_to_decimal, owned, signed_decimal, str_eq};
use std::path::PathBuf;
use vstd::prelude::*;

verus! {

/// The number of entries written to the database together.
pub const WRITE_BATCH_SIZE: usize = 500;

/// How long interrupted and failed sessions are kept, in seconds (seven days).
pub const INCOMPLETE_RETENTION_SECONDS: i64 = 604_800;

/// The scan index database.
#[derive(Clone)]
pub struct ScanRepository {
    database_path: PathBuf,
}

/// A completed scan as listed from the index.
#[derive(Clone, Debug, PartialEq, Eq)]
pub struct SavedScan {
    pub id: i64,
    pub root_path: String,
    pub total_size_bytes: u64,
    pub file_count: u64,
    pub directory_count: u64,
    pub skipped_count: u64,
    pub completed_at: i64,
}

/// One row of `scan_entries` before its counts are converted for storage.
#[derive(Clone, Debug)]
pub struct IndexedEntry {
    pub name: String,
    pub path: String,
    pub parent_path: Option<String>,
    pub relative_path: String,
    pub entry_type: &'static str,
    pub counted_size: u64,
    pub logical_size: u64,
    pub allocated_size: Option<u64>,
    pub file_count: u64,
    pub directory_count: u64,
    pub skipped_count: u64,
    pub skip_reason: Option<&'static str>,
    pub is_directory: bool,
    pub file_identity: Option<String>,
    pub volume_identity: Option<String>,
    pub modified_at: Option<i64>,
}

/// The stored integers of an entry's counts.
#[derive(Clone, Copy, Debug, PartialEq, Eq, Structural)]
pub struct StoredCounts {
    pub size_bytes: i64,
    pub logical_size: i64,
    pub allocated_size: Option<i64>,
    pub file_count: i64,
    pub directory_count: i64,
    pub skipped_count: i64,
    pub is_directory: i64,
}

/// The stored integers of a completed session's totals.
#[derive(Clone, Copy, Debug, PartialEq, Eq, Structural)]
pub struct StoredTotals {
    pub total_size_bytes: i64,
    pub file_count: i64,
    pub directory_count: i64,
    pub skipped_count: i64,
    pub elapsed_milliseconds: i64,
}

/// What opening the index at a schema version requires.
#[derive(Clone, Copy, Debug, PartialEq, Eq)]
pub enum SchemaStep {
    /// A new database: create the current schema.
    CreateCurrent,
    /// Back up the database under the extension, then migrate from the version.
    BackupAndMigrate { backup_extension: &'static str, from_version: u8 },
    /// Already at the current schema.
    Current,
}

/// The streaming writer of one scan session: a buffer of entries not yet
/// written, and the first write error, after which nothing more is written.
pub struct StreamingScanWriter {
    scan_id: i64,
    root_path: String,
    style: PathStyle,
    pending: Vec<IndexedEntry>,
    error: Option<String>,
}

/// The message that a count does not fit the stored integer type.
pub open spec fn too_large_message(label: Seq<char>) -> Seq<char> {
    label + "が保存可能な範囲を超えています"@
}

/// The message that a stored count is negative.
pub open spec fn negative_message(label: Seq<char>) -> Seq<char> {
    label + "に不正な負数が保存されています"@
}

/// A count as a stored integer, or the message that it is too large.
pub open spec fn to_i64_spec(value: u64, label: Seq<char>) -> Result<i64, Seq<char>> {
    if value <= i64::MAX {
        Ok(value as i64)
    } else {
        Err(too_large_message(label))
    }
}

/// A stored integer as a count, or the message that it is negative.
pub open spec fn to_u64_spec(value: i64, label: Seq<char>) -> Result<u64, Seq<char>> {
    if value >= 0 {
        Ok(value as u64)
    } else {
        Err(negative_message(label))
    }
}

/// The kind of a stored entry.
pub open spec fn entry_type_spec(p: ScanProgress) -> Seq<char> {
    if p.directory_count > 0 {
        "directory"@
    } else if p.file_count > 0 {
        "file"@
    } else {
        "other"@
    }
}

/// The entry stored for a progress record under a scan root, with the path
/// rules of the given platform.
pub open spec fn indexed_entry_matches(
    e: IndexedEntry,
    p: ScanProgress,
    root: Seq<char>,
    style: PathStyle,
) -> bool {
    &&& e.name@ == match file_name_in(style, p.path@) {
        Some(n) => n,
        None => Seq::empty(),
    }
    &&& e.path@ == p.path@
    &&& match (e.parent_path, parent_in(style, p.path@)) {
        (Some(a), Some(b)) => a@ == b,
        (None, None) => true,
        _ => false,
    }
    &&& e.relative_path@ == match strip_prefix_in(style, p.path@, root) {
        Some(r) => r,
        None => p.path@,
    }
    &&& e.entry_type@ == entry_type_spec(p)
    &&& e.counted_size == p.counted_size_bytes
    &&& e.logical_size == p.logical_size_bytes
    &&& e.allocated_size == p.allocated_size_bytes
    &&& e.file_count == p.file_count
    &&& e.directory_count == p.directory_count
    &&& e.skipped_count == p.skipped_count
    &&& e.skip_reason == p.skip_reason
    &&& e.is_directory == (p.directory_count > 0)
    &&& e.file_identity == p.file_identity
    &&& e.volume_identity == p.volume_identity
    &&& e.modified_at == p.modified_at
}

/// A progress record that describes no file, directory or skipped item.
pub open spec fn progress_is_empty(p: ScanProgress) -> bool {
    p.file_count == 0 && p.directory_count == 0 && p.skipped_count == 0
}

/// The schema step for a database version, or the message for an unsupported one.
pub open spec fn schema_step_spec(version: i64) -> Result<SchemaStep, Seq<char>> {
    if version == 0 {
        Ok(SchemaStep::CreateCurrent)
    } else if version == 1 {
        Ok(SchemaStep::BackupAndMigrate { backup_extension: "sqlite3.v1-backup", from_version: 1 })
    } else if version == 2 {
        Ok(SchemaStep::BackupAndMigrate { backup_extension: "sqlite3.v2-backup", from_version: 2 })
    } else if version == 3 {
        Ok(SchemaStep::BackupAndMigrate { backup_extension: "sqlite3.v3-backup", from_version: 3 })
    } else if version == 4 {
        Ok(SchemaStep::Current)
    } else {
        Err("未対応のスキャン履歴バージョンです: "@ + signed_decimal(version as int))
    }
}

/// Converts a count for storage.
pub fn to_i64(value: u64, label: &str) -> (r: Result<i64, String>)
    ensures
        match r {
            Ok(v) => to_i64_spec(value, label@) == Ok::<i64, Seq<char>>(v),
            Err(e) => to_i64_spec(value, label@) == Err::<i64, Seq<char>>(e@),
        },
{
    if value <= i64::MAX as u64 {
        Ok(value as i64)
    } else {
        Err(concat(label, "が保存可能な範囲を超えています"))
    }
}

/// Converts an optional count for storage.
pub fn optional_to_i64(value: Option<u64>, label: &str) -> (r: Result<Option<i64>, String>)
    ensures
        match value {
            None => r == Ok::<Option<i64>, String>(None),
            Some(v) => match r {
                Ok(o) => o is Some && to_i64_spec(v, label@) == Ok::<i64, Seq<char>>(o->Some_0),
                Err(e) => to_i64_spec(v, label@) == Err::<i64, Seq<char>>(e@),
            },
        },
{
    match value {
        None => Ok(None),
        Some(v) => match to_i64(v, label) {
            Ok(x) => Ok(Some(x)),
            Err(e) => Err(e),
        },
    }
}

/// Converts an elapsed time in milliseconds for storage.
pub fn elapsed_to_i64(value: u128) -> (r: Result<i64, String>)
    ensures
        match r {
            Ok(v) => value <= i64::MAX && v == value,
            Err(e) => value > i64::MAX && e@ == "経過時間が保存可能な範囲を超えています"@,
        },
{
    if value <= i64::MAX as u128 {
        Ok(value as i64)
    } else {
        Err(owned("経過時間が保存可能な範囲を超えています"))
    }
}

/// Converts a stored integer back to a count.
pub fn to_u64(value: i64, label: &str) -> (r: Result<u64, String>)
    ensures
        match r {
            Ok(v) => to_u64_spec(value, label@) == Ok::<u64, Seq<char>>(v),
            Err(e) => to_u64_spec(value, label@) == Err::<u64, Seq<char>>(e@),
        },
{
    if value >= 0 {
        Ok(value as u64)
    } else {
        Err(concat(label, "に不正な負数が保存されています"))
    }
}

/// The oldest completion time of an interrupted or failed session that is
/// kept at `now`.
pub fn purge_cutoff(now: i64) -> (r: i64)
    ensures
        r == if now - INCOMPLETE_RETENTION_SECONDS < i64::MIN {
            i64::MIN as int
        } else {
            now - INCOMPLETE_RETENTION_SECONDS
        },
{
    if now < i64::MIN + INCOMPLETE_RETENTION_SECONDS {
        i64::MIN
    } else {
        now - INCOMPLETE_RETENTION_SECONDS
    }
}

/// Whether `PRAGMA quick_check` reported a sound database.
pub fn quick_check_passed(result: &str) -> (r: bool)
    ensures
        r == (result@ == "ok"@),
{
    str_eq(result, "ok")
}

/// The schema step that opening a database of `version` requires.
pub fn schema_step(version: i64) -> (r: Result<SchemaStep, String>)
    ensures
        match r {
            Ok(s) => schema_step_spec(version) == Ok::<SchemaStep, Seq<char>>(s),
            Err(e) => schema_step_spec(version) == Err::<SchemaStep, Seq<char>>(e@),
        },
{
    if version == 0 {
        Ok(SchemaStep::CreateCurrent)
    } else if version == 1 {
        Ok(SchemaStep::BackupAndMigrate { backup_extension: "sqlite3.v1-backup", from_version: 1 })
    } else if version == 2 {
        Ok(SchemaStep::BackupAndMigrate { backup_extension: "sqlite3.v2-backup", from_version: 2 })
    } else if version == 3 {
        Ok(SchemaStep::BackupAndMigrate { backup_extension: "sqlite3.v3-backup", from_version: 3 })
    } else if version == 4 {
        Ok(SchemaStep::Current)
    } else {
        let number = i64_to_decimal(version);
        Err(concat("未対応のスキャン履歴バージョンです: ", number.as_str()))
    }
}

impl ScanRepository {
    /// A repository for the database at `database_path`.
    pub fn new(database_path: PathBuf) -> (r: Self)
        ensures
            r.database_path() == database_path,
    {
        ScanRepository { database_path }
    }

    /// The database this repository reads and writes.
    pub closed spec fn database_path(&self) -> PathBuf {
        self.database_path
    }

    /// The path of the database.
    pub fn path(&self) -> (p: &PathBuf)
        ensures
            *p == self.database_path(),
    {
        &self.database_path
    }
}

impl SavedScan {
    /// A listed scan from the integers stored for it; negative counts are rejected.
    pub fn from_row(
        id: i64,
        root_path: String,
        total_size: i64,
        files: i64,
        directories: i64,
        skipped: i64,
        completed_at: i64,
    ) -> (r: Result<SavedScan, String>)
        ensures
            match r {
                Ok(s) => s.id == id && s.root_path == root_path && s.completed_at == completed_at
                    && total_size >= 0 && files >= 0 && directories >= 0 && skipped >= 0
                    && s.total_size_bytes == total_size && s.file_count == files
                    && s.directory_count == directories && s.skipped_count == skipped,
                Err(e) => if total_size < 0 {
                    e@ == negative_message("合計サイズ"@)
                } else if files < 0 {
                    e@ == negative_message("ファイル数"@)
                } else if directories < 0 {
                    e@ == negative_message("フォルダ数"@)
                } else {
                    skipped < 0 && e@ == negative_message("読み飛ばし数"@)
                },
            },
    {
        let total_size_bytes = match to_u64(total_size, "合計サイズ") {
            Ok(v) => v,
            Err(e) => {
                return Err(e);
            },
        };
        let file_count = match to_u64(files, "ファイル数") {
            Ok(v) => v,
            Err(e) => {
                return Err(e);
            },
        };
        let directory_count = match to_u64(directories, "フォルダ数") {
            Ok(v) => v,
            Err(e) => {
                return Err(e);
            },
        };
        let skipped_count = match to_u64(skipped, "読み飛ばし数") {
            Ok(v) => v,
            Err(e) => {
                return Err(e);
            },
        };
        Ok(SavedScan {
            id,
            root_path,
            total_size_bytes,
            file_count,
            directory_count,
            skipped_count,
            completed_at,
        })
    }
}

/// A row of the session table: id, root path, total size, file, directory and
/// skipped counts, and completion time.
pub type SessionRow = (i64, String, i64, i64, i64, i64, i64);

/// The first fault of a stored session row: a negative count, in column order.
pub open spec fn row_error(r: SessionRow) -> Option<Seq<char>> {
    if r.2 < 0 {
        Some(negative_message("合計サイズ"@))
    } else if r.3 < 0 {
        Some(negative_message("ファイル数"@))
    } else if r.4 < 0 {
        Some(negative_message("フォルダ数"@))
    } else if r.5 < 0 {
        Some(negative_message("読み飛ばし数"@))
    } else {
        None
    }
}

/// The listed scan shows the row.
pub open spec fn saved_scan_of(s: SavedScan, r: SessionRow) -> bool {
    &&& s.id == r.0
    &&& s.root_path == r.1
    &&& s.total_size_bytes == r.2
    &&& s.file_count == r.3
    &&& s.directory_count == r.4
    &&& s.skipped_count == r.5
    &&& s.completed_at == r.6
}

/// The completed scans of the listed session rows, in row order, or the
/// first fault of the first faulty row.
pub fn saved_scans(rows: Vec<SessionRow>) -> (r: Result<Vec<SavedScan>, String>)
    ensures
        match r {
            Ok(v) => v@.len() == rows@.len() && forall|i: int|
                0 <= i < rows@.len() ==> row_error(#[trigger] rows@[i]) is None && saved_scan_of(
                    v@[i],
                    rows@[i],
                ),
            Err(e) => exists|i: int|
                0 <= i < rows@.len() && row_error(#[trigger] rows@[i]) == Some(e@) && forall|j: int|
                    0 <= j < i ==> row_error(#[trigger] rows@[j]) is None,
        },
{
    let ghost all = rows@;
    let mut out: Vec<SavedScan> = Vec::new();
    let mut i: usize = 0;
    while i < rows.len()
        invariant
            i <= rows.len(),
            all == rows@,
            out@.len() == i,
            forall|j: int|
                0 <= j < i ==> row_error(#[trigger] all[j]) is None && saved_scan_of(out@[j], all[j]),
        decreases rows.len() - i,
    {
        let row = &rows[i];
        match SavedScan::from_row(row.0, row.1.clone(), row.2, row.3, row.4, row.5, row.6) {
            Ok(s) => {
                out.push(s);
            },
            Err(e) => {
                assert(row_error(all[i as int]) == Some(e@));
                return Err(e);
            },
        }
        i = i + 1;
    }
    Ok(out)
}

/// The entry stored for a progress record of a scan rooted at `root_path`,
/// with the path rules of the given platform.
pub fn indexed_entry(progress: &ScanProgress, root_path: &str, style: PathStyle) -> (e: IndexedEntry)
    ensures
        indexed_entry_matches(e, *progress, root_path@, style),
{
    let path = progress.path.as_str();
    let name = match path_file_name_in(style, path) {
        Some(n) => n,
        None => String::new(),
    };
    let relative_path = match path_strip_prefix_in(style, path, root_path) {
        Some(r) => r,
        None => owned(path),
    };
    let entry_type = if progress.directory_count > 0 {
        "directory"
    } else if progress.file_count > 0 {
        "file"
    } else {
        "other"
    };
    IndexedEntry {
        name,
        path: owned(path),
        parent_path: path_parent_in(style, path),
        relative_path,
        entry_type,
        counted_size: progress.counted_size_bytes,
        logical_size: progress.logical_size_bytes,
        allocated_size: progress.allocated_size_bytes,
        file_count: progress.file_count,
        directory_count: progress.directory_count,
        skipped_count: progress.skipped_count,
        skip_reason: progress.skip_reason,
        is_directory: progress.directory_count > 0,
        file_identity: progress.file_identity.clone(),
        volume_identity: progress.volume_identity.clone(),
        modified_at: progress.modified_at,
    }
}

/// The stored integers of an entry, or the message for the first count, in the
/// order counted size, logical size, allocated size, files, directories,
/// skipped, that does not fit.
pub fn stored_counts(entry: &IndexedEntry) -> (r: Result<StoredCounts, String>)
    ensures
        match r {
            Ok(c) => c.size_bytes == entry.counted_size && c.logical_size == entry.logical_size
                && c.file_count == entry.file_count && c.directory_count == entry.directory_count
                && c.skipped_count == entry.skipped_count && c.is_directory == (if entry.is_directory {
                1int
            } else {
                0int
            }) && match entry.allocated_size {
                Some(a) => c.allocated_size == Some(a as i64) && a <= i64::MAX,
                None => c.allocated_size is None,
            },
            Err(e) => {
                ||| entry.counted_size > i64::MAX && e@ == too_large_message("集計サイズ"@)
                ||| entry.counted_size <= i64::MAX && entry.logical_size > i64::MAX && e@
                    == too_large_message("論理サイズ"@)
                ||| entry.counted_size <= i64::MAX && entry.logical_size <= i64::MAX && (entry.allocated_size matches Some(a) && a > i64::MAX) && e@ == too_large_message("割り当て済みサイズ"@)
                ||| entry.counted_size <= i64::MAX && entry.logical_size <= i64::MAX && !(entry.allocated_size matches Some(a) && a > i64::MAX) && entry.file_count > i64::MAX && e@ == too_large_message("ファイル数"@)
                ||| entry.counted_size <= i64::MAX && entry.logical_size <= i64::MAX && !(entry.allocated_size matches Some(a) && a > i64::MAX) && entry.file_count <= i64::MAX && entry.directory_count > i64::MAX && e@ == too_large_message("フォルダ数"@)
                ||| entry.counted_size <= i64::MAX && entry.logical_size <= i64::MAX && !(entry.allocated_size matches Some(a) && a > i64::MAX) && entry.file_count <= i64::MAX && entry.directory_count <= i64::MAX && entry.skipped_count > i64::MAX && e@ == too_large_message("読み飛ばし数"@)
            },
        },
{
    let size_bytes = match to_i64(entry.counted_size, "集計サイズ") {
        Ok(v) => v,
        Err(e) => {
            return Err(e);
        },
    };
    let logical_size = match to_i64(entry.logical_size, "論理サイズ") {
        Ok(v) => v,
        Err(e) => {
            return Err(e);
        },
    };
    let allocated_size = match optional_to_i64(entry.allocated_size, "割り当て済みサイズ") {
        Ok(v) => v,
        Err(e) => {
            return Err(e);
        },
    };
    let file_count = match to_i64(entry.file_count, "ファイル数") {
        Ok(v) => v,
        Err(e) => {
            return Err(e);
        },
    };
    let directory_count = match to_i64(entry.directory_count, "フォルダ数") {
        Ok(v) => v,
        Err(e) => {
            return Err(e);
        },
    };
    let skipped_count = match to_i64(entry.skipped_count, "読み飛ばし数") {
        Ok(v) => v,
        Err(e) => {
            return Err(e);
        },
    };
    Ok(StoredCounts {
        size_bytes,
        logical_size,
        allocated_size,
        file_count,
        directory_count,
        skipped_count,
        is_directory: if entry.is_directory {
            1
        } else {
            0
        },
    })
}

/// The stored integers of a completed scan's totals, or the message for the
/// first that does not fit, in the order total size, files, directories,
/// skipped, elapsed time.
pub fn stored_totals(summary: &ScanSummary) -> (r: Result<StoredTotals, String>)
    ensures
        match r {
            Ok(t) => t.total_size_bytes == summary.total_size_bytes && t.file_count
                == summary.file_count && t.directory_count == summary.directory_count
                && t.skipped_count == summary.skipped_count && t.elapsed_milliseconds
                == summary.elapsed_milliseconds,
            Err(e) => {
                ||| summary.total_size_bytes > i64::MAX && e@ == too_large_message("合計サイズ"@)
                ||| summary.total_size_bytes <= i64::MAX && summary.file_count > i64::MAX && e@
                    == too_large_message("ファイル数"@)
                ||| summary.total_size_bytes <= i64::MAX && summary.file_count <= i64::MAX
                    && summary.directory_count > i64::MAX && e@ == too_large_message("フォルダ数"@)
                ||| summary.total_size_bytes <= i64::MAX && summary.file_count <= i64::MAX
                    && summary.directory_count <= i64::MAX && summary.skipped_count > i64::MAX
                    && e@ == too_large_message("読み飛ばし数"@)
                ||| summary.total_size_bytes <= i64::MAX && summary.file_count <= i64::MAX
                    && summary.directory_count <= i64::MAX && summary.skipped_count <= i64::MAX
                    && summary.elapsed_milliseconds > i64::MAX && e@
                    == "経過時間が保存可能な範囲を超えています"@
            },
        },
{
    let total_size_bytes = match to_i64(summary.total_size_bytes, "合計サイズ") {
        Ok(v) => v,
        Err(e) => {
            return Err(e);
        },
    };
    let file_count = match to_i64(summary.file_count, "ファイル数") {
        Ok(v) => v,
        Err(e) => {
            return Err(e);
        },
    };
    let directory_count = match to_i64(summary.directory_count, "フォルダ数") {
        Ok(v) => v,
        Err(e) => {
            return Err(e);
        },
    };
    let skipped_count = match to_i64(summary.skipped_count, "読み飛ばし数") {
        Ok(v) => v,
        Err(e) => {
            return Err(e);
        },
    };
    let elapsed_milliseconds = match elapsed_to_i64(summary.elapsed_milliseconds) {
        Ok(v) => v,
        Err(e) => {
            return Err(e);
        },
    };
    Ok(StoredTotals {
        total_size_bytes,
        file_count,
        directory_count,
        skipped_count,
        elapsed_milliseconds,
    })
}

impl StreamingScanWriter {
    /// The buffer never holds a full batch.
    #[verifier::type_invariant]
    spec fn wf(&self) -> bool {
        self.pending@.len() < WRITE_BATCH_SIZE
    }

    /// The session the writer appends to.
    pub closed spec fn session(&self) -> i64 {
        self.scan_id
    }

    /// The root the session scans.
    pub closed spec fn root(&self) -> Seq<char> {
        self.root_path@
    }

    /// The platform whose path rules the entries follow.
    pub closed spec fn path_style(&self) -> PathStyle {
        self.style
    }

    /// The entries not yet written.
    pub closed spec fn pending_entries(&self) -> Seq<IndexedEntry> {
        self.pending@
    }

    /// The write error, if a write has failed.
    pub closed spec fn failure(&self) -> Option<Seq<char>> {
        match self.error {
            Some(e) => Some(e@),
            None => None,
        }
    }

    /// A writer for the session `scan_id` scanning `root_path` with the path
    /// rules of `style`, with nothing buffered.
    pub fn new(scan_id: i64, root_path: String, style: PathStyle) -> (w: Self)
        ensures
            w.session() == scan_id,
            w.root() == root_path@,
            w.path_style() == style,
            w.pending_entries().len() == 0,
            w.failure() is None,
    {
        StreamingScanWriter { scan_id, root_path, style, pending: Vec::new(), error: None }
    }

    /// The session the writer appends to.
    pub fn scan_id(&self) -> (id: i64)
        ensures
            id == self.session(),
    {
        self.scan_id
    }

    /// Buffers the entry for a progress record. Records of no file, directory or
    /// skipped item are ignored. When the buffer reaches a full batch it is
    /// emptied; the batch is returned for writing unless a write has failed.
    pub fn record(&mut self, progress: &ScanProgress) -> (batch: Option<Vec<IndexedEntry>>)
        ensures
            final(self).pending_entries().len() < WRITE_BATCH_SIZE,
            final(self).session() == old(self).session(),
            final(self).root() == old(self).root(),
            final(self).path_style() == old(self).path_style(),
            final(self).failure() == old(self).failure(),
            progress_is_empty(*progress) ==> final(self).pending_entries() == old(
                self,
            ).pending_entries() && batch is None,
            !progress_is_empty(*progress) ==> {
                let grown_len = old(self).pending_entries().len() + 1;
                &&& indexed_entry_matches(
                    if grown_len < WRITE_BATCH_SIZE {
                        final(self).pending_entries().last()
                    } else {
                        batch->Some_0@.last()
                    },
                    *progress,
                    old(self).root(),
                    old(self).path_style(),
                ) || (grown_len >= WRITE_BATCH_SIZE && batch is None)
                &&& grown_len < WRITE_BATCH_SIZE ==> batch is None
                    && final(self).pending_entries().drop_last() == old(self).pending_entries()
                    && final(self).pending_entries().len() == grown_len
                &&& grown_len >= WRITE_BATCH_SIZE ==> final(self).pending_entries().len() == 0
                    && (batch is Some <==> old(self).failure() is None)
                    && (batch matches Some(b) ==> b@.drop_last() == old(self).pending_entries()
                    && b@.len() == grown_len)
            },
    {
        proof {
            use_type_invariant(&*self);
        }
        if progress.file_count == 0 && progress.directory_count == 0 && progress.skipped_count == 0 {
            return None;
        }
        let entry = indexed_entry(progress, self.root_path.as_str(), self.style);
        let mut batch: Vec<IndexedEntry> = Vec::new();
        std::mem::swap(&mut batch, &mut self.pending);
        batch.push(entry);
        if batch.len() < WRITE_BATCH_SIZE {
            self.pending = batch;
            return None;
        }
        if self.error.is_some() {
            None
        } else {
            Some(batch)
        }
    }

    /// Records that writing a batch failed; no later batch is written.
    pub fn fail_write(&mut self, error: String)
        ensures
            final(self).session() == old(self).session(),
            final(self).root() == old(self).root(),
            final(self).path_style() == old(self).path_style(),
            final(self).pending_entries() == old(self).pending_entries(),
            final(self).failure() == Some(error@),
    {
        proof {
            use_type_invariant(&*self);
        }
        self.error = Some(error);
    }

    /// Empties the buffer; its entries are returned for writing unless a write
    /// has failed.
    pub fn flush(&mut self) -> (batch: Option<Vec<IndexedEntry>>)
        ensures
            final(self).session() == old(self).session(),
            final(self).root() == old(self).root(),
            final(self).path_style() == old(self).path_style(),
            final(self).failure() == old(self).failure(),
            final(self).pending_entries().len() == 0,
            batch is Some <==> old(self).failure() is None,
            batch matches Some(b) ==> b@ == old(self).pending_entries(),
    {
        let mut batch: Vec<IndexedEntry> = Vec::new();
        std::mem::swap(&mut batch, &mut self.pending);
        if self.error.is_some() {
            None
        } else {
            Some(batch)
        }
    }

    /// How a streamed session ends after the final flush: the write error, if
    /// one occurred, fails the session (`Err`); otherwise it is completed.
    pub fn complete(&self) -> (r: Result<(), String>)
        ensures
            match r {
                Err(e) => self.failure() == Some(e@),
                Ok(()) => self.failure() is None,
            },
    {
        match &self.error {
            Some(e) => Err(e.clone()),
            None => Ok(()),
        }
    }

    /// Discards the buffered entries of an interrupted session and returns the
    /// status it ends in: `failed` or `interrupted`.
    pub fn interrupt(&mut self, failed: bool) -> (status: &'static str)
        ensures
            final(self).session() == old(self).session(),
            final(self).root() == old(self).root(),
            final(self).path_style() == old(self).path_style(),
            final(self).failure() == old(self).failure(),
            final(self).pending_entries().len() == 0,
            status@ == if failed {
                "failed"@
            } else {
                "interrupted"@
            },
    {
        self.pending = Vec::new();
        if failed {
            "failed"
        } else {
            "interrupted"
        }
    }

    /// The number of buffered entries.
    pub fn pending_len(&self) -> (n: usize)
        ensures
            n == self.pending_entries().len(),
            n < WRITE_BATCH_SIZE,
    {
        proof {
            use_type_invariant(self);
        }
        self.pending.len()
    }
}

} // verus!
