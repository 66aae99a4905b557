//! Reading back the cache classification saved with a completed scan: the
//! page window of a query, the check that the scan completed, and the
//! conversion of stored rows into entries joined with their catalog definition.
use crate::cache_activity::{state_label, CacheRuntimeState};
use crate::cache_catalog::{CacheCatalog, CacheDefinition, CachePathRule};
use crate::storage::{negative_message, to_u64, to_u64_spec};
use crate::text::{owned, str_eq};
use std::path::PathBuf;
use vstd::prelude::*;

verus! {

/// The number of entries a query returns when no limit is given.
pub const DEFAULT_QUERY_LIMIT: u32 = 100;

/// The largest number of entries one query may return.
pub const MAX_QUERY_LIMIT: u32 = 500;

/// Reads the cache entries saved in a scan database.
#[derive(Clone)]
pub struct CacheQueryRepository {
    database_path: PathBuf,
}

/// A saved entry that a cache definition classified, with that definition when
/// the current catalog still has it.
#[derive(Clone, Debug, PartialEq, Eq)]
pub struct CacheEntryDetail {
    pub id: i64,
    pub scan_id: i64,
    pub name: String,
    pub path: String,
    pub size_bytes: u64,
    pub logical_size: u64,
    pub allocated_size: Option<u64>,
    pub modified_at: Option<i64>,
    pub cache_catalog_version: String,
    pub cache_definition_id: String,
    pub cache_definition_version: u32,
    pub runtime_state: Option<CacheRuntimeState>,
    pub definition: Option<CacheDefinition>,
}

/// A classified entry as the database stores it.
#[derive(Clone, Debug)]
pub struct StoredCacheEntry {
    pub id: i64,
    pub scan_id: i64,
    pub name: String,
    pub path: String,
    pub size_bytes: i64,
    pub logical_size: i64,
    pub allocated_size: Option<i64>,
    pub modified_at: Option<i64>,
    pub cache_catalog_version: String,
    pub cache_definition_id: String,
    pub cache_definition_version: i64,
    pub runtime_state: Option<String>,
}

impl CacheQueryRepository {
    /// A repository for the database at `database_path`.
    pub fn new(database_path: PathBuf) -> (r: Self)
        ensures
            r.database_path() == database_path,
    {
        CacheQueryRepository { database_path }
    }

    /// The database this repository reads.
    pub closed spec fn database_path(&self) -> PathBuf {
        self.database_path
    }

    /// The path of the database.
    pub fn path(&self) -> (p: &PathBuf)
        ensures
            *p == self.database_path(),
    {
        &self.database_path
    }
}

/// The limit and offset of a query (100 and 0 when not given), or the message
/// that the limit lies outside 1 to 500.
pub open spec fn query_window_spec(limit: Option<u32>, offset: Option<u32>) -> Result<
    (u32, u32),
    Seq<char>,
> {
    let l = match limit {
        Some(l) => l,
        None => DEFAULT_QUERY_LIMIT,
    };
    let o = match offset {
        Some(o) => o,
        None => 0u32,
    };
    if l == 0 || l > MAX_QUERY_LIMIT {
        Err("取得件数は1件以上500件以下で指定してください"@)
    } else {
        Ok((l, o))
    }
}

/// The limit and offset of a query.
pub fn query_window(limit: Option<u32>, offset: Option<u32>) -> (r: Result<(u32, u32), String>)
    ensures
        match r {
            Ok(w) => query_window_spec(limit, offset) == Ok::<(u32, u32), Seq<char>>(w),
            Err(e) => query_window_spec(limit, offset) == Err::<(u32, u32), Seq<char>>(e@),
        },
{
    let l = match limit {
        Some(l) => l,
        None => DEFAULT_QUERY_LIMIT,
    };
    let o = match offset {
        Some(o) => o,
        None => 0,
    };
    if l == 0 || l > MAX_QUERY_LIMIT {
        Err(owned("取得件数は1件以上500件以下で指定してください"))
    } else {
        Ok((l, o))
    }
}

/// Whether the entries of a scan with this stored status may be shown: only a
/// complete scan may; a missing one is reported as not found.
pub fn check_session_status(status: Option<&str>) -> (r: Result<(), String>)
    ensures
        match status {
            None => r matches Err(e) && e@ == "指定されたスキャン履歴が見つかりません"@,
            Some(s) => if s@ == "complete"@ {
                r is Ok
            } else {
                r matches Err(e) && e@ == "未完了のスキャン結果は表示できません"@
            },
        },
{
    match status {
        None => Err(owned("指定されたスキャン履歴が見つかりません")),
        Some(s) => if str_eq(s, "complete") {
            Ok(())
        } else {
            Err(owned("未完了のスキャン結果は表示できません"))
        },
    }
}

/// Converts an optional stored integer back to a count.
pub fn optional_to_u64(value: Option<i64>, label: &str) -> (r: Result<Option<u64>, String>)
    ensures
        match value {
            None => r == Ok::<Option<u64>, String>(None),
            Some(v) => match r {
                Ok(o) => o is Some && to_u64_spec(v, label@) == Ok::<u64, Seq<char>>(o->Some_0),
                Err(e) => to_u64_spec(v, label@) == Err::<u64, Seq<char>>(e@),
            },
        },
{
    match value {
        None => Ok(None),
        Some(v) => match to_u64(v, label) {
            Ok(x) => Ok(Some(x)),
            Err(e) => Err(e),
        },
    }
}

/// Two definitions hold the same values.
pub open spec fn same_definition(a: CacheDefinition, b: CacheDefinition) -> bool {
    &&& a.id == b.id
    &&& a.definition_version == b.definition_version
    &&& a.platform == b.platform
    &&& a.application_name == b.application_name
    &&& a.version_constraint == b.version_constraint
    &&& a.category == b.category
    &&& a.path == b.path
    &&& a.confidence == b.confidence
    &&& a.evidence@ == b.evidence@
    &&& a.regenerable == b.regenerable
    &&& a.cleanup_impact == b.cleanup_impact
}

/// The first of the first `k` definitions with this ID and version.
pub open spec fn first_definition(
    defs: Seq<CacheDefinition>,
    id: Seq<char>,
    version: int,
    k: int,
) -> Option<CacheDefinition>
    decreases k,
{
    if k <= 0 {
        None
    } else {
        match first_definition(defs, id, version, k - 1) {
            Some(d) => Some(d),
            None => if defs[k - 1].id@ == id && defs[k - 1].definition_version == version {
                Some(defs[k - 1])
            } else {
                None
            },
        }
    }
}

/// The definition an entry was classified by, looked up in a catalog of the
/// same version only.
pub open spec fn entry_definition(e: StoredCacheEntry, catalog: CacheCatalog) -> Option<
    CacheDefinition,
> {
    if e.cache_catalog_version@ == catalog.catalog_version@ {
        first_definition(
            catalog.definitions@,
            e.cache_definition_id@,
            e.cache_definition_version as int,
            catalog.definitions@.len() as int,
        )
    } else {
        None
    }
}

/// The first fault of a stored entry, in the order they are checked: a
/// definition version outside `u32`, an unknown runtime state label, then a
/// negative size.
pub open spec fn entry_error(e: StoredCacheEntry) -> Option<Seq<char>> {
    if e.cache_definition_version < 0 || e.cache_definition_version > u32::MAX {
        Some("キャッシュ定義バージョンが不正です"@)
    } else if e.runtime_state matches Some(t) && forall|s: CacheRuntimeState| state_label(s) != t@ {
        Some("キャッシュ実行時状態が不正です"@)
    } else if e.size_bytes < 0 {
        Some(negative_message("集計サイズ"@))
    } else if e.logical_size < 0 {
        Some(negative_message("論理サイズ"@))
    } else if e.allocated_size matches Some(a) && a < 0 {
        Some(negative_message("割り当て済みサイズ"@))
    } else {
        None
    }
}

/// The detail shows the stored entry, joined with its definition.
pub open spec fn detail_of(d: CacheEntryDetail, e: StoredCacheEntry, catalog: CacheCatalog) -> bool {
    &&& d.id == e.id
    &&& d.scan_id == e.scan_id
    &&& d.name@ == e.name@
    &&& d.path@ == e.path@
    &&& d.size_bytes == e.size_bytes
    &&& d.logical_size == e.logical_size
    &&& match (d.allocated_size, e.allocated_size) {
        (None, None) => true,
        (Some(x), Some(y)) => x == y,
        _ => false,
    }
    &&& d.modified_at == e.modified_at
    &&& d.cache_catalog_version@ == e.cache_catalog_version@
    &&& d.cache_definition_id@ == e.cache_definition_id@
    &&& d.cache_definition_version == e.cache_definition_version
    &&& match (d.runtime_state, e.runtime_state) {
        (None, None) => true,
        (Some(s), Some(t)) => state_label(s) == t@,
        _ => false,
    }
    &&& match (d.definition, entry_definition(e, catalog)) {
        (None, None) => true,
        (Some(a), Some(b)) => same_definition(a, b),
        _ => false,
    }
}

fn copy_path_rule(r: &CachePathRule) -> (c: CachePathRule)
    ensures
        c == *r,
{
    CachePathRule { root: r.root, relative_path: r.relative_path.clone(), source: r.source }
}

fn copy_definition(d: &CacheDefinition) -> (c: CacheDefinition)
    ensures
        same_definition(c, *d),
{
    let mut evidence: Vec<String> = Vec::new();
    let mut i: usize = 0;
    while i < d.evidence.len()
        invariant
            i <= d.evidence.len(),
            evidence@ == d.evidence@.take(i as int),
        decreases d.evidence.len() - i,
    {
        evidence.push(d.evidence[i].clone());
        assert(d.evidence@.take(i + 1) == d.evidence@.take(i as int).push(d.evidence@[i as int]));
        i = i + 1;
    }
    assert(d.evidence@.take(d.evidence.len() as int) == d.evidence@);
    CacheDefinition {
        id: d.id.clone(),
        definition_version: d.definition_version,
        platform: d.platform,
        application_name: d.application_name.clone(),
        version_constraint: d.version_constraint.clone(),
        category: d.category,
        path: copy_path_rule(&d.path),
        confidence: d.confidence,
        evidence,
        regenerable: d.regenerable,
        cleanup_impact: d.cleanup_impact.clone(),
    }
}

proof fn lemma_first_definition_stays(defs: Seq<CacheDefinition>, id: Seq<char>, version: int, k: int)
    requires
        0 <= k <= defs.len(),
        first_definition(defs, id, version, k) is Some,
    ensures
        first_definition(defs, id, version, defs.len() as int) == first_definition(
            defs,
            id,
            version,
            k,
        ),
    decreases defs.len() - k,
{
    if k < defs.len() {
        lemma_first_definition_stays(defs, id, version, k + 1);
    }
}

fn find_definition(catalog: &CacheCatalog, id: &String, version: u32) -> (r: Option<
    CacheDefinition,
>)
    ensures
        match (
            r,
            first_definition(
                catalog.definitions@,
                id@,
                version as int,
                catalog.definitions@.len() as int,
            ),
        ) {
            (None, None) => true,
            (Some(a), Some(b)) => same_definition(a, b),
            _ => false,
        },
{
    let ghost defs = catalog.definitions@;
    let mut k: usize = 0;
    while k < catalog.definitions.len()
        invariant
            k <= catalog.definitions.len(),
            defs == catalog.definitions@,
            first_definition(defs, id@, version as int, k as int) is None,
        decreases catalog.definitions.len() - k,
    {
        let d = &catalog.definitions[k];
        if str_eq(d.id.as_str(), id.as_str()) && d.definition_version == version {
            proof {
                lemma_first_definition_stays(defs, id@, version as int, k + 1);
            }
            return Some(copy_definition(d));
        }
        k = k + 1;
    }
    None
}

/// Converts a stored entry into its detail, or reports its first fault.
pub fn entry_detail(entry: &StoredCacheEntry, catalog: &CacheCatalog) -> (r: Result<
    CacheEntryDetail,
    String,
>)
    ensures
        match r {
            Ok(d) => entry_error(*entry) is None && detail_of(d, *entry, *catalog),
            Err(e) => entry_error(*entry) == Some(e@),
        },
{
    if entry.cache_definition_version < 0 || entry.cache_definition_version > u32::MAX as i64 {
        return Err(owned("キャッシュ定義バージョンが不正です"));
    }
    let definition_version = entry.cache_definition_version as u32;
    let runtime_state = match &entry.runtime_state {
        None => None,
        Some(t) => match CacheRuntimeState::from_str(t.as_str()) {
            Some(s) => Some(s),
            None => {
                return Err(owned("キャッシュ実行時状態が不正です"));
            },
        },
    };
    let definition = if str_eq(
        entry.cache_catalog_version.as_str(),
        catalog.catalog_version.as_str(),
    ) {
        find_definition(catalog, &entry.cache_definition_id, definition_version)
    } else {
        None
    };
    let size_bytes = match to_u64(entry.size_bytes, "集計サイズ") {
        Ok(v) => v,
        Err(e) => {
            return Err(e);
        },
    };
    let logical_size = match to_u64(entry.logical_size, "論理サイズ") {
        Ok(v) => v,
        Err(e) => {
            return Err(e);
        },
    };
    let allocated_size = match optional_to_u64(entry.allocated_size, "割り当て済みサイズ") {
        Ok(v) => v,
        Err(e) => {
            return Err(e);
        },
    };
    Ok(CacheEntryDetail {
        id: entry.id,
        scan_id: entry.scan_id,
        name: entry.name.clone(),
        path: entry.path.clone(),
        size_bytes,
        logical_size,
        allocated_size,
        modified_at: entry.modified_at,
        cache_catalog_version: entry.cache_catalog_version.clone(),
        cache_definition_id: entry.cache_definition_id.clone(),
        cache_definition_version: definition_version,
        runtime_state,
        definition,
    })
}

/// Converts stored entries in order into details, or reports the first fault
/// of the first faulty entry.
pub fn entry_details(entries: &Vec<StoredCacheEntry>, catalog: &CacheCatalog) -> (r: Result<
    Vec<CacheEntryDetail>,
    String,
>)
    ensures
        match r {
            Ok(ds) => {
                &&& ds@.len() == entries@.len()
                &&& forall|i: int|
                    0 <= i < entries@.len() ==> entry_error(#[trigger] entries@[i]) is None
                        && detail_of(ds@[i], entries@[i], *catalog)
            },
            Err(e) => exists|i: int|
                0 <= i < entries@.len() && entry_error(#[trigger] entries@[i]) == Some(e@) && forall|
                    j: int,
                | 0 <= j < i ==> entry_error(#[trigger] entries@[j]) is None,
        },
{
    let mut out: Vec<CacheEntryDetail> = Vec::new();
    let mut i: usize = 0;
    while i < entries.len()
        invariant
            i <= entries.len(),
            out@.len() == i,
            forall|j: int|
                0 <= j < i ==> entry_error(#[trigger] entries@[j]) is None && detail_of(
                    out@[j],
                    entries@[j],
                    *catalog,
                ),
        decreases entries.len() - i,
    {
        match entry_detail(&entries[i], catalog) {
            Ok(d) => {
                out.push(d);
            },
            Err(e) => {
                assert(entry_error(entries@[i as int]) == Some(e@));
                return Err(e);
            },
        }
        i = i + 1;
    }
    Ok(out)
}

proof fn lemma_first_definition_found(defs: Seq<CacheDefinition>, id: Seq<char>, version: int, k: int)
    requires
        0 <= k <= defs.len(),
    ensures
        first_definition(defs, id, version, k) matches Some(x) ==> exists|i: int|
            0 <= i < k && defs[i] == x && x.id@ == id && x.definition_version == version && forall|
                j: int,
            |
                0 <= j < i ==> !(#[trigger] defs[j].id@ == id && defs[j].definition_version == version),
        first_definition(defs, id, version, k) is None ==> forall|j: int|
            0 <= j < k ==> !(#[trigger] defs[j].id@ == id && defs[j].definition_version == version),
    decreases k,
{
    if k > 0 {
        lemma_first_definition_found(defs, id, version, k - 1);
    }
}

/// The definition an entry is joined with is the catalog's first definition
/// that has the entry's definition ID and definition version, taken from a
/// catalog of the entry's catalog version; there is none exactly when the
/// catalog versions differ or no definition has that ID and version.
pub proof fn lemma_entry_definition_matches(e: StoredCacheEntry, catalog: CacheCatalog)
    ensures
        entry_definition(e, catalog) matches Some(x) ==> {
            &&& x.id@ == e.cache_definition_id@
            &&& x.definition_version == e.cache_definition_version
            &&& e.cache_catalog_version@ == catalog.catalog_version@
            &&& exists|i: int|
                0 <= i < catalog.definitions@.len() && catalog.definitions@[i] == x && forall|j: int|
                    0 <= j < i ==> !(#[trigger] catalog.definitions@[j].id@ == e.cache_definition_id@
                        && catalog.definitions@[j].definition_version == e.cache_definition_version)
        },
        entry_definition(e, catalog) is None <==> (e.cache_catalog_version@ != catalog.catalog_version@
            || forall|j: int|
            0 <= j < catalog.definitions@.len() ==> !(
            #[trigger] catalog.definitions@[j].id@ == e.cache_definition_id@
                && catalog.definitions@[j].definition_version == e.cache_definition_version)),
{
    let defs = catalog.definitions@;
    lemma_first_definition_found(
        defs,
        e.cache_definition_id@,
        e.cache_definition_version as int,
        defs.len() as int,
    );
}

/// A detail's definition, when it has one, carries the detail's definition ID
/// and definition version.
pub proof fn lemma_detail_definition_matches(d: CacheEntryDetail, e: StoredCacheEntry, catalog: CacheCatalog)
    requires
        detail_of(d, e, catalog),
    ensures
        d.definition matches Some(x) ==> x.id@ == d.cache_definition_id@ && x.definition_version
            == d.cache_definition_version && x.id@ == e.cache_definition_id@
            && x.definition_version == e.cache_definition_version,
{
    lemma_entry_definition_matches(e, catalog);
}

} // verus!
