use disk_visualizer::cache_activity::CacheRuntimeState;
use disk_visualizer::cache_catalog::bundled_catalog;
use disk_visualizer::cache_query::{
    check_session_status, entry_detail, entry_details, optional_to_u64, query_window,
    CacheQueryRepository, StoredCacheEntry, MAX_QUERY_LIMIT,
};

fn stored() -> StoredCacheEntry {
    let catalog = bundled_catalog().unwrap();
    let definition = &catalog.definitions[0];
    StoredCacheEntry {
        id: 1,
        scan_id: 1,
        name: "cache.bin".to_owned(),
        path: "/tmp/cache.bin".to_owned(),
        size_bytes: 1024,
        logical_size: 2048,
        allocated_size: Some(4096),
        modified_at: Some(1_723_700_000),
        cache_catalog_version: catalog.catalog_version.clone(),
        cache_definition_id: definition.id.clone(),
        cache_definition_version: i64::from(definition.definition_version),
        runtime_state: Some("stable".to_owned()),
    }
}

#[test]
fn converts_saved_classification_with_matching_definition() {
    let catalog = bundled_catalog().unwrap();
    let detail = entry_detail(&stored(), &catalog).unwrap();
    assert_eq!(detail.size_bytes, 1024);
    assert_eq!(detail.logical_size, 2048);
    assert_eq!(detail.allocated_size, Some(4096));
    assert_eq!(detail.runtime_state, Some(CacheRuntimeState::Stable));
    assert_eq!(detail.definition.unwrap().id, "safari.macos.cache");
}

#[test]
fn rejects_incomplete_or_missing_sessions() {
    assert!(check_session_status(Some("complete")).is_ok());
    assert_eq!(
        check_session_status(Some("interrupted")),
        Err("未完了のスキャン結果は表示できません".to_owned())
    );
    assert_eq!(
        check_session_status(None),
        Err("指定されたスキャン履歴が見つかりません".to_owned())
    );
}

#[test]
fn validates_query_window() {
    assert_eq!(query_window(None, None), Ok((100, 0)));
    assert_eq!(query_window(Some(500), Some(7)), Ok((500, 7)));
    assert!(query_window(Some(0), None).is_err());
    assert_eq!(
        query_window(Some(MAX_QUERY_LIMIT + 1), None),
        Err("取得件数は1件以上500件以下で指定してください".to_owned())
    );
}

#[test]
fn definitions_of_other_catalog_versions_are_not_joined() {
    let catalog = bundled_catalog().unwrap();
    let mut entry = stored();
    entry.cache_catalog_version = "2020.01.1".to_owned();
    assert!(entry_detail(&entry, &catalog).unwrap().definition.is_none());
    let mut entry = stored();
    entry.cache_definition_version = 2;
    assert!(entry_detail(&entry, &catalog).unwrap().definition.is_none());
}

#[test]
fn reports_each_stored_fault() {
    let catalog = bundled_catalog().unwrap();
    let mut version = stored();
    version.cache_definition_version = -1;
    assert_eq!(
        entry_detail(&version, &catalog).map(|d| d.id),
        Err("キャッシュ定義バージョンが不正です".to_owned())
    );
    let mut state = stored();
    state.runtime_state = Some("busy".to_owned());
    assert_eq!(
        entry_detail(&state, &catalog).map(|d| d.id),
        Err("キャッシュ実行時状態が不正です".to_owned())
    );
    let mut size = stored();
    size.size_bytes = -5;
    assert_eq!(
        entry_detail(&size, &catalog).map(|d| d.id),
        Err("集計サイズに不正な負数が保存されています".to_owned())
    );
    let mut allocated = stored();
    allocated.allocated_size = Some(-1);
    assert_eq!(
        entry_detail(&allocated, &catalog).map(|d| d.id),
        Err("割り当て済みサイズに不正な負数が保存されています".to_owned())
    );
    assert_eq!(
        entry_details(&vec![stored(), size, version], &catalog).map(|v| v.len()),
        Err("集計サイズに不正な負数が保存されています".to_owned())
    );
    assert_eq!(entry_details(&vec![stored(), stored()], &catalog).map(|v| v.len()), Ok(2));
}

#[test]
fn optional_counts_convert() {
    assert_eq!(optional_to_u64(None, "x"), Ok(None));
    assert_eq!(optional_to_u64(Some(3), "x"), Ok(Some(3)));
    assert_eq!(
        optional_to_u64(Some(-3), "論理サイズ"),
        Err("論理サイズに不正な負数が保存されています".to_owned())
    );
    let repository = CacheQueryRepository::new("scans.sqlite3".into());
    assert_eq!(repository.path().to_str(), Some("scans.sqlite3"));
}
