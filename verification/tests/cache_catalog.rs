use disk_visualizer::cache_catalog::{bundled_catalog, CachePathRoot, Platform};

#[test]
fn bundled_catalog_is_valid_and_versioned() {
    let catalog = bundled_catalog().unwrap();
    assert_eq!(catalog.catalog_version, "2026.08.1");
    assert!(catalog.definitions.len() >= 6);
}

#[test]
fn matches_only_complete_path_components() {
    let catalog = bundled_catalog().unwrap();
    let matches = catalog.classify(
        Platform::Windows,
        CachePathRoot::LocalAppData,
        "Google/Chrome/User Data/Default/Cache/data_1",
    );
    assert_eq!(matches.len(), 1);
    assert_eq!(matches[0].id, "chrome.windows.default-cache");
    assert!(catalog
        .classify(
            Platform::Windows,
            CachePathRoot::LocalAppData,
            "Google/Chrome/User Data/Default/CacheBackup/data_1",
        )
        .is_empty());
}

#[test]
fn windows_matching_is_case_insensitive() {
    let catalog = bundled_catalog().unwrap();
    assert_eq!(
        catalog
            .classify(
                Platform::Windows,
                CachePathRoot::LocalAppData,
                "microsoft/edge/user data/default/cache/data_0",
            )
            .len(),
        1
    );
}

#[test]
fn rejects_parent_path_segments() {
    let mut catalog = bundled_catalog().unwrap().clone();
    catalog.definitions[0].path.relative_path = "Library/../Secrets".to_owned();
    assert!(catalog.validate().is_err());
}

#[test]
fn macos_matching_is_case_sensitive() {
    let catalog = bundled_catalog().unwrap();
    assert_eq!(
        catalog
            .classify(Platform::Macos, CachePathRoot::Home, "Library/Caches/Google/Chrome/Default")
            .len(),
        1
    );
    assert!(catalog
        .classify(Platform::Macos, CachePathRoot::Home, "library/caches/google/chrome/Default")
        .is_empty());
}

#[test]
fn classification_requires_matching_platform_and_root() {
    let catalog = bundled_catalog().unwrap();
    assert!(catalog
        .classify(Platform::Macos, CachePathRoot::LocalAppData, "Google/Chrome/User Data/Default/Cache")
        .is_empty());
    assert!(catalog
        .classify(Platform::Windows, CachePathRoot::Home, "Google/Chrome/User Data/Default/Cache")
        .is_empty());
    assert!(catalog
        .classify(Platform::Windows, CachePathRoot::LocalAppData, "Google/Chrome/User Data/../Default/Cache")
        .is_empty());
}

#[test]
fn validation_reports_each_fault() {
    let base = bundled_catalog().unwrap();

    let mut blank_version = base.clone();
    blank_version.catalog_version = "  ".to_owned();
    assert_eq!(
        blank_version.validate(),
        Err("キャッシュ定義のカタログバージョンが空です".to_owned())
    );

    let mut empty = base.clone();
    empty.definitions.clear();
    assert_eq!(empty.validate(), Err("キャッシュ定義がありません".to_owned()));

    let mut duplicate = base.clone();
    duplicate.definitions[1].id = duplicate.definitions[0].id.clone();
    assert_eq!(
        duplicate.validate(),
        Err("キャッシュ定義IDが空または重複しています: safari.macos.cache".to_owned())
    );

    let mut missing = base.clone();
    missing.definitions[2].evidence = vec![" ".to_owned()];
    assert_eq!(
        missing.validate(),
        Err("キャッシュ定義の必須項目が不足しています: firefox.macos.profiles-cache".to_owned())
    );

    let mut backslash = base.clone();
    backslash.definitions[0].path.relative_path = "Library\\Caches".to_owned();
    assert_eq!(
        backslash.validate(),
        Err("キャッシュ定義の相対パスが不正です (safari.macos.cache): 区切り文字は相対パスの / のみ使用できます".to_owned())
    );

    let mut dot = base;
    dot.definitions[0].path.relative_path = "Library/./Caches".to_owned();
    assert_eq!(
        dot.validate(),
        Err("キャッシュ定義の相対パスが不正です (safari.macos.cache): 空要素、.、.. は使用できません".to_owned())
    );
}
