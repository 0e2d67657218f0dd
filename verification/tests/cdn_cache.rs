use poe_data_tools::fs::cdn::cache::{
    get_fallback_cache_dirs, CacheConfig, CacheConfigError, CacheError, CacheFolder,
};
use poe_data_tools::fs::cdn::patch_parts::{parse_patch_parts, PatchPartsError};

/// The files of a fake cache root: "1.1.1.1" holds "hello/world.txt" and its etag, "2.2.2.2"
/// holds "bing.bong" and its etag.
fn fake_cache(root: &str) -> Vec<String> {
    vec![
        format!("{root}/1.1.1.1/hello/world.txt"),
        format!("{root}/1.1.1.1/hello/world.txt.etag"),
        format!("{root}/2.2.2.2/bing.bong"),
        format!("{root}/2.2.2.2/bing.bong.etag"),
    ]
}

#[test]
fn patch_parts_of_folder_names() {
    assert_eq!(parse_patch_parts("1.2.3.4").unwrap(), vec![1, 2, 3, 4]);
    assert_eq!(parse_patch_parts("3").unwrap(), vec![3]);
    assert_eq!(parse_patch_parts("+7.08").unwrap(), vec![7, 8]);
    assert_eq!(
        parse_patch_parts("18446744073709551615.0").unwrap(),
        vec![u64::MAX, 0]
    );
}

#[test]
fn invalid_patch_parts() {
    for name in ["", "1..2", "1.a", "patch", "18446744073709551616", "-1", "1. 2", "+"] {
        assert_eq!(parse_patch_parts(name), Err(PatchPartsError::InvalidNumber), "{name:?}");
    }
}

#[test]
fn test_cache_folder() {
    let root = "/cache";
    let files = fake_cache(root);
    let present = |p: &str| files.iter().any(|f| f == p);

    let cache_path = format!("{root}/1.1.1.1");
    let cache = CacheFolder::from_path(cache_path).unwrap();

    assert_eq!(cache.patch_parts, [1, 1, 1, 1]);

    assert!(cache.search("hello/world.txt", &present).is_some());
    assert!(cache.search("bing.bong", &present).is_none());
}

#[test]
fn test_cache() {
    let root = "/cache";
    let files = fake_cache(root);
    let present = |p: &str| files.iter().any(|f| f == p);
    let siblings = vec![format!("{root}/1.1.1.1"), format!("{root}/2.2.2.2")];

    let primary_cache_path = format!("{root}/1.1.1.1");
    let cache = CacheConfig::from_primary_cache_path(primary_cache_path, siblings).unwrap();

    assert_eq!(cache.fallback_caches().len(), 1);

    assert_eq!(cache.search_fallbacks("hello/world.txt", &present).len(), 0);
    assert_eq!(cache.search_fallbacks("bing.bong", &present).len(), 1);
}

#[test]
fn cache_paths() {
    let cache = CacheFolder::from_path("/cache/3.25.0".to_string()).unwrap();
    let (file, etag) = cache.get_path("Bundles2/_.index.bin");
    assert_eq!(file, "/cache/3.25.0/Bundles2/_.index.bin");
    assert_eq!(etag, "/cache/3.25.0/Bundles2/_.index.bin.etag");
}

#[test]
fn cache_folder_errors() {
    assert_eq!(
        CacheFolder::from_path("/cache/latest".to_string()).err(),
        Some(CacheError::NotAPatchVersion)
    );
    assert_eq!(
        CacheFolder::from_path("/cache/..".to_string()).err(),
        Some(CacheError::NoFolderName)
    );
    assert_eq!(
        CacheConfig::from_primary_cache_path("/".to_string(), vec![]).err(),
        Some(CacheConfigError::Folder(CacheError::NoFolderName))
    );
}

#[test]
fn fallbacks_ordered_by_distance() {
    let primary = CacheFolder::from_path("/c/1.1.1.1".to_string()).unwrap();
    let siblings = vec![
        "/c/2.2.2.2".to_string(),
        "/c/0.9".to_string(),
        "/c/junk".to_string(),
        "/c/1.1.1.1".to_string(),
        "/c/0.10".to_string(),
        "/c/1.1.1.1.5".to_string(),
        "/c/1.1".to_string(),
    ];
    let (old, new) = get_fallback_cache_dirs(siblings, &primary);
    let old: Vec<&str> = old.iter().map(|c| c.path.as_str()).collect();
    let new: Vec<&str> = new.iter().map(|c| c.path.as_str()).collect();
    assert_eq!(old, vec!["/c/1.1", "/c/0.10", "/c/0.9"]);
    assert_eq!(new, vec!["/c/1.1.1.1.5", "/c/2.2.2.2"]);
}

#[test]
fn fallbacks_keep_order_of_same_patch() {
    let primary = CacheFolder::from_path("/c/5".to_string()).unwrap();
    let siblings = vec![
        "/c/01".to_string(),
        "/c/6".to_string(),
        "/c/1".to_string(),
        "/c/06".to_string(),
    ];
    let (old, new) = get_fallback_cache_dirs(siblings, &primary);
    let old: Vec<&str> = old.iter().map(|c| c.path.as_str()).collect();
    let new: Vec<&str> = new.iter().map(|c| c.path.as_str()).collect();
    // Sorting keeps "01" before "1"; the old list is then reversed.
    assert_eq!(old, vec!["/c/1", "/c/01"]);
    assert_eq!(new, vec!["/c/6", "/c/06"]);
}

#[test]
fn older_than_is_lexicographic() {
    let a = CacheFolder::from_path("/c/1.2".to_string()).unwrap();
    let b = CacheFolder::from_path("/c/1.2.0".to_string()).unwrap();
    let c = CacheFolder::from_path("/c/1.10".to_string()).unwrap();
    assert!(a.is_older_than(&b));
    assert!(!b.is_older_than(&a));
    assert!(b.is_older_than(&c));
    assert!(!a.is_older_than(&a));
}

#[test]
fn fallback_search_order() {
    let primary = "/c/3.0".to_string();
    let siblings = vec![
        "/c/3.1".to_string(),
        "/c/2.0".to_string(),
        "/c/2.5".to_string(),
        "/c/4.0".to_string(),
    ];
    let config = CacheConfig::from_primary_cache_path(primary, siblings).unwrap();
    assert_eq!(config.root, "/c");
    let order: Vec<&str> = config.fallback_caches().iter().map(|c| c.path.as_str()).collect();
    assert_eq!(order, vec!["/c/2.5", "/c/2.0", "/c/3.1", "/c/4.0"]);
    let paths = config.fallback_paths("x.bin");
    assert_eq!(paths[0].0, "/c/2.5/x.bin");
    assert_eq!(paths[3].1, "/c/4.0/x.bin.etag");
}
