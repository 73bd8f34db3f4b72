use background_picker::cache_key::{
    effective_source_path, get_cached_thumbnail_path_static, get_thumbnail_hash,
    get_thumbnail_cache_dir, resolve_thumbnail_cache_dir,
};
use background_picker::validity::{
    find_existing_thumbnail, is_thumbnail_cache_valid_static, resolution_candidates,
    shared_thumbnail_candidates, CacheProbe,
};
use sha1::{Digest, Sha1};

#[test]
fn test_get_thumbnail_hash() {
    let path = "/tmp/hash-dir/test_image.jpg";

    let hash1 = get_thumbnail_hash(path);
    let hash2 = get_thumbnail_hash(path);

    assert!(hash1.is_some());
    assert!(hash2.is_some());
    assert_eq!(hash1, hash2); // Same file should produce same hash

    // Hash should be 40 characters (SHA1 hex)
    let hash = hash1.unwrap();
    assert_eq!(hash.len(), 40);
    assert!(hash.chars().all(|c| c.is_ascii_hexdigit()));
}

#[test]
fn test_get_thumbnail_hash_known_value() {
    // The identity hash follows the freedesktop.org thumbnail convention:
    // SHA-1 of the file URI.  For file:///tmp/a.png the digest is fixed.
    let hash = get_thumbnail_hash("/tmp/a.png").unwrap();
    assert_eq!(hash.len(), 40);
    assert!(hash.chars().all(|c| c.is_ascii_hexdigit() && !c.is_ascii_uppercase()));
    // Computed independently with sha1 over b"file:///tmp/a.png".
    let digest = Sha1::digest(b"file:///tmp/a.png");
    let expected: String = digest.iter().map(|b| format!("{:02x}", b)).collect();
    assert_eq!(hash, expected);
}

#[test]
fn test_get_thumbnail_hash_different_files() {
    let hash1 = get_thumbnail_hash("/tmp/hash-dir/image1.jpg");
    let hash2 = get_thumbnail_hash("/tmp/hash-dir/image2.jpg");

    assert!(hash1.is_some());
    assert!(hash2.is_some());
    assert_ne!(hash1, hash2); // Different files should produce different hashes
}

#[test]
fn test_get_thumbnail_hash_nonexistent_file() {
    // Canonicalization of a nonexistent path fails, so the path is hashed
    // as given.
    let path = effective_source_path("/nonexistent/path/image.jpg", None);
    let hash = get_thumbnail_hash(&path);

    // Should still return a hash based on the path
    assert!(hash.is_some());
    let hash_str = hash.unwrap();
    assert_eq!(hash_str.len(), 40);
}

#[test]
fn test_effective_source_path_prefers_canonical() {
    let p = effective_source_path("./a.jpg", Some("/abs/a.jpg".to_string()));
    assert_eq!(p, "/abs/a.jpg");
    let q = effective_source_path("./a.jpg", None);
    assert_eq!(q, "./a.jpg");
}

#[test]
fn test_get_cached_thumbnail_path_static() {
    let cache_dir = "/tmp/cache-dir/cache";
    let test_file = "/tmp/cache-dir/test.jpg";

    let cache_path = get_cached_thumbnail_path_static(test_file, cache_dir);

    assert!(cache_path.is_some());
    let path = cache_path.unwrap();

    // Should be in the cache directory
    assert!(path.starts_with(cache_dir));

    // Should have .png extension
    assert!(path.ends_with(".png"));

    // Filename should be a 40-character hash
    let filename = &path[cache_dir.len() + 1..path.len() - 4];
    assert_eq!(filename.len(), 40);
    assert!(filename.chars().all(|c| c.is_ascii_hexdigit()));
}

#[test]
fn test_get_thumbnail_cache_dir() {
    // The resolved directory always ends in thumbnails/normal, whatever the
    // platform lookups returned.
    let cache_dir = get_thumbnail_cache_dir();
    assert!(cache_dir.ends_with("thumbnails/normal"));

    // With a platform cache-home the path hangs off it.
    let d = resolve_thumbnail_cache_dir(Some("/home/user/.cache".to_string()), None);
    assert_eq!(d, "/home/user/.cache/thumbnails/normal");
    assert!(d.starts_with('/'));

    // Without one the fallback is .cache under home, then a bare .cache.
    let d2 = resolve_thumbnail_cache_dir(None, Some("/home/user".to_string()));
    assert_eq!(d2, "/home/user/.cache/thumbnails/normal");
    let d3 = resolve_thumbnail_cache_dir(None, None);
    assert_eq!(d3, ".cache/thumbnails/normal");
}

#[test]
fn test_is_thumbnail_cache_valid_static_cache_newer() {
    // Cache modified after the original: valid.
    assert!(is_thumbnail_cache_valid_static(true, Some(1_000), Some(1_010)));
    assert!(is_thumbnail_cache_valid_static(true, Some(1_000), Some(1_000)));
}

#[test]
fn test_is_thumbnail_cache_valid_static_cache_older() {
    // Original modified after the cache: stale.
    assert!(!is_thumbnail_cache_valid_static(true, Some(1_010), Some(1_000)));
}

#[test]
fn test_is_thumbnail_cache_valid_static_cache_not_exists() {
    assert!(!is_thumbnail_cache_valid_static(false, Some(1_000), None));
    assert!(!is_thumbnail_cache_valid_static(false, None, None));
}

#[test]
fn test_cache_validity_missing_source_timestamp() {
    // A missing source timestamp counts as the epoch, so any existing cache
    // validates against it -- the documented trade-off.
    assert!(is_thumbnail_cache_valid_static(true, None, Some(0)));
    assert!(is_thumbnail_cache_valid_static(true, None, None));
}

#[test]
fn test_shared_thumbnail_candidates_tiers() {
    let hash = get_thumbnail_hash("/pics/a.jpg").unwrap();
    let cands = shared_thumbnail_candidates("/pics/a.jpg", Some("/home/u/.cache"));
    assert_eq!(cands.len(), 2);
    assert_eq!(cands[0], format!("/home/u/.cache/thumbnails/normal/{}.png", hash));
    assert_eq!(cands[1], format!("/home/u/.cache/thumbnails/large/{}.png", hash));

    let none = shared_thumbnail_candidates("/pics/a.jpg", None);
    assert!(none.is_empty());
}

#[test]
fn test_find_existing_thumbnail_no_cache() {
    let cands = shared_thumbnail_candidates("/pics/test.jpg", Some("/home/u/.cache"));
    let probes = vec![
        CacheProbe { exists: false, mtime: None },
        CacheProbe { exists: false, mtime: None },
    ];

    // Should return None when no cache exists
    let result = find_existing_thumbnail(&cands, &probes, Some(5));
    assert!(result.is_none());
}

#[test]
fn test_find_existing_thumbnail_prefers_normal_tier() {
    let cands = shared_thumbnail_candidates("/pics/test.jpg", Some("/home/u/.cache"));
    let both_valid = vec![
        CacheProbe { exists: true, mtime: Some(20) },
        CacheProbe { exists: true, mtime: Some(30) },
    ];
    let chosen = find_existing_thumbnail(&cands, &both_valid, Some(10)).unwrap();
    assert_eq!(chosen, cands[0]);

    let normal_stale = vec![
        CacheProbe { exists: true, mtime: Some(5) },
        CacheProbe { exists: true, mtime: Some(30) },
    ];
    let chosen2 = find_existing_thumbnail(&cands, &normal_stale, Some(10)).unwrap();
    assert_eq!(chosen2, cands[1]);
}

#[test]
fn test_resolution_candidates_strict_order() {
    let path = "/pics/test.jpg";
    let hash = get_thumbnail_hash(path).unwrap();
    let cands = resolution_candidates(path, Some("/home/u/.cache"), "/priv/cache");
    assert_eq!(cands.len(), 3);
    assert_eq!(cands[0], format!("/home/u/.cache/thumbnails/normal/{}.png", hash));
    assert_eq!(cands[1], format!("/home/u/.cache/thumbnails/large/{}.png", hash));
    assert_eq!(cands[2], format!("/priv/cache/{}.png", hash));

    // With no shared cache home only the private location remains.
    let only_private = resolution_candidates(path, None, "/priv/cache");
    assert_eq!(only_private.len(), 1);
    assert_eq!(only_private[0], format!("/priv/cache/{}.png", hash));
}
