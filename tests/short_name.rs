use registry_locator::cache_key::{cache_dir_name_of, join_path_of, to_le_bytes};
use registry_locator::{registry_path_from_url, short_name, RegistryUrl};

#[test]
fn test_short_name() {
    let url = RegistryUrl::parse("https://github.com/rust-lang/crates.io-index").unwrap();
    assert_eq!(short_name(&url), "github.com-1ecc6299db9ec823");
}

#[test]
fn short_name_is_reproducible() {
    let a = RegistryUrl::parse("https://example.com/my-index").unwrap();
    let b = RegistryUrl::parse("https://example.com/my-index").unwrap();
    assert_eq!(short_name(&a), short_name(&b));
    assert_eq!(short_name(&a), short_name(&a));
    assert!(short_name(&a).starts_with("example.com-"));
    assert_eq!(short_name(&a).len(), "example.com-".len() + 16);
}

#[test]
fn short_name_differs_by_url() {
    let a = RegistryUrl::parse("https://example.com/one").unwrap();
    let b = RegistryUrl::parse("https://example.com/two").unwrap();
    assert_ne!(short_name(&a), short_name(&b));
}

#[test]
fn short_name_without_host_starts_with_dash() {
    let url = RegistryUrl::parse("file:///srv/index").unwrap();
    assert!(url.host.is_none());
    let name = short_name(&url);
    assert!(name.starts_with('-'));
    assert_eq!(name.len(), 17);
}

#[test]
fn cache_dir_name_from_digest() {
    assert_eq!(
        cache_dir_name_of("github.com", 0x23c8_9edb_9962_cc1e),
        "github.com-1ecc6299db9ec823"
    );
    assert_eq!(cache_dir_name_of("", 0), "-0000000000000000");
    assert_eq!(cache_dir_name_of("h", 0xff), "h-ff00000000000000");
}

#[test]
fn le_bytes_of_digest() {
    assert_eq!(
        to_le_bytes(0x0102_0304_0506_0708),
        vec![8, 7, 6, 5, 4, 3, 2, 1]
    );
    assert_eq!(to_le_bytes(u64::MAX), vec![255; 8]);
}

#[test]
fn join_path_adds_one_separator() {
    assert_eq!(join_path_of("/home/u/.cargo", "registry"), "/home/u/.cargo/registry");
    assert_eq!(join_path_of("/home/u/.cargo/", "registry"), "/home/u/.cargo/registry");
    assert_eq!(join_path_of("", "registry"), "registry");
}

#[test]
fn cache_path_under_home() {
    let url = RegistryUrl::parse("https://github.com/rust-lang/crates.io-index").unwrap();
    assert_eq!(
        registry_path_from_url("/home/u/.cargo", &url),
        "/home/u/.cargo/registry/index/github.com-1ecc6299db9ec823"
    );
}

#[test]
fn url_parse_canonicalizes() {
    let url = RegistryUrl::parse("HTTPS://Example.COM").unwrap();
    assert_eq!(url.as_str(), "https://example.com/");
    assert_eq!(url.host.as_deref(), Some("example.com"));
    assert!(RegistryUrl::parse("not a url").is_none());
}
