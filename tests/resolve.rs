use registry_locator::{registry_path, registry_url, ConfigFile, Error, SourceEntry};

const INDEX: &str = "https://github.com/rust-lang/crates.io-index";

fn source(name: &str, registry: Option<&str>, replace_with: Option<&str>) -> (String, SourceEntry) {
    (
        name.to_string(),
        SourceEntry {
            registry: registry.map(|s| s.to_string()),
            replace_with: replace_with.map(|s| s.to_string()),
        },
    )
}

fn index(name: &str, url: &str) -> (String, Option<String>) {
    (name.to_string(), Some(url.to_string()))
}

fn file(source: Vec<(String, SourceEntry)>, registries: Vec<(String, Option<String>)>) -> Option<ConfigFile> {
    Some(ConfigFile { source, registries })
}

#[test]
fn default_registry_without_config() {
    let url = registry_url(&vec![], None).unwrap();
    assert_eq!(url.as_str(), INDEX);
    let url = registry_url(&vec![], Some(INDEX)).unwrap();
    assert_eq!(url.as_str(), INDEX);
}

#[test]
fn named_default_registry_must_be_declared() {
    let url = registry_url(&vec![], Some("crates-io")).unwrap();
    assert_eq!(url.as_str(), INDEX);
}

#[test]
fn named_default_registry_follows_its_declaration() {
    let configs = vec![file(vec![source("crates-io", None, Some("mirror"))], vec![index("mirror", "https://mirror.example/index")])];
    let url = registry_url(&configs, Some("crates-io")).unwrap();
    assert_eq!(url.as_str(), "https://mirror.example/index");
}

#[test]
fn source_section_wins_over_registries_section() {
    let configs = vec![file(
        vec![source("mine", Some("https://a.example/index"), None)],
        vec![index("mine", "https://b.example/index")],
    )];
    let url = registry_url(&configs, Some("mine")).unwrap();
    assert_eq!(url.as_str(), "https://a.example/index");
}

#[test]
fn registries_section_declares_origin() {
    let configs = vec![file(vec![], vec![index("mine", "https://b.example/index")])];
    let url = registry_url(&configs, Some("mine")).unwrap();
    assert_eq!(url.as_str(), "https://b.example/index");
}

#[test]
fn nearer_config_wins() {
    let configs = vec![
        file(vec![], vec![index("mine", "https://near.example/index")]),
        file(vec![source("mine", Some("https://far.example/index"), None)], vec![]),
    ];
    let url = registry_url(&configs, Some("mine")).unwrap();
    assert_eq!(url.as_str(), "https://near.example/index");
}

#[test]
fn redirect_chain_resolves_to_terminal() {
    let configs = vec![
        file(
            vec![
                source("crates-io", None, Some("a")),
                source("a", None, Some("b")),
            ],
            vec![],
        ),
        file(
            vec![source("b", None, Some("c"))],
            vec![index("c", "https://mirror.example/index")],
        ),
    ];
    let url = registry_url(&configs, None).unwrap();
    assert_eq!(url.as_str(), "https://mirror.example/index");
}

#[test]
fn unknown_registry_is_reported() {
    let configs = vec![file(vec![], vec![index("other", "https://o.example/")])];
    match registry_url(&configs, Some("missing")) {
        Err(Error::RegistryNotFound(n)) => assert_eq!(n, "missing"),
        other => panic!("unexpected {:?}", other),
    }
}

#[test]
fn dangling_redirect_is_reported() {
    let configs = vec![file(vec![source("crates-io", None, Some("nowhere"))], vec![])];
    match registry_url(&configs, None) {
        Err(Error::SourceNotFound(n)) => assert_eq!(n, "nowhere"),
        other => panic!("unexpected {:?}", other),
    }
}

#[test]
fn redirect_cycle_ends_in_missing_source() {
    let configs = vec![file(
        vec![source("a", None, Some("b")), source("b", None, Some("a"))],
        vec![],
    )];
    match registry_url(&configs, Some("a")) {
        Err(Error::SourceNotFound(n)) => assert_eq!(n, "a"),
        other => panic!("unexpected {:?}", other),
    }
}

#[test]
fn malformed_file_fails_resolution() {
    let configs = vec![
        file(vec![], vec![index("mine", "https://near.example/index")]),
        None,
    ];
    assert!(matches!(registry_url(&configs, Some("mine")), Err(Error::InvalidConfig)));
    assert!(matches!(registry_url(&configs, None), Err(Error::InvalidConfig)));
}

#[test]
fn terminal_without_url_is_invalid() {
    let configs = vec![file(vec![source("mine", None, None)], vec![])];
    assert!(matches!(registry_url(&configs, Some("mine")), Err(Error::InvalidConfig)));
    let configs = vec![file(vec![source("mine", Some("not a url"), None)], vec![])];
    assert!(matches!(registry_url(&configs, Some("mine")), Err(Error::InvalidConfig)));
}

#[test]
fn cache_path_of_resolved_registry() {
    let path = registry_path(Some("/home/u/.cargo"), &vec![], None).unwrap();
    assert_eq!(path, "/home/u/.cargo/registry/index/github.com-1ecc6299db9ec823");
}

#[test]
fn missing_home_is_reported() {
    assert!(matches!(registry_path(None, &vec![], None), Err(Error::HomeDirUnavailable)));
}

#[test]
fn dangling_redirect_later_in_chain_is_reported() {
    let configs = vec![
        file(vec![source("a", None, Some("b"))], vec![]),
        file(vec![source("b", None, Some("gone"))], vec![]),
    ];
    match registry_url(&configs, Some("a")) {
        Err(Error::SourceNotFound(n)) => assert_eq!(n, "gone"),
        other => panic!("unexpected {:?}", other),
    }
}

#[test]
fn source_section_wins_in_a_further_file() {
    let configs = vec![
        file(vec![], vec![index("other", "https://o.example/")]),
        file(
            vec![source("mine", Some("https://a.example/index"), None)],
            vec![index("mine", "https://b.example/index")],
        ),
    ];
    let url = registry_url(&configs, Some("mine")).unwrap();
    assert_eq!(url.as_str(), "https://a.example/index");
}
