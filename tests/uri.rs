use busan::uri::{contains_separator, is_valid_segment, Scheme, Uri};

#[test]
fn test_child_construction() {
    // Create a child from a root path
    let root = Uri::new(Scheme::Local, &["root"]);
    let child = root.new_child("child");

    // Test the relationships between the two
    assert_eq!(root.is_child(&child), true);
    assert_eq!(child.is_parent(&root), true);

    assert_eq!(root.is_parent(&child), false);
    assert_eq!(child.is_child(&root), false);

    // Create a grandchild from a child
    let grandchild = child.new_child("grandchild");

    // Not direct relationships: both false.
    assert_eq!(root.is_child(&grandchild), false);
    assert_eq!(grandchild.is_parent(&root), false);
}

#[test]
fn test_self_reference() {
    let path = Uri::new(Scheme::Local, &["root", "some", "path"]);
    assert_eq!(path.is_child(&path), false);
    assert_eq!(path.is_parent(&path), false);
}

#[test]
fn test_display() {
    let test_cases = vec![
        (vec!["geoip_updater"], "local://geoip_updater"),
        (
            vec!["geoip_updater", "download_manager"],
            "local://geoip_updater/download_manager",
        ),
        (
            vec!["geoip_updater", "download_manager", "fetch-0"],
            "local://geoip_updater/download_manager/fetch-0",
        ),
        (
            vec!["geoip_updater", "download_manager", "fetch-1"],
            "local://geoip_updater/download_manager/fetch-1",
        ),
        (
            vec!["geoip_updater", "indexer_manager"],
            "local://geoip_updater/indexer_manager",
        ),
        (
            vec!["geoip_updater", "indexer_manager", "indexer-0"],
            "local://geoip_updater/indexer_manager/indexer-0",
        ),
        (
            vec!["geoip_updater", "indexer_manager", "indexer-1"],
            "local://geoip_updater/indexer_manager/indexer-1",
        ),
        (
            vec!["geoip_updater", "publisher"],
            "local://geoip_updater/publisher",
        ),
        (
            vec!["geoip_updater", "publisher", "change_log"],
            "local://geoip_updater/publisher/change_log",
        ),
        (
            vec!["geoip_updater", "publisher", "database"],
            "local://geoip_updater/publisher/database",
        ),
        (
            vec!["geoip_updater", "publisher", "event_emitter"],
            "local://geoip_updater/publisher/event_emitter",
        ),
    ];
    for (path_segments, expected) in test_cases {
        let uri = Uri::new(Scheme::Local, &path_segments);
        assert_eq!(uri.to_string(), expected);
    }
}

#[test]
fn remote_display_and_path() {
    let uri = Uri::new(Scheme::Remote, &["a", "b"]);
    assert_eq!(uri.to_string(), "remote://a/b");
    assert_eq!(uri.path(), "a/b");
}

#[test]
fn parse_round_trip() {
    let cases = vec![
        Uri::new(Scheme::Local, &["root"]),
        Uri::new(Scheme::Local, &["root", "child-0", "leaf-12"]),
        Uri::new(Scheme::Remote, &["x", "y"]),
    ];
    for uri in cases {
        let text = uri.to_string();
        let parsed = Uri::parse(&text).expect("printable form parses");
        assert!(parsed == uri);
        assert_eq!(parsed.to_string(), text);
    }
}

#[test]
fn parse_values() {
    let u = Uri::parse("local://geoip_updater/publisher").unwrap();
    assert_eq!(u.scheme, Scheme::Local);
    assert_eq!(u.path_segments, vec!["geoip_updater".to_string(), "publisher".to_string()]);
    let r = Uri::parse("remote://a").unwrap();
    assert_eq!(r.scheme, Scheme::Remote);
    assert_eq!(r.path_segments, vec!["a".to_string()]);
}

#[test]
fn parse_rejects_bad_forms() {
    assert!(Uri::parse("").is_none());
    assert!(Uri::parse("local://").is_none());
    assert!(Uri::parse("local://a//b").is_none());
    assert!(Uri::parse("local://a/").is_none());
    assert!(Uri::parse("http://a").is_none());
    assert!(Uri::parse("local:/a").is_none());
}

#[test]
fn parent_relation_is_irreflexive_and_antisymmetric() {
    let a = Uri::new(Scheme::Local, &["a"]);
    let b = a.new_child("b");
    assert!(!a.is_child(&a));
    assert!(a.is_child(&b));
    assert!(!b.is_child(&a));
    let other_scheme = Uri::new(Scheme::Remote, &["a", "b"]);
    assert!(!a.is_child(&other_scheme));
}

#[test]
fn duplicate_keeps_value() {
    let a = Uri::new(Scheme::Local, &["a", "b"]);
    let c = a.duplicate();
    assert!(a == c);
    assert!(!(a == a.new_child("c")));
}

#[test]
fn segment_validity() {
    assert!(is_valid_segment("root"));
    assert!(!is_valid_segment(""));
    assert!(!is_valid_segment("a/b"));
    assert!(contains_separator("/"));
    assert!(!contains_separator("w-0"));
}
