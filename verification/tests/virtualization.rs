use s3tui::providers::s3::{virtualize_listing, RawListEntry, S3Object};
use s3tui::Kind;

fn raw(key: &str) -> RawListEntry {
    RawListEntry {
        key: key.to_string(),
        size: None,
        last_modified: None,
        storage_class: None,
        owner: None,
    }
}

fn names(entries: &[S3Object]) -> Vec<String> {
    entries.iter().map(|e| e.name.clone()).collect()
}

#[test]
fn docs_example_collapses_subdirectory() {
    let raws = vec![
        raw("docs/a.txt"),
        raw("docs/sub/b.txt"),
        raw("docs/sub/c.txt"),
        raw("docs/readme.md"),
    ];
    let out = virtualize_listing("docs/", &raws);
    assert_eq!(out.len(), 3);
    assert_eq!(names(&out), vec!["a.txt", "sub/", "readme.md"]);
    assert_eq!(out[0].kind, Kind::File);
    assert_eq!(out[1].kind, Kind::Directory);
    assert_eq!(out[2].kind, Kind::File);
    for e in &out {
        assert_eq!(e.prefix, "docs/");
    }
}

#[test]
fn empty_prefix_lists_top_level() {
    let raws = vec![raw("alpha"), raw("beta/x"), raw("beta/y"), raw("gamma/")];
    let out = virtualize_listing("", &raws);
    assert_eq!(names(&out), vec!["alpha", "beta/", "gamma/"]);
    assert_eq!(out[0].kind, Kind::File);
    assert_eq!(out[1].kind, Kind::Directory);
    assert_eq!(out[2].kind, Kind::Directory);
}

#[test]
fn prefix_marker_object_is_dropped() {
    let raws = vec![raw("docs/")];
    let out = virtualize_listing("docs/", &raws);
    assert!(out.is_empty());
}

#[test]
fn marker_and_descendants_give_one_directory() {
    let raws = vec![raw("p/sub/"), raw("p/sub/inner.txt"), raw("p/sub/deep/leaf")];
    let out = virtualize_listing("p/", &raws);
    assert_eq!(names(&out), vec!["sub/"]);
    assert_eq!(out[0].kind, Kind::Directory);
}

#[test]
fn deep_descendants_excluded_from_level() {
    let raws = vec![raw("a/b/c/d.txt"), raw("a/b/e.txt"), raw("a/f.txt")];
    let out = virtualize_listing("a/", &raws);
    assert_eq!(names(&out), vec!["b/", "f.txt"]);
    assert_eq!(out[0].kind, Kind::Directory);
    assert_eq!(out[1].kind, Kind::File);
}

#[test]
fn file_metadata_is_carried_and_date_parsed() {
    let raws = vec![RawListEntry {
        key: "docs/a.txt".to_string(),
        size: Some(42),
        last_modified: Some("2020-01-01T00:00:00Z".to_string()),
        storage_class: Some("STANDARD".to_string()),
        owner: Some("someone".to_string()),
    }];
    let out = virtualize_listing("docs/", &raws);
    assert_eq!(out.len(), 1);
    assert_eq!(out[0].name, "a.txt");
    assert_eq!(out[0].size, Some(42));
    assert_eq!(out[0].last_mod, Some(1577836800));
    assert_eq!(out[0].storage_class.as_deref(), Some("STANDARD"));
    assert_eq!(out[0].owner.as_deref(), Some("someone"));
}

#[test]
fn unparseable_date_degrades_to_absent() {
    let raws = vec![RawListEntry {
        key: "x".to_string(),
        size: None,
        last_modified: Some("not a date".to_string()),
        storage_class: None,
        owner: None,
    }];
    let out = virtualize_listing("", &raws);
    assert_eq!(out.len(), 1);
    assert_eq!(out[0].last_mod, None);
}

#[test]
fn directory_groupings_carry_no_metadata() {
    let raws = vec![RawListEntry {
        key: "p/sub/file".to_string(),
        size: Some(7),
        last_modified: Some("2020-01-01T00:00:00Z".to_string()),
        storage_class: Some("STANDARD".to_string()),
        owner: Some("someone".to_string()),
    }];
    let out = virtualize_listing("p/", &raws);
    assert_eq!(out.len(), 1);
    assert_eq!(out[0].name, "sub/");
    assert_eq!(out[0].kind, Kind::Directory);
    assert_eq!(out[0].size, None);
    assert_eq!(out[0].last_mod, None);
    assert_eq!(out[0].storage_class, None);
    assert_eq!(out[0].owner, None);
}

#[test]
fn getters_expose_name_and_kind() {
    let raws = vec![raw("x.txt")];
    let out = virtualize_listing("", &raws);
    assert_eq!(out[0].get_name(), "x.txt");
    assert!(matches!(out[0].get_kind(), Kind::File));
}
