use s3tui::providers::filesystem::{classify_child, classify_children, plan_list, plan_remove, RawChild};
use s3tui::{Kind, StorageError};

fn child(name: &str, is_dir: Option<bool>) -> RawChild {
    RawChild {
        name: name.to_string(),
        dir: Some("/tmp/root".to_string()),
        is_dir,
    }
}

#[test]
fn directory_child_gets_trailing_separator() {
    let o = classify_child(child("sub", Some(true)));
    assert_eq!(o.name, "sub/");
    assert_eq!(o.kind, Kind::Directory);
    assert_eq!(o.dir.as_deref(), Some("/tmp/root"));
}

#[test]
fn file_child_keeps_plain_name() {
    let o = classify_child(child("notes.txt", Some(false)));
    assert_eq!(o.name, "notes.txt");
    assert_eq!(o.kind, Kind::File);
}

#[test]
fn failed_probe_degrades_to_unknown_among_correct_siblings() {
    let out = classify_children(vec![
        child("a.txt", Some(false)),
        child("broken", None),
        child("sub", Some(true)),
    ]);
    assert_eq!(out.len(), 3);
    assert_eq!(out[0].kind, Kind::File);
    assert_eq!(out[0].name, "a.txt");
    assert_eq!(out[1].kind, Kind::Unknown);
    assert_eq!(out[1].name, "broken");
    assert_eq!(out[2].kind, Kind::Directory);
    assert_eq!(out[2].name, "sub/");
}

#[test]
fn removing_a_directory_is_unsupported() {
    assert_eq!(plan_remove(Ok(true)), Err(StorageError::Unsupported));
}

#[test]
fn removing_an_absent_path_is_not_found() {
    assert_eq!(plan_remove(Err(StorageError::NotFound)), Err(StorageError::NotFound));
}

#[test]
fn removing_a_plain_file_may_proceed() {
    assert_eq!(plan_remove(Ok(false)), Ok(()));
}

#[test]
fn listing_a_non_directory_is_unsupported() {
    assert_eq!(plan_list(Ok(false)), Err(StorageError::Unsupported));
    assert_eq!(plan_list(Ok(true)), Ok(()));
    assert_eq!(plan_list(Err(StorageError::PermissionDenied)), Err(StorageError::PermissionDenied));
}
