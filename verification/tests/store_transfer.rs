use s3tui::providers::memory::MemoryObjectStore;
use s3tui::providers::s3::virtualize_listing;
use s3tui::transfer::{copy_in_memory, copy_step, CopyEvent, CopyState};
use s3tui::{Kind, StorageError};

fn upload_then_download(chunks: Vec<Vec<u8>>) -> Vec<u8> {
    let body = copy_in_memory(&chunks);
    let mut store = MemoryObjectStore::new();
    store.put("obj".to_string(), body);
    let downloaded = store.get(&"obj".to_string()).expect("uploaded object is there").clone();
    copy_in_memory(&vec![downloaded])
}

#[test]
fn round_trip_empty_stream() {
    let out = upload_then_download(vec![]);
    assert_eq!(out, Vec::<u8>::new());
}

#[test]
fn round_trip_single_byte() {
    let out = upload_then_download(vec![vec![7u8]]);
    assert_eq!(out, vec![7u8]);
}

#[test]
fn round_trip_multi_chunk() {
    let chunks = vec![b"hello ".to_vec(), b"object ".to_vec(), b"store".to_vec()];
    let out = upload_then_download(chunks);
    assert_eq!(out, b"hello object store".to_vec());
}

#[test]
fn delete_absent_object_key_succeeds() {
    let mut store = MemoryObjectStore::new();
    store.put("kept".to_string(), b"data".to_vec());
    store.delete(&"absent".to_string());
    assert!(store.get(&"kept".to_string()).is_some());
    assert!(store.get(&"absent".to_string()).is_none());
}

#[test]
fn delete_removes_and_stays_idempotent() {
    let mut store = MemoryObjectStore::new();
    store.put("k".to_string(), b"v".to_vec());
    store.delete(&"k".to_string());
    assert!(store.get(&"k".to_string()).is_none());
    store.delete(&"k".to_string());
    assert!(store.get(&"k".to_string()).is_none());
}

#[test]
fn put_replaces_existing_body() {
    let mut store = MemoryObjectStore::new();
    store.put("k".to_string(), b"old".to_vec());
    store.put("k".to_string(), b"new".to_vec());
    assert_eq!(store.get(&"k".to_string()).unwrap(), &b"new".to_vec());
}

#[test]
fn store_listing_virtualizes_like_a_remote_one() {
    let mut store = MemoryObjectStore::new();
    store.put("docs/a.txt".to_string(), b"a".to_vec());
    store.put("docs/sub/b.txt".to_string(), b"b".to_vec());
    store.put("docs/sub/c.txt".to_string(), b"c".to_vec());
    store.put("other/x".to_string(), b"x".to_vec());
    let raws = store.list_raw(&"docs/".to_string());
    let mut keys: Vec<String> = raws.iter().map(|r| r.key.clone()).collect();
    keys.sort();
    assert_eq!(keys, vec!["docs/a.txt", "docs/sub/b.txt", "docs/sub/c.txt"]);
    let entries = virtualize_listing("docs/", &raws);
    let mut names: Vec<String> = entries.iter().map(|e| e.name.clone()).collect();
    names.sort();
    assert_eq!(names, vec!["a.txt", "sub/"]);
    for e in &entries {
        if e.name == "sub/" {
            assert_eq!(e.kind, Kind::Directory);
        } else {
            assert_eq!(e.kind, Kind::File);
        }
    }
}

#[test]
fn listing_omits_overwritten_and_deleted_keys() {
    let mut store = MemoryObjectStore::new();
    store.put("p/one".to_string(), b"first".to_vec());
    store.put("p/one".to_string(), b"second".to_vec());
    store.put("p/two".to_string(), b"t".to_vec());
    store.delete(&"p/two".to_string());
    let raws = store.list_raw(&"p/".to_string());
    assert_eq!(raws.len(), 1);
    assert_eq!(raws[0].key, "p/one");
}

#[test]
fn copy_completes_only_at_end_of_data() {
    let st = CopyState::Pulling;
    let st = copy_step(st, CopyEvent::Pulled(Some(Ok(b"chunk".to_vec()))));
    assert!(matches!(st, CopyState::Writing(_)));
    let st = copy_step(st, CopyEvent::Written(Ok(())));
    assert!(matches!(st, CopyState::Pulling));
    let st = copy_step(st, CopyEvent::Pulled(None));
    assert!(matches!(st, CopyState::Done));
}

#[test]
fn transient_write_failure_retries_same_chunk() {
    let st = CopyState::Pulling;
    let st = copy_step(st, CopyEvent::Pulled(Some(Ok(b"abc".to_vec()))));
    let st = copy_step(st, CopyEvent::Written(Err(StorageError::Transient)));
    match &st {
        CopyState::Writing(chunk) => assert_eq!(chunk, &b"abc".to_vec()),
        other => panic!("expected the same chunk to be pending, got {:?}", other_kind(other)),
    }
    let st = copy_step(st, CopyEvent::Written(Ok(())));
    assert!(matches!(st, CopyState::Pulling));
}

#[test]
fn hard_write_failure_aborts() {
    let st = CopyState::Pulling;
    let st = copy_step(st, CopyEvent::Pulled(Some(Ok(b"abc".to_vec()))));
    let st = copy_step(st, CopyEvent::Written(Err(StorageError::PermissionDenied)));
    assert!(matches!(st, CopyState::Failed(StorageError::PermissionDenied)));
}

#[test]
fn source_failure_aborts() {
    let st = CopyState::Pulling;
    let st = copy_step(st, CopyEvent::Pulled(Some(Err(StorageError::BackendFailure))));
    assert!(matches!(st, CopyState::Failed(StorageError::BackendFailure)));
}

fn other_kind(s: &CopyState) -> &'static str {
    match s {
        CopyState::Pulling => "pulling",
        CopyState::Writing(_) => "writing",
        CopyState::Done => "done",
        CopyState::Failed(_) => "failed",
    }
}
