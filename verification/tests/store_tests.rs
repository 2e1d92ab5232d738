//! The in-memory object store: contents, listing, delete audit.

use mito2::store::MemoryStore;

#[test]
fn write_read_round_trip() {
    let mut store = MemoryStore::new();
    let path = b"a/b".to_vec();
    store.write(&path, b"hello".to_vec()).unwrap();
    assert!(store.contains(&path));
    assert_eq!(store.read(&path).unwrap(), b"hello".to_vec());
}

#[test]
fn write_overwrites() {
    let mut store = MemoryStore::new();
    let path = b"a/b".to_vec();
    store.write(&path, b"one".to_vec()).unwrap();
    store.write(&path, b"two".to_vec()).unwrap();
    assert_eq!(store.read(&path).unwrap(), b"two".to_vec());
    assert_eq!(store.list(&b"a/".to_vec()).len(), 1);
}

#[test]
fn read_missing_is_store_error() {
    let store = MemoryStore::new();
    assert!(store.read(&b"nope".to_vec()).is_err());
}

#[test]
fn delete_removes_and_counts() {
    let mut store = MemoryStore::new();
    let path = b"a/b".to_vec();
    store.write(&path, b"x".to_vec()).unwrap();
    assert_eq!(store.delete_call_count(), 0);
    store.delete(&path).unwrap();
    assert_eq!(store.delete_call_count(), 1);
    assert!(!store.contains(&path));
    // Deleting a missing object fails and is still counted as a call.
    assert!(store.delete(&path).is_err());
    assert_eq!(store.delete_call_count(), 2);
}

#[test]
fn list_by_prefix_and_dir_markers() {
    let mut store = MemoryStore::new();
    store.write(&b"x/a".to_vec(), b"1".to_vec()).unwrap();
    store.write(&b"x/b".to_vec(), b"2".to_vec()).unwrap();
    store.write(&b"x/sub/".to_vec(), b"".to_vec()).unwrap();
    store.write(&b"y/c".to_vec(), b"3".to_vec()).unwrap();
    let entries = store.list(&b"x/".to_vec());
    assert_eq!(entries.len(), 3);
    let dirs: Vec<bool> = entries.iter().map(|e| e.is_dir).collect();
    assert_eq!(dirs.iter().filter(|d| **d).count(), 1);
    let all = store.list(&b"".to_vec());
    assert_eq!(all.len(), 4);
}

#[test]
fn remove_all_purges_subtree_only() {
    let mut store = MemoryStore::new();
    store.write(&b"x/a".to_vec(), b"1".to_vec()).unwrap();
    store.write(&b"x/b".to_vec(), b"2".to_vec()).unwrap();
    store.write(&b"y/c".to_vec(), b"3".to_vec()).unwrap();
    store.remove_all(&b"x/".to_vec()).unwrap();
    assert!(store.list(&b"x/".to_vec()).is_empty());
    assert!(store.contains(&b"y/c".to_vec()));
    // Removing nothing is success, not an error.
    store.remove_all(&b"x/".to_vec()).unwrap();
    // A batch purge is not a delete call.
    assert_eq!(store.delete_call_count(), 0);
}
