//! The access layer: SST writes (direct and cached), deletes, readers,
//! and store provisioning.

use mito2::access_layer::{
    clean_dir, provision_store, AccessLayer, CacheManager, FileHandle, FileMeta,
    RegionMetadata, Source, SstWriteRequest, WriteCache, WriteOptions,
};
use mito2::errors::Error;
use mito2::location::{sst_file_path, index_file_path, FileId};
use mito2::store::MemoryStore;

fn new_layer() -> AccessLayer {
    AccessLayer::new(b"data/region1".to_vec(), MemoryStore::new())
}

fn request(file_id: FileId, batches: Vec<Vec<u8>>) -> SstWriteRequest {
    SstWriteRequest {
        file_id,
        metadata: RegionMetadata { region_id: 11 },
        source: Source::new(batches),
    }
}

#[test]
fn write_sst_empty_source_is_none() {
    let mut layer = new_layer();
    let mut cache = CacheManager::new();
    let id = FileId::new(0x1);
    let result = layer
        .write_sst(request(id, vec![]), &WriteOptions::default(), &mut cache)
        .unwrap();
    assert!(result.is_none());
    // No file is addressable at the computed SST path.
    let path = sst_file_path(&b"data/region1".to_vec(), id);
    assert!(!layer.object_store().contains(&path));
    // And nothing was memoized.
    assert_eq!(cache.meta_count(), 0);
}

#[test]
fn write_sst_direct_commits_and_memoizes() {
    let mut layer = new_layer();
    let mut cache = CacheManager::new();
    let id = FileId::new(0x2);
    let info = layer
        .write_sst(
            request(id, vec![b"ab".to_vec(), b"cde".to_vec()]),
            &WriteOptions::default(),
            &mut cache,
        )
        .unwrap()
        .unwrap();
    assert_eq!(info.file_size, 5);
    assert_eq!(info.file_metadata.as_ref().unwrap(), &b"abcde".to_vec());
    let path = sst_file_path(&b"data/region1".to_vec(), id);
    assert_eq!(layer.object_store().read(&path).unwrap(), b"abcde".to_vec());
    // Metadata was pushed into the cache manager, keyed by region and file.
    assert_eq!(cache.meta_count(), 1);
    let entry = cache.meta_entry(0);
    assert_eq!(entry.region_id, 11);
    assert_eq!(entry.file_id, id);
    assert_eq!(entry.metadata, b"abcde".to_vec());
}

#[test]
fn write_sst_through_write_cache() {
    let mut layer = new_layer();
    let mut cache = CacheManager::with_write_cache(WriteCache::new(MemoryStore::new()));
    let id = FileId::new(0x3);
    let info = layer
        .write_sst(
            request(id, vec![b"xyz".to_vec()]),
            &WriteOptions::default(),
            &mut cache,
        )
        .unwrap()
        .unwrap();
    assert_eq!(info.file_size, 3);
    let path = sst_file_path(&b"data/region1".to_vec(), id);
    // The remote store got the upload.
    assert_eq!(layer.object_store().read(&path).unwrap(), b"xyz".to_vec());
    // The local tier persisted the same bytes.
    let wc = cache.write_cache().unwrap();
    assert_eq!(wc.local().read(&path).unwrap(), b"xyz".to_vec());
    assert_eq!(cache.meta_count(), 1);
}

#[test]
fn delete_sst_without_index_is_one_delete() {
    let mut layer = new_layer();
    let mut cache = CacheManager::new();
    let id = FileId::new(0x4);
    layer
        .write_sst(
            request(id, vec![b"d".to_vec()]),
            &WriteOptions::default(),
            &mut cache,
        )
        .unwrap();
    let meta = FileMeta { region_id: 11, file_id: id, inverted_index_available: false };
    layer.delete_sst(&meta).unwrap();
    // Exactly one delete call was issued: the SST only.
    assert_eq!(layer.object_store().delete_call_count(), 1);
    let path = sst_file_path(&b"data/region1".to_vec(), id);
    assert!(!layer.object_store().contains(&path));
}

#[test]
fn delete_sst_with_index_is_two_deletes_sst_first() {
    let dir = b"data/region1".to_vec();
    let id = FileId::new(0x5);
    let sst_path = sst_file_path(&dir, id);
    let index_path = index_file_path(&dir, id);
    // A committed SST with its index file beside it.
    // (Index construction itself is outside the access layer.)
    let mut mem = MemoryStore::new();
    mem.write(&sst_path, b"data".to_vec()).unwrap();
    mem.write(&index_path, b"index".to_vec()).unwrap();
    let mut layer = AccessLayer::new(dir, mem);
    let meta = FileMeta { region_id: 11, file_id: id, inverted_index_available: true };
    layer.delete_sst(&meta).unwrap();
    // Exactly two delete calls were issued, SST before index.
    assert_eq!(layer.object_store().delete_call_count(), 2);
    assert!(!layer.object_store().contains(&sst_path));
    assert!(!layer.object_store().contains(&index_path));
}

#[test]
fn delete_sst_reports_which_artifact_remains() {
    // SST present, index missing although announced: the SST goes, and
    // the failure names the index delete.
    let dir = b"data/region1".to_vec();
    let id = FileId::new(0x8);
    let sst_path = sst_file_path(&dir, id);
    let mut mem = MemoryStore::new();
    mem.write(&sst_path, b"data".to_vec()).unwrap();
    let mut layer = AccessLayer::new(dir, mem);
    let meta = FileMeta { region_id: 11, file_id: id, inverted_index_available: true };
    let err = layer.delete_sst(&meta).unwrap_err();
    assert!(matches!(err, Error::DeleteIndex { file_id } if file_id == id));
    assert_eq!(layer.object_store().delete_call_count(), 2);
    assert!(!layer.object_store().contains(&sst_path));
}

#[test]
fn delete_sst_missing_file_fails_and_keeps_index_delete_unattempted() {
    let mut layer = new_layer();
    let id = FileId::new(0x6);
    let meta = FileMeta { region_id: 11, file_id: id, inverted_index_available: true };
    let err = layer.delete_sst(&meta).unwrap_err();
    assert!(matches!(err, Error::DeleteSst { file_id } if file_id == id));
    // The failed first delete aborts the sequence: one call only.
    assert_eq!(layer.object_store().delete_call_count(), 1);
}

#[test]
fn read_sst_builder_is_lazy_and_reads_back() {
    let mut layer = new_layer();
    let mut cache = CacheManager::new();
    let id = FileId::new(0x7);
    layer
        .write_sst(
            request(id, vec![b"row".to_vec()]),
            &WriteOptions::default(),
            &mut cache,
        )
        .unwrap();
    let meta = FileMeta { region_id: 11, file_id: id, inverted_index_available: false };
    let builder = layer.read_sst(FileHandle { meta });
    assert_eq!(
        builder.file_path(),
        sst_file_path(&b"data/region1".to_vec(), id)
    );
    let bytes = builder.build(layer.object_store()).unwrap();
    assert_eq!(bytes, b"row".to_vec());
}

#[test]
fn provisioning_twice_leaves_staging_empty() {
    let mut store = MemoryStore::new();
    // A crash mid-write left stale staging files behind.
    store.write(&b"root/.tmp/partial1".to_vec(), b"junk".to_vec()).unwrap();
    store.write(&b"root/.tmp/partial2".to_vec(), b"junk".to_vec()).unwrap();
    store.write(&b"root/keep.parquet".to_vec(), b"data".to_vec()).unwrap();

    let staging = provision_store(&mut store, &b"root".to_vec()).unwrap();
    assert_eq!(staging, b"root/.tmp/".to_vec());
    assert!(store.list(&staging).is_empty());
    assert!(store.contains(&b"root/keep.parquet".to_vec()));

    // Provisioning again right away — a restart — must not fail and must
    // leave the staging subdirectory empty again.
    let staging = provision_store(&mut store, &b"root".to_vec()).unwrap();
    assert!(store.list(&staging).is_empty());
    assert!(store.contains(&b"root/keep.parquet".to_vec()));
}

#[test]
fn clean_dir_purges_only_that_dir() {
    let mut store = MemoryStore::new();
    store.write(&b"d/a".to_vec(), b"1".to_vec()).unwrap();
    store.write(&b"e/b".to_vec(), b"2".to_vec()).unwrap();
    clean_dir(&mut store, &b"d/".to_vec()).unwrap();
    assert!(!store.contains(&b"d/a".to_vec()));
    assert!(store.contains(&b"e/b".to_vec()));
    // Cleaning an absent directory is success.
    clean_dir(&mut store, &b"d/".to_vec()).unwrap();
}
