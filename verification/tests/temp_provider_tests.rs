//! The scratch-file provider: spill, merge-read, isolation, cleanup.

use mito2::instrument::InstrumentedStore;
use mito2::location::{FileId, IntermediateLocation};
use mito2::store::MemoryStore;
use mito2::temp_provider::TempFileProvider;

fn new_provider() -> TempFileProvider {
    let location = IntermediateLocation::new(&b"region_dir".to_vec(), FileId::new(0x7));
    let store = InstrumentedStore::new(MemoryStore::new());
    TempFileProvider::new(location, store)
}

fn spill(provider: &mut TempFileProvider, column: &[u8], run: &[u8], data: &[u8]) {
    let mut writer = provider.create(&column.to_vec(), &run.to_vec()).unwrap();
    writer.write_all(&data.to_vec());
    writer.flush();
    provider.close(writer).unwrap();
}

#[test]
fn test_temp_file_provider_basic() {
    let mut provider = new_provider();

    let column_name = b"tag0";
    spill(&mut provider, column_name, b"0000000010", b"hello");
    spill(&mut provider, column_name, b"0000000100", b"world");

    let column_name = b"tag1";
    spill(&mut provider, column_name, b"0000000010", b"foo");

    let readers = provider.read_all(&b"tag0".to_vec()).unwrap();
    assert_eq!(readers.len(), 2);
    for mut reader in readers {
        let buf = reader.read_to_end();
        assert!(matches!(buf.as_slice(), b"hello" | b"world"));
    }
    let readers = provider.read_all(&b"tag1".to_vec()).unwrap();
    assert_eq!(readers.len(), 1);
    let mut reader = readers.into_iter().next().unwrap();
    let buf = reader.read_to_end();
    assert_eq!(buf, b"foo".to_vec());

    provider.cleanup().unwrap();

    let root = provider.root_path().clone();
    assert!(provider.list(&root).is_empty());
}

#[test]
fn columns_do_not_mix() {
    let mut provider = new_provider();
    spill(&mut provider, b"tag0", b"0000000010", b"zero");
    spill(&mut provider, b"tag1", b"0000000010", b"one");
    // Same run id under two columns: each column sees only its own run.
    let mut readers = provider.read_all(&b"tag0".to_vec()).unwrap();
    assert_eq!(readers.len(), 1);
    assert_eq!(readers[0].read_to_end(), b"zero".to_vec());
    let mut readers = provider.read_all(&b"tag1".to_vec()).unwrap();
    assert_eq!(readers.len(), 1);
    assert_eq!(readers[0].read_to_end(), b"one".to_vec());
}

#[test]
fn empty_column_reads_empty() {
    let mut provider = new_provider();
    spill(&mut provider, b"tag0", b"0000000010", b"x");
    let readers = provider.read_all(&b"tag9".to_vec()).unwrap();
    assert!(readers.is_empty());
}

#[test]
fn directory_markers_are_skipped() {
    // A backend may report directory markers in a listing; read_all must
    // skip them instead of failing.
    let location = IntermediateLocation::new(&b"region_dir".to_vec(), FileId::new(0x7));
    let marker = {
        let mut p = location.column_path(&b"tag0".to_vec());
        p.extend_from_slice(b"sub/");
        p
    };
    let mut mem = MemoryStore::new();
    mem.write(&marker, b"".to_vec()).unwrap();
    let store = InstrumentedStore::new(mem);
    let mut provider = TempFileProvider::new(location, store);
    spill(&mut provider, b"tag0", b"0000000010", b"real");
    assert_eq!(provider.list(&provider.root_path().clone()).len(), 2);
    let mut readers = provider.read_all(&b"tag0".to_vec()).unwrap();
    assert_eq!(readers.len(), 1);
    assert_eq!(readers[0].read_to_end(), b"real".to_vec());
}

#[test]
fn cleanup_is_idempotent() {
    let mut provider = new_provider();
    spill(&mut provider, b"tag0", b"0000000010", b"a");
    spill(&mut provider, b"tag1", b"0000000020", b"b");
    provider.cleanup().unwrap();
    let root = provider.root_path().clone();
    assert!(provider.list(&root).is_empty());
    // Cleaning an already empty build succeeds and changes nothing.
    provider.cleanup().unwrap();
    assert!(provider.list(&root).is_empty());
}

#[test]
fn metrics_count_logical_io() {
    let mut provider = new_provider();
    let mut writer = provider.create(&b"tag0".to_vec(), &b"0000000010".to_vec()).unwrap();
    writer.write_all(&b"hel".to_vec());
    writer.write_all(&b"lo".to_vec());
    writer.flush();
    provider.close(writer).unwrap();
    let m = provider.metrics();
    assert_eq!(m.write_ops, 2);
    assert_eq!(m.write_bytes, 5);
    assert_eq!(m.flush_ops, 1);
    assert_eq!(m.read_ops, 0);
    let _ = provider.read_all(&b"tag0".to_vec()).unwrap();
    let m = provider.metrics();
    assert_eq!(m.read_ops, 1);
    assert_eq!(m.read_bytes, 5);
}

#[test]
fn reader_is_exhausted_after_read_to_end() {
    let mut provider = new_provider();
    spill(&mut provider, b"tag0", b"0000000010", b"abc");
    let mut readers = provider.read_all(&b"tag0".to_vec()).unwrap();
    assert_eq!(readers[0].read_to_end(), b"abc".to_vec());
    assert_eq!(readers[0].read_to_end(), b"".to_vec());
}
