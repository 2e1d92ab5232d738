//! Path resolution: determinism, exact renderings, and collision freedom.

use mito2::location::{sst_file_path, index_file_path, staging_dir, FileId, IntermediateLocation};

#[test]
fn file_id_hex_rendering() {
    assert_eq!(
        FileId::new(0x10).hex(),
        b"00000000000000000000000000000010".to_vec()
    );
    assert_eq!(
        FileId::new(0xdeadbeef).hex(),
        b"000000000000000000000000deadbeef".to_vec()
    );
    assert_eq!(
        FileId::new(u128::MAX).hex(),
        b"ffffffffffffffffffffffffffffffff".to_vec()
    );
}

#[test]
fn sst_path_is_deterministic() {
    let dir = b"data/region42".to_vec();
    let id = FileId::new(0xab);
    let p1 = sst_file_path(&dir, id);
    let p2 = sst_file_path(&dir, id);
    assert_eq!(p1, p2);
    assert_eq!(
        p1,
        b"data/region42/000000000000000000000000000000ab.parquet".to_vec()
    );
}

#[test]
fn distinct_file_ids_never_collide() {
    let dir = b"data/region42".to_vec();
    let a = sst_file_path(&dir, FileId::new(1));
    let b = sst_file_path(&dir, FileId::new(2));
    assert_ne!(a, b);
    let ia = index_file_path(&dir, FileId::new(1));
    let ib = index_file_path(&dir, FileId::new(2));
    assert_ne!(ia, ib);
    // Same id, different purpose: still two different files.
    assert_ne!(a, ia);
}

#[test]
fn index_path_rendering() {
    let dir = b"r".to_vec();
    assert_eq!(
        index_file_path(&dir, FileId::new(0x1)),
        b"r/index/00000000000000000000000000000001.puffin".to_vec()
    );
}

#[test]
fn staging_dir_rendering() {
    assert_eq!(staging_dir(&b"root".to_vec()), b"root/.tmp/".to_vec());
}

#[test]
fn intermediate_location_paths() {
    let loc = IntermediateLocation::new(&b"region_dir".to_vec(), FileId::new(0x2a));
    let root = loc.root_path().clone();
    assert_eq!(
        root,
        b"region_dir/index_intermediate/0000000000000000000000000000002a/".to_vec()
    );
    let col = loc.column_path(&b"tag0".to_vec());
    assert_eq!(
        col,
        b"region_dir/index_intermediate/0000000000000000000000000000002a/tag0/".to_vec()
    );
    let file = loc.file_path(&b"tag0".to_vec(), &b"0000000010".to_vec());
    assert_eq!(
        file,
        b"region_dir/index_intermediate/0000000000000000000000000000002a/tag0/0000000010.im"
            .to_vec()
    );
}

#[test]
fn distinct_scratch_keys_never_collide() {
    let loc = IntermediateLocation::new(&b"region_dir".to_vec(), FileId::new(0x2a));
    let a = loc.file_path(&b"tag0".to_vec(), &b"0000000010".to_vec());
    let b = loc.file_path(&b"tag0".to_vec(), &b"0000000011".to_vec());
    let c = loc.file_path(&b"tag1".to_vec(), &b"0000000010".to_vec());
    assert_ne!(a, b);
    assert_ne!(a, c);
    assert_ne!(b, c);
}
