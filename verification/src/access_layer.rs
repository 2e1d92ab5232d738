//! The per-region access layer: single entry point for all durable SST
//! and index I/O of one region directory.
//!
//! `write_sst` drains a one-shot source of row batches into a new SST,
//! either directly against the region's store or delegated to an optional
//! write-through cache that persists locally and uploads; a source that
//! yields nothing is a valid no-op (`None`), not an error, and leaves no
//! file addressable.  On success, parsed file metadata is pushed into the
//! cache manager as a best-effort side effect.  `delete_sst` removes the
//! SST file first and only then its index file: a dangling index without
//! an SST is preferable to the reverse, since correctness downstream only
//! relies on "index implies SST".  `read_sst` hands back a lazily
//! configured reader builder that does no I/O until built.
//!
//! Store provisioning wipes the atomic-write staging subdirectory under
//! the region root, so stale partial writes of a crashed process never
//! resurface.

use vstd::prelude::*;
use crate::bytes::{append_bytes, copy_bytes};
use crate::errors::Error;
use crate::location::{
    index_file_path, index_file_path_spec, lemma_sst_index_paths_distinct, sst_file_path,
    sst_file_path_spec, staging_dir, staging_dir_spec, FileId,
};
use crate::store::{
    get_in, objects_not_under, paths_under, lemma_objects_not_under_idempotent,
    lemma_objects_not_under_props, lemma_paths_under_empty, MemoryStore, StoredObject,
};

verus! {

/// Schema and layout description of a region; the access layer only reads
/// its identifier.
#[derive(Clone, Copy, PartialEq, Eq, Structural, Debug)]
pub struct RegionMetadata {
    pub region_id: u64,
}

/// Descriptor of a committed SST: which region owns it, which file it is,
/// and whether an inverted index file exists beside it.  Constructed at
/// write completion, read-only thereafter.
#[derive(Clone, Copy, PartialEq, Eq, Structural, Debug)]
pub struct FileMeta {
    pub region_id: u64,
    pub file_id: FileId,
    pub inverted_index_available: bool,
}

/// A handle on one committed SST.
#[derive(Clone, Copy, PartialEq, Eq, Structural, Debug)]
pub struct FileHandle {
    pub meta: FileMeta,
}

/// The views of a sequence of byte vectors.
pub open spec fn views_of(bs: Seq<Vec<u8>>) -> Seq<Seq<u8>> {
    Seq::new(bs.len(), |i: int| bs[i]@)
}

/// The byte image of a drained source: its batches, in order.
pub open spec fn flatten_batches(bs: Seq<Seq<u8>>) -> Seq<u8>
    decreases bs.len(),
{
    if bs.len() == 0 {
        Seq::empty()
    } else {
        flatten_batches(bs.drop_last()) + bs.last()
    }
}

/// A one-shot lazy sequence of encoded row batches, produced by the
/// caller and consumed exactly once by the write path.
pub struct Source {
    batches: Vec<Vec<u8>>,
}

impl Source {
    /// The batches still to be drained, in order.
    pub closed spec fn batches_spec(&self) -> Seq<Seq<u8>> {
        views_of(self.batches@)
    }

    /// Bundles `batches` into a source.
    pub fn new(batches: Vec<Vec<u8>>) -> (r: Source)
        ensures
            r.batches_spec() == views_of(batches@),
    {
        Source { batches }
    }

    /// How many batches the source will yield.
    pub fn batch_count(&self) -> (r: usize)
        ensures
            r == self.batches_spec().len(),
    {
        self.batches.len()
    }
}

/// Drains a source into the byte image the SST encoder commits.
fn encode_source(source: &Source) -> (r: Vec<u8>)
    ensures
        r@ == flatten_batches(source.batches_spec()),
{
    let ghost bs = source.batches_spec();
    let mut out: Vec<u8> = Vec::new();
    let mut i: usize = 0;
    while i < source.batches.len()
        invariant
            bs == source.batches_spec(),
            bs.len() == source.batches@.len(),
            0 <= i <= source.batches@.len(),
            out@ == flatten_batches(bs.take(i as int)),
        decreases source.batches@.len() - i,
    {
        proof {
            assert(bs.take(i + 1).drop_last() =~= bs.take(i as int));
            assert(bs.take(i + 1).last() == bs[i as int]);
        }
        append_bytes(&mut out, &source.batches[i]);
        assert(out@ =~= flatten_batches(bs.take(i + 1)));
        i += 1;
    }
    proof {
        assert(bs.take(bs.len() as int) =~= bs);
    }
    out
}

/// Result of a successful SST write: the committed file's size and, when
/// available, parsed file-level metadata suitable for caching.
pub struct SstInfo {
    pub file_size: u64,
    pub file_metadata: Option<Vec<u8>>,
}

/// Knobs of the SST encoder.  The in-memory model encoder commits the
/// drained bytes as they are and reads no knob.
pub struct WriteOptions {
    pub row_group_size: usize,
}

impl Default for WriteOptions {
    fn default() -> (r: WriteOptions)
        ensures
            r.row_group_size == 102400,
    {
        WriteOptions { row_group_size: 102400 }
    }
}

/// Contents to build an SST from.
pub struct SstWriteRequest {
    pub file_id: FileId,
    pub metadata: RegionMetadata,
    pub source: Source,
}

/// One memoized parsed-metadata record of the cache manager.
pub struct MetaEntry {
    pub region_id: u64,
    pub file_id: FileId,
    pub metadata: Vec<u8>,
}

/// The optional write-through cache: persists an SST locally first, then
/// uploads it to the remote store.  Only its contract matters to the
/// access layer; selection is a pure presence check, with no fallback
/// between the cached and the direct path.
pub struct WriteCache {
    local: MemoryStore,
}

impl WriteCache {
    /// The local durability tier.
    pub closed spec fn local_spec(&self) -> MemoryStore {
        self.local
    }

    /// Well-formedness of the local tier.
    pub open spec fn wf(&self) -> bool {
        self.local_spec().wf()
    }

    /// A write cache over an empty local tier.
    pub fn new(local: MemoryStore) -> (r: WriteCache)
        ensures
            r.local_spec() == local,
    {
        WriteCache { local }
    }

    /// The local tier, for inspection.
    pub fn local(&self) -> (r: &MemoryStore)
        ensures
            *r == self.local_spec(),
    {
        &self.local
    }

    /// Persists the drained source locally at the upload path, then
    /// uploads the same bytes to `remote`.  A source yielding no batch is
    /// the empty no-op: `None`, and neither tier is touched.
    pub fn write_and_upload_sst(
        &mut self,
        request: SstUploadRequest,
        _write_opts: &WriteOptions,
        remote: &mut MemoryStore,
    ) -> (r: Result<Option<SstInfo>, Error>)
        requires
            old(self).wf(),
            old(remote).wf(),
        ensures
            final(self).wf(),
            final(remote).wf(),
            r is Ok,
            request.source.batches_spec().len() == 0 ==> (r matches Ok(None) && *final(self)
                == *old(self) && *final(remote) == *old(remote)),
            request.source.batches_spec().len() > 0 ==> (r matches Ok(Some(info))
                && info.file_size == flatten_batches(request.source.batches_spec()).len()
                && (info.file_metadata matches Some(m) && m@ == flatten_batches(
                request.source.batches_spec(),
            )) && get_in(final(remote).objects_seq(), request.upload_path@) == Some(
                flatten_batches(request.source.batches_spec()),
            ) && (forall|q: Seq<u8>|
                q != request.upload_path@ ==> #[trigger] get_in(final(remote).objects_seq(), q)
                    == get_in(old(remote).objects_seq(), q)) && final(self).local_spec().has(request.upload_path@) && final(self).local_spec().at(
                request.upload_path@,
            ) == flatten_batches(request.source.batches_spec())),
            final(remote).deletes_log() == old(remote).deletes_log(),
            final(remote).delete_calls_spec() == old(remote).delete_calls_spec(),
    {
        if request.source.batch_count() == 0 {
            return Ok(None);
        }
        let encoded = encode_source(&request.source);
        let meta = copy_bytes(&encoded);
        let size = encoded.len();
        let local_copy = copy_bytes(&encoded);
        let res_local = self.local.write(&request.upload_path, local_copy);
        let res_remote = remote.write(&request.upload_path, encoded);
        match (res_local, res_remote) {
            (Ok(()), Ok(())) => Ok(
                Some(SstInfo { file_size: size as u64, file_metadata: Some(meta) }),
            ),
            _ => Err(Error::Store { path: copy_bytes(&request.upload_path) }),
        }
    }
}

/// What the access layer hands the write cache for one upload.
pub struct SstUploadRequest {
    pub file_id: FileId,
    pub metadata: RegionMetadata,
    pub source: Source,
    pub upload_path: Vec<u8>,
}

/// Supplies the optional write cache and memoizes parsed file metadata of
/// committed SSTs for later reads.  Population is additive and
/// best-effort: a failure to memoize never fails a write.
pub struct CacheManager {
    write_cache: Option<WriteCache>,
    metas: Vec<MetaEntry>,
}

impl CacheManager {
    /// The optional write cache.
    pub closed spec fn write_cache_spec(&self) -> Option<WriteCache> {
        self.write_cache
    }

    /// The memoized metadata records, oldest first.
    pub closed spec fn metas_seq(&self) -> Seq<MetaEntry> {
        self.metas@
    }

    /// Well-formedness of the contained write cache, if any.
    pub open spec fn wf(&self) -> bool {
        match self.write_cache_spec() {
            Some(wc) => wc.wf(),
            None => true,
        }
    }

    /// A cache manager without a write cache.
    pub fn new() -> (r: CacheManager)
        ensures
            r.write_cache_spec() is None,
            r.metas_seq() == Seq::<MetaEntry>::empty(),
    {
        CacheManager { write_cache: None, metas: Vec::new() }
    }

    /// A cache manager that delegates writes to `write_cache`.
    pub fn with_write_cache(write_cache: WriteCache) -> (r: CacheManager)
        ensures
            r.write_cache_spec() == Some(write_cache),
            r.metas_seq() == Seq::<MetaEntry>::empty(),
    {
        CacheManager { write_cache: Some(write_cache), metas: Vec::new() }
    }

    /// Whether a write cache is present: the whole branch condition of
    /// `write_sst`.
    pub fn write_cache_enabled(&self) -> (r: bool)
        ensures
            r == (self.write_cache_spec() is Some),
    {
        match &self.write_cache {
            Some(_) => true,
            None => false,
        }
    }

    /// The write cache, for inspection.
    pub fn write_cache(&self) -> (r: Option<&WriteCache>)
        ensures
            match r {
                Some(wc) => self.write_cache_spec() == Some(*wc),
                None => self.write_cache_spec() is None,
            },
    {
        match &self.write_cache {
            Some(wc) => Some(wc),
            None => None,
        }
    }

    /// Memoizes parsed file metadata for `(region_id, file_id)`.
    /// Fire and forget: additive, nothing observed by the caller.
    pub fn put_parquet_meta_data(&mut self, region_id: u64, file_id: FileId, metadata: Vec<u8>)
        ensures
            final(self).write_cache_spec() == old(self).write_cache_spec(),
            final(self).metas_seq().len() == old(self).metas_seq().len() + 1,
            final(self).metas_seq().drop_last() == old(self).metas_seq(),
            final(self).metas_seq().last().region_id == region_id,
            final(self).metas_seq().last().file_id == file_id,
            final(self).metas_seq().last().metadata@ == metadata@,
    {
        self.metas.push(MetaEntry { region_id, file_id, metadata });
        proof {
            assert(self.metas@.drop_last() =~= old(self).metas@);
        }
    }

    /// How many metadata records are memoized.
    pub fn meta_count(&self) -> (r: usize)
        ensures
            r == self.metas_seq().len(),
    {
        self.metas.len()
    }

    /// The `i`-th memoized record, oldest first.
    pub fn meta_entry(&self, i: usize) -> (r: &MetaEntry)
        requires
            i < self.metas_seq().len(),
        ensures
            *r == self.metas_seq()[i as int],
    {
        &self.metas[i]
    }
}

/// The direct SST writer: encodes a drained source and commits it at one
/// path of the region's store.  Stands in for the real columnar encoder,
/// whose on-disk format is outside this layer.
pub struct SstWriter {
    file_path: Vec<u8>,
    metadata: RegionMetadata,
}

impl SstWriter {
    /// The path the writer will commit to.
    pub closed spec fn file_path_spec(&self) -> Seq<u8> {
        self.file_path@
    }

    /// A writer bound to `file_path`.
    pub fn new(file_path: Vec<u8>, metadata: RegionMetadata) -> (r: SstWriter)
        ensures
            r.file_path_spec() == file_path@,
    {
        SstWriter { file_path, metadata }
    }

    /// Drains `source` and commits the encoded file, or commits nothing
    /// and returns `None` when the source yields no batch.
    pub fn write_all(
        self,
        source: Source,
        _write_opts: &WriteOptions,
        store: &mut MemoryStore,
    ) -> (r: Result<Option<SstInfo>, Error>)
        requires
            old(store).wf(),
        ensures
            final(store).wf(),
            r is Ok,
            source.batches_spec().len() == 0 ==> (r matches Ok(None) && *final(store) == *old(store)),
            source.batches_spec().len() > 0 ==> (r matches Ok(Some(info)) && info.file_size
                == flatten_batches(source.batches_spec()).len() && (info.file_metadata matches
            Some(m) && m@ == flatten_batches(source.batches_spec())) && get_in(
                final(store).objects_seq(),
                self.file_path_spec(),
            ) == Some(flatten_batches(source.batches_spec())) && (forall|q: Seq<u8>|
                q != self.file_path_spec() ==> #[trigger] get_in(final(store).objects_seq(), q)
                    == get_in(old(store).objects_seq(), q))),
            final(store).deletes_log() == old(store).deletes_log(),
            final(store).delete_calls_spec() == old(store).delete_calls_spec(),
    {
        if source.batch_count() == 0 {
            return Ok(None);
        }
        let encoded = encode_source(&source);
        let meta = copy_bytes(&encoded);
        let size = encoded.len();
        match store.write(&self.file_path, encoded) {
            Ok(()) => Ok(Some(SstInfo { file_size: size as u64, file_metadata: Some(meta) })),
            Err(_) => Err(Error::Store { path: self.file_path }),
        }
    }
}

/// A lazily configured reader of one SST: bound to the region directory,
/// the file handle and nothing else; no byte is fetched before `build`.
pub struct ParquetReaderBuilder {
    region_dir: Vec<u8>,
    file: FileHandle,
}

impl ParquetReaderBuilder {
    /// The region directory the reader is bound to.
    pub closed spec fn region_dir_spec(&self) -> Seq<u8> {
        self.region_dir@
    }

    /// The file handle the reader is bound to.
    pub closed spec fn file_spec(&self) -> FileHandle {
        self.file
    }

    /// Binds a reader to `region_dir` and `file`.
    pub fn new(region_dir: Vec<u8>, file: FileHandle) -> (r: ParquetReaderBuilder)
        ensures
            r.region_dir_spec() == region_dir@,
            r.file_spec() == file,
    {
        ParquetReaderBuilder { region_dir, file }
    }

    /// The SST path the reader will fetch.
    pub fn file_path(&self) -> (r: Vec<u8>)
        ensures
            r@ == sst_file_path_spec(self.region_dir_spec(), self.file_spec().meta.file_id),
    {
        sst_file_path(&self.region_dir, self.file.meta.file_id)
    }

    /// Fetches the SST bytes; fails exactly when the file is not stored.
    pub fn build(&self, store: &MemoryStore) -> (r: Result<Vec<u8>, Error>)
        requires
            store.wf(),
        ensures
            store.has(sst_file_path_spec(self.region_dir_spec(), self.file_spec().meta.file_id))
                ==> (r matches Ok(d) && d@ == store.at(
                sst_file_path_spec(self.region_dir_spec(), self.file_spec().meta.file_id),
            )),
            !store.has(
                sst_file_path_spec(self.region_dir_spec(), self.file_spec().meta.file_id),
            ) ==> r is Err,
    {
        let path = self.file_path();
        store.read(&path)
    }
}

/// A layer to access SST files under one region directory.
pub struct AccessLayer {
    region_dir: Vec<u8>,
    /// Target object store.
    object_store: MemoryStore,
}

impl AccessLayer {
    /// The region directory.
    pub closed spec fn region_dir_spec(&self) -> Seq<u8> {
        self.region_dir@
    }

    /// The store the layer writes against.
    pub closed spec fn store_spec(&self) -> MemoryStore {
        self.object_store
    }

    /// Well-formedness of the underlying store.
    pub open spec fn wf(&self) -> bool {
        self.store_spec().wf()
    }

    /// The stored objects of the region's store.
    pub open spec fn objects(&self) -> Seq<StoredObject> {
        self.store_spec().objects_seq()
    }

    /// Returns a new `AccessLayer` for the given `region_dir`.
    pub fn new(region_dir: Vec<u8>, object_store: MemoryStore) -> (r: AccessLayer)
        ensures
            r.region_dir_spec() == region_dir@,
            r.store_spec() == object_store,
    {
        AccessLayer { region_dir, object_store }
    }

    /// Returns the directory of the region.
    pub fn region_dir(&self) -> (r: &Vec<u8>)
        ensures
            r@ == self.region_dir_spec(),
    {
        &self.region_dir
    }

    /// Returns the object store of the layer.
    pub fn object_store(&self) -> (r: &MemoryStore)
        ensures
            *r == self.store_spec(),
    {
        &self.object_store
    }

    /// Returns a lazily configured reader builder for `file`: no I/O
    /// happens here, so predicates and projections can be added before
    /// any byte is fetched.
    pub fn read_sst(&self, file: FileHandle) -> (r: ParquetReaderBuilder)
        ensures
            r.region_dir_spec() == self.region_dir_spec(),
            r.file_spec() == file,
    {
        ParquetReaderBuilder::new(copy_bytes(&self.region_dir), file)
    }

    /// Deletes an SST file, and then — only if the metadata says one
    /// exists, and only after the SST delete succeeded — its index file.
    /// The SST always goes first: a failed SST delete aborts the sequence
    /// before the index file is touched, and each failure names the file
    /// id and which artifact remains.
    pub fn delete_sst(&mut self, file_meta: &FileMeta) -> (r: Result<(), Error>)
        requires
            old(self).wf(),
        ensures
            final(self).wf(),
            final(self).region_dir_spec() == old(self).region_dir_spec(),
            !final(self).store_spec().has(
                sst_file_path_spec(old(self).region_dir_spec(), file_meta.file_id),
            ),
            file_meta.inverted_index_available && old(self).store_spec().has(
                sst_file_path_spec(old(self).region_dir_spec(), file_meta.file_id),
            ) ==> !final(self).store_spec().has(
                index_file_path_spec(old(self).region_dir_spec(), file_meta.file_id),
            ),
            forall|q: Seq<u8>|
                q != sst_file_path_spec(old(self).region_dir_spec(), file_meta.file_id) && q
                    != index_file_path_spec(old(self).region_dir_spec(), file_meta.file_id)
                    ==> #[trigger] get_in(final(self).objects(), q) == get_in(
                    old(self).objects(),
                    q,
                ),
            !file_meta.inverted_index_available ==> forall|q: Seq<u8>|
                q != sst_file_path_spec(old(self).region_dir_spec(), file_meta.file_id)
                    ==> #[trigger] get_in(final(self).objects(), q) == get_in(
                    old(self).objects(),
                    q,
                ),
            !old(self).store_spec().has(
                sst_file_path_spec(old(self).region_dir_spec(), file_meta.file_id),
            ) ==> (final(self).objects() == old(self).objects() && (r matches Err(e)
                && e.is_delete_sst_of(file_meta.file_id)) && final(self).store_spec().deletes_log() == old(self).store_spec().deletes_log().push(
                sst_file_path_spec(old(self).region_dir_spec(), file_meta.file_id),
            )),
            old(self).store_spec().has(
                sst_file_path_spec(old(self).region_dir_spec(), file_meta.file_id),
            ) && !file_meta.inverted_index_available ==> (r is Ok && final(self).store_spec().deletes_log() == old(self).store_spec().deletes_log().push(
                sst_file_path_spec(old(self).region_dir_spec(), file_meta.file_id),
            )),
            old(self).store_spec().has(
                sst_file_path_spec(old(self).region_dir_spec(), file_meta.file_id),
            ) && file_meta.inverted_index_available ==> (final(self).store_spec().deletes_log() == old(self).store_spec().deletes_log().push(
                sst_file_path_spec(old(self).region_dir_spec(), file_meta.file_id),
            ).push(index_file_path_spec(old(self).region_dir_spec(), file_meta.file_id)) && (
            old(self).store_spec().has(
                index_file_path_spec(old(self).region_dir_spec(), file_meta.file_id),
            ) ==> r is Ok) && (!old(self).store_spec().has(
                index_file_path_spec(old(self).region_dir_spec(), file_meta.file_id),
            ) ==> (r matches Err(e) && e.is_delete_index_of(file_meta.file_id)))),
            (!old(self).store_spec().has(
                sst_file_path_spec(old(self).region_dir_spec(), file_meta.file_id),
            ) || !file_meta.inverted_index_available) ==> final(self).store_spec().delete_calls_spec() == crate::store::sat_add64(
                old(self).store_spec().delete_calls_spec(),
                1,
            ),
            old(self).store_spec().has(
                sst_file_path_spec(old(self).region_dir_spec(), file_meta.file_id),
            ) && file_meta.inverted_index_available ==> final(self).store_spec().delete_calls_spec() == crate::store::sat_add64(
                crate::store::sat_add64(old(self).store_spec().delete_calls_spec(), 1),
                1,
            ),
    {
        let path = sst_file_path(&self.region_dir, file_meta.file_id);
        proof {
            lemma_sst_index_paths_distinct(
                self.region_dir@,
                file_meta.file_id,
                file_meta.file_id,
            );
        }
        match self.object_store.delete(&path) {
            Ok(()) => {},
            Err(_) => {
                return Err(Error::DeleteSst { file_id: file_meta.file_id });
            },
        }
        if file_meta.inverted_index_available {
            let index_path = index_file_path(&self.region_dir, file_meta.file_id);
            match self.object_store.delete(&index_path) {
                Ok(()) => {},
                Err(_) => {
                    return Err(Error::DeleteIndex { file_id: file_meta.file_id });
                },
            }
        }
        Ok(())
    }

    /// Writes an SST with the request's file id to the layer.  If the
    /// cache manager supplies a write cache, the entire write is delegated
    /// to it; otherwise a direct writer drains the source against the
    /// region's store.  Both branches return the same result shape.  When
    /// the result carries parsed file metadata, it is pushed into the
    /// cache manager keyed by (region id, file id) — a best-effort side
    /// effect after the committed write, never before it.  Returns `None`
    /// when the source yielded nothing; no file is created then.
    pub fn write_sst(
        &mut self,
        request: SstWriteRequest,
        write_opts: &WriteOptions,
        cache_manager: &mut CacheManager,
    ) -> (r: Result<Option<SstInfo>, Error>)
        requires
            old(self).wf(),
            old(cache_manager).wf(),
        ensures
            final(self).wf(),
            final(cache_manager).wf(),
            final(self).region_dir_spec() == old(self).region_dir_spec(),
            r is Ok,
            final(self).store_spec().deletes_log() == old(self).store_spec().deletes_log(),
            final(self).store_spec().delete_calls_spec() == old(self).store_spec().delete_calls_spec(),
            request.source.batches_spec().len() == 0 ==> (r matches Ok(None) && *final(self)
                == *old(self) && *final(cache_manager) == *old(cache_manager)),
            request.source.batches_spec().len() > 0 ==> (r matches Ok(Some(info))
                && info.file_size == flatten_batches(request.source.batches_spec()).len() && (
            info.file_metadata matches Some(m) && m@ == flatten_batches(
                request.source.batches_spec(),
            )) && get_in(
                final(self).objects(),
                sst_file_path_spec(old(self).region_dir_spec(), request.file_id),
            ) == Some(flatten_batches(request.source.batches_spec())) && (forall|q: Seq<u8>|
                q != sst_file_path_spec(old(self).region_dir_spec(), request.file_id)
                    ==> #[trigger] get_in(final(self).objects(), q) == get_in(
                    old(self).objects(),
                    q,
                )) && final(cache_manager).metas_seq().len() == old(cache_manager).metas_seq().len() + 1 && final(cache_manager).metas_seq().drop_last() == old(cache_manager).metas_seq() && final(cache_manager).metas_seq().last().region_id
                == request.metadata.region_id && final(cache_manager).metas_seq().last().file_id
                == request.file_id && final(cache_manager).metas_seq().last().metadata@
                == flatten_batches(request.source.batches_spec()) && (old(cache_manager).write_cache_spec() is Some ==> (final(cache_manager).write_cache_spec() matches
            Some(wc) && wc.local_spec().has(
                sst_file_path_spec(old(self).region_dir_spec(), request.file_id),
            ) && wc.local_spec().at(
                sst_file_path_spec(old(self).region_dir_spec(), request.file_id),
            ) == flatten_batches(request.source.batches_spec()))) && (old(cache_manager).write_cache_spec() is None ==> final(cache_manager).write_cache_spec() is None)),
    {
        let file_path = sst_file_path(&self.region_dir, request.file_id);
        let region_id = request.metadata.region_id;
        let SstWriteRequest { file_id, metadata, source } = request;
        let ghost n_batches = source.batches_spec().len();

        let sst_info_res = match &mut cache_manager.write_cache {
            Some(write_cache) => {
                // Write through the write cache, which uploads to the
                // region's remote store.
                write_cache.write_and_upload_sst(
                    SstUploadRequest { file_id, metadata, source, upload_path: file_path },
                    write_opts,
                    &mut self.object_store,
                )
            },
            None => {
                // Write cache is disabled: drain the source directly.
                let writer = SstWriter::new(file_path, metadata);
                writer.write_all(source, write_opts, &mut self.object_store)
            },
        };
        let sst_info = match sst_info_res {
            Ok(info) => info,
            Err(e) => {
                // Unreachable: both write paths promise success.
                proof {
                    assert(false);
                }
                return Err(e);
            },
        };

        // Put parsed file metadata into the cache manager; best effort,
        // never failing the committed write.
        if let Some(info) = &sst_info {
            if let Some(parquet_metadata) = &info.file_metadata {
                cache_manager.put_parquet_meta_data(
                    region_id,
                    file_id,
                    copy_bytes(parquet_metadata),
                );
            }
        }

        Ok(sst_info)
    }
}

/// Cleans the directory `dir`: nothing of it remains in the store.
/// Cleaning an absent directory is success.
pub fn clean_dir(store: &mut MemoryStore, dir: &Vec<u8>) -> (r: Result<(), Error>)
    requires
        old(store).wf(),
    ensures
        final(store).wf(),
        r is Ok,
        final(store).objects_seq() == objects_not_under(old(store).objects_seq(), dir@),
        forall|q: Seq<u8>|
            dir@.is_prefix_of(q) ==> #[trigger] get_in(final(store).objects_seq(), q) is None,
        forall|q: Seq<u8>|
            !dir@.is_prefix_of(q) ==> #[trigger] get_in(final(store).objects_seq(), q) == get_in(
                old(store).objects_seq(),
                q,
            ),
        final(store).deletes_log() == old(store).deletes_log(),
        final(store).delete_calls_spec() == old(store).delete_calls_spec(),
{
    proof {
        lemma_objects_not_under_props(store.objects_seq(), dir@);
    }
    store.remove_all(dir)
}

/// Provisions a store rooted at `root` for atomic writes: wipes the
/// dedicated staging subdirectory, so stale partial writes of a crashed
/// process never resurface, and returns the staging path.  Provisioning
/// never fails on a surviving store, however often it is repeated.
pub fn provision_store(store: &mut MemoryStore, root: &Vec<u8>) -> (r: Result<Vec<u8>, Error>)
    requires
        old(store).wf(),
    ensures
        final(store).wf(),
        r matches Ok(d) && d@ == staging_dir_spec(root@),
        final(store).objects_seq() == objects_not_under(
            old(store).objects_seq(),
            staging_dir_spec(root@),
        ),
        forall|q: Seq<u8>|
            staging_dir_spec(root@).is_prefix_of(q) ==> #[trigger] get_in(
                final(store).objects_seq(),
                q,
            ) is None,
        forall|q: Seq<u8>|
            !staging_dir_spec(root@).is_prefix_of(q) ==> #[trigger] get_in(
                final(store).objects_seq(),
                q,
            ) == get_in(old(store).objects_seq(), q),
{
    let staging = staging_dir(root);
    match clean_dir(store, &staging) {
        Ok(()) => Ok(staging),
        Err(e) => {
            // Unreachable: cleaning a directory cannot fail here.
            proof {
                assert(false);
            }
            Err(e)
        },
    }
}

/// Provisioning twice in a row — a process restart after a crash mid
/// write — cannot fail and leaves the staging subdirectory empty both
/// times: the first pass empties it, and the second finds it empty and
/// changes nothing at all.
pub proof fn lemma_provision_idempotent(s: Seq<StoredObject>, root: Seq<u8>)
    requires
        crate::store::distinct_paths(s),
    ensures
        paths_under(
            objects_not_under(s, staging_dir_spec(root)),
            staging_dir_spec(root),
        ).len() == 0,
        objects_not_under(
            objects_not_under(s, staging_dir_spec(root)),
            staging_dir_spec(root),
        ) == objects_not_under(s, staging_dir_spec(root)),
{
    let staging = staging_dir_spec(root);
    lemma_objects_not_under_props(s, staging);
    lemma_paths_under_empty(objects_not_under(s, staging), staging);
    lemma_objects_not_under_idempotent(s, staging);
}

} // verus!
