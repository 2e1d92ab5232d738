//! The instrumented store wrapper.
//!
//! Wraps the object store and counts the logical I/O cost of index
//! construction: bytes and operations of scratch-file writes, flushes and
//! reads.  The counters live here, not in the backend, so they reflect
//! index-build cost and are passed along explicitly instead of living in
//! ambient global state.  All counters saturate at `u64::MAX`.

use vstd::prelude::*;
use crate::bytes::copy_bytes;
use crate::errors::Error;
use crate::store::{
    get_in, paths_under, objects_not_under, sat_add, sat_add64, ListEntry, MemoryStore,
    StoredObject,
};

verus! {

/// Counters of logical I/O during index construction.
#[derive(Clone, Copy, PartialEq, Eq, Structural, Debug)]
pub struct StoreMetrics {
    pub write_ops: u64,
    pub write_bytes: u64,
    pub flush_ops: u64,
    pub read_ops: u64,
    pub read_bytes: u64,
}

impl StoreMetrics {
    /// All counters at zero.
    pub fn zeroed() -> (r: StoreMetrics)
        ensures
            r == (StoreMetrics {
                write_ops: 0,
                write_bytes: 0,
                flush_ops: 0,
                read_ops: 0,
                read_bytes: 0,
            }),
    {
        StoreMetrics { write_ops: 0, write_bytes: 0, flush_ops: 0, read_ops: 0, read_bytes: 0 }
    }
}

/// A write handle for one scratch file: buffers the written bytes and the
/// counter deltas they cost, and commits both when closed through the
/// store that issued it.
pub struct ScratchWriter {
    path: Vec<u8>,
    buf: Vec<u8>,
    write_ops: u64,
    write_bytes: u64,
    flush_ops: u64,
}

impl ScratchWriter {
    /// The path the handle will commit to.
    pub closed spec fn path_spec(&self) -> Seq<u8> {
        self.path@
    }

    /// The bytes written so far.
    pub closed spec fn buf_spec(&self) -> Seq<u8> {
        self.buf@
    }

    /// Pending write-operation count.
    pub closed spec fn write_ops_spec(&self) -> u64 {
        self.write_ops
    }

    /// Pending written-byte count.
    pub closed spec fn write_bytes_spec(&self) -> u64 {
        self.write_bytes
    }

    /// Pending flush-operation count.
    pub closed spec fn flush_ops_spec(&self) -> u64 {
        self.flush_ops
    }

    /// Appends `data` to the scratch file being written.
    pub fn write_all(&mut self, data: &Vec<u8>)
        ensures
            final(self).path_spec() == old(self).path_spec(),
            final(self).buf_spec() == old(self).buf_spec() + data@,
            final(self).write_ops_spec() == sat_add64(old(self).write_ops_spec(), 1),
            final(self).write_bytes_spec() == sat_add64(
                old(self).write_bytes_spec(),
                data@.len() as u64,
            ),
            final(self).flush_ops_spec() == old(self).flush_ops_spec(),
    {
        crate::bytes::append_bytes(&mut self.buf, data);
        self.write_ops = sat_add(self.write_ops, 1);
        self.write_bytes = sat_add(self.write_bytes, data.len() as u64);
    }

    /// Records a flush of the handle.  Buffered bytes stay buffered until
    /// the handle is closed; a flush only counts.
    pub fn flush(&mut self)
        ensures
            final(self).path_spec() == old(self).path_spec(),
            final(self).buf_spec() == old(self).buf_spec(),
            final(self).write_ops_spec() == old(self).write_ops_spec(),
            final(self).write_bytes_spec() == old(self).write_bytes_spec(),
            final(self).flush_ops_spec() == sat_add64(old(self).flush_ops_spec(), 1),
    {
        self.flush_ops = sat_add(self.flush_ops, 1);
    }
}

/// A read handle over one scratch file, its content already fetched.
pub struct ScratchReader {
    content: Vec<u8>,
    pos: usize,
}

impl ScratchReader {
    /// The full content behind the handle.
    pub closed spec fn content_spec(&self) -> Seq<u8> {
        self.content@
    }

    /// How far the handle has been read.
    pub closed spec fn pos_spec(&self) -> int {
        self.pos as int
    }

    /// The read position never passes the end.
    pub open spec fn wf(&self) -> bool {
        0 <= self.pos_spec() <= self.content_spec().len()
    }

    /// Reads everything left behind the handle.
    pub fn read_to_end(&mut self) -> (r: Vec<u8>)
        requires
            old(self).wf(),
        ensures
            final(self).wf(),
            r@ == old(self).content_spec().skip(old(self).pos_spec()),
            final(self).content_spec() == old(self).content_spec(),
            final(self).pos_spec() == old(self).content_spec().len(),
    {
        let mut out: Vec<u8> = Vec::new();
        while self.pos < self.content.len()
            invariant
                old(self).pos_spec() <= self.pos <= self.content.len(),
                self.content@ == old(self).content_spec(),
                out@ =~= old(self).content_spec().subrange(
                    old(self).pos_spec(),
                    self.pos as int,
                ),
            decreases self.content.len() - self.pos,
        {
            out.push(self.content[self.pos]);
            assert(out@ =~= old(self).content_spec().subrange(
                old(self).pos_spec(),
                self.pos + 1,
            ));
            self.pos += 1;
        }
        assert(out@ =~= old(self).content_spec().skip(old(self).pos_spec()));
        out
    }
}

/// The object store wrapped with index-construction metrics.
pub struct InstrumentedStore {
    store: MemoryStore,
    metrics: StoreMetrics,
}

impl InstrumentedStore {
    /// The wrapped store.
    pub closed spec fn inner(&self) -> MemoryStore {
        self.store
    }

    /// The metrics gathered so far.
    pub closed spec fn metrics_spec(&self) -> StoreMetrics {
        self.metrics
    }

    /// Well-formedness of the wrapped store.
    pub open spec fn wf(&self) -> bool {
        self.inner().wf()
    }

    /// The stored objects, in store order.
    pub open spec fn objects(&self) -> Seq<StoredObject> {
        self.inner().objects_seq()
    }

    /// Wraps `store`, with all counters at zero.
    pub fn new(store: MemoryStore) -> (r: InstrumentedStore)
        ensures
            r.inner() == store,
            r.metrics_spec() == (StoreMetrics {
                write_ops: 0,
                write_bytes: 0,
                flush_ops: 0,
                read_ops: 0,
                read_bytes: 0,
            }),
    {
        InstrumentedStore { store, metrics: StoreMetrics::zeroed() }
    }

    /// Reads the metrics.
    pub fn metrics(&self) -> (r: StoreMetrics)
        ensures
            r == self.metrics_spec(),
    {
        self.metrics
    }

    /// Opens a write handle on `path`.  No object appears until the handle
    /// is closed through `close_writer`.
    pub fn writer(&self, path: &Vec<u8>) -> (r: ScratchWriter)
        ensures
            r.path_spec() == path@,
            r.buf_spec() == Seq::<u8>::empty(),
            r.write_ops_spec() == 0,
            r.write_bytes_spec() == 0,
            r.flush_ops_spec() == 0,
    {
        ScratchWriter {
            path: copy_bytes(path),
            buf: Vec::new(),
            write_ops: 0,
            write_bytes: 0,
            flush_ops: 0,
        }
    }

    /// Commits a write handle: stores its buffered bytes at its path and
    /// merges its pending counters into the metrics.
    pub fn close_writer(&mut self, w: ScratchWriter) -> (r: Result<(), Error>)
        requires
            old(self).wf(),
        ensures
            final(self).wf(),
            r is Ok,
            final(self).inner().has(w.path_spec()),
            final(self).inner().at(w.path_spec()) == w.buf_spec(),
            forall|q: Seq<u8>|
                q != w.path_spec() ==> #[trigger] get_in(final(self).objects(), q) == get_in(
                    old(self).objects(),
                    q,
                ),
            final(self).inner().deletes_log() == old(self).inner().deletes_log(),
            final(self).inner().delete_calls_spec() == old(self).inner().delete_calls_spec(),
            final(self).metrics_spec() == (StoreMetrics {
                write_ops: sat_add64(old(self).metrics_spec().write_ops, w.write_ops_spec()),
                write_bytes: sat_add64(
                    old(self).metrics_spec().write_bytes,
                    w.write_bytes_spec(),
                ),
                flush_ops: sat_add64(old(self).metrics_spec().flush_ops, w.flush_ops_spec()),
                read_ops: old(self).metrics_spec().read_ops,
                read_bytes: old(self).metrics_spec().read_bytes,
            }),
    {
        let ScratchWriter { path, buf, write_ops, write_bytes, flush_ops } = w;
        let res = self.store.write(&path, buf);
        self.metrics.write_ops = sat_add(self.metrics.write_ops, write_ops);
        self.metrics.write_bytes = sat_add(self.metrics.write_bytes, write_bytes);
        self.metrics.flush_ops = sat_add(self.metrics.flush_ops, flush_ops);
        res
    }

    /// Opens a read handle on `path`, counting the read; fails exactly
    /// when no object is there.
    pub fn read_object(&mut self, path: &Vec<u8>) -> (r: Result<ScratchReader, Error>)
        requires
            old(self).wf(),
        ensures
            final(self).wf(),
            final(self).inner() == old(self).inner(),
            r is Ok <==> old(self).inner().has(path@),
            old(self).inner().has(path@) ==> (r matches Ok(rd) && rd.content_spec() == old(
                self,
            ).inner().at(path@) && rd.pos_spec() == 0 && rd.wf()),
            !old(self).inner().has(path@) ==> (r matches Err(e) && e.is_store_on(path@)),
            final(self).metrics_spec().write_ops == old(self).metrics_spec().write_ops,
            final(self).metrics_spec().write_bytes == old(self).metrics_spec().write_bytes,
            final(self).metrics_spec().flush_ops == old(self).metrics_spec().flush_ops,
    {
        match self.store.read(path) {
            Ok(content) => {
                self.metrics.read_ops = sat_add(self.metrics.read_ops, 1);
                self.metrics.read_bytes = sat_add(self.metrics.read_bytes, content.len() as u64);
                Ok(ScratchReader { content, pos: 0 })
            },
            Err(e) => Err(e),
        }
    }

    /// Lists the paths under `prefix`, in store order.
    pub fn list(&self, prefix: &Vec<u8>) -> (r: Vec<ListEntry>)
        requires
            self.wf(),
        ensures
            r@.len() == paths_under(self.objects(), prefix@).len(),
            forall|k: int|
                0 <= k < r@.len() ==> (#[trigger] r@[k]).path@ == paths_under(
                    self.objects(),
                    prefix@,
                )[k] && r@[k].is_dir == crate::bytes::is_dir_path(
                    paths_under(self.objects(), prefix@)[k],
                ),
    {
        self.store.list(prefix)
    }

    /// Recursively deletes everything under `prefix`.
    pub fn remove_all(&mut self, prefix: &Vec<u8>) -> (r: Result<(), Error>)
        requires
            old(self).wf(),
        ensures
            final(self).wf(),
            r is Ok,
            final(self).objects() == objects_not_under(old(self).objects(), prefix@),
            forall|q: Seq<u8>| prefix@.is_prefix_of(q) ==> !(#[trigger] final(self).inner().has(
                q,
            )),
            forall|q: Seq<u8>|
                !prefix@.is_prefix_of(q) ==> #[trigger] get_in(final(self).objects(), q)
                    == get_in(old(self).objects(), q),
            final(self).inner().deletes_log() == old(self).inner().deletes_log(),
            final(self).inner().delete_calls_spec() == old(self).inner().delete_calls_spec(),
            final(self).metrics_spec() == old(self).metrics_spec(),
    {
        self.store.remove_all(prefix)
    }

    /// The content at `path` (test and diagnostic surface; counts as a
    /// read like any other).
    pub fn read_object_bytes(&mut self, path: &Vec<u8>) -> (r: Result<Vec<u8>, Error>)
        requires
            old(self).wf(),
        ensures
            final(self).wf(),
            final(self).inner() == old(self).inner(),
            r is Ok <==> old(self).inner().has(path@),
            old(self).inner().has(path@) ==> (r matches Ok(d) && d@ == old(self).inner().at(
                path@,
            )),
    {
        match self.read_object(path) {
            Ok(mut rd) => Ok(rd.read_to_end()),
            Err(e) => Err(e),
        }
    }
}

} // verus!
