//! The keyed scratch-file provider for external index construction.
//!
//! The inverted-index builder sorts more data than fits in memory by
//! spilling partially sorted per-column runs and merging them later.  This
//! provider gives it the whole storage contract it needs: `create` opens a
//! write handle for one `(column, run)` key, `read_all` reopens every run
//! of a column for the merge, and `cleanup` purges the build's entire
//! scratch subtree.  The builder stays unaware of paths and backends.
//!
//! `read_all` returns the runs as an unordered collection of already
//! sorted inputs; a listing entry classified as a directory marker is
//! skipped, which is an anomaly of some backends and not a failure.

use vstd::prelude::*;
use crate::bytes::is_dir_path;
use crate::errors::Error;
use crate::instrument::{InstrumentedStore, ScratchReader, ScratchWriter, StoreMetrics};
use crate::location::{
    column_path_spec, scratch_file_path_spec, IntermediateLocation, lemma_column_paths_disjoint,
    lemma_column_prefix_of_file, lemma_scratch_file_not_dir, slash_free,
};
use crate::store::{
    at_in, get_in, objects_not_under, paths_under, sat_add64, lemma_objects_not_under_idempotent,
    lemma_objects_not_under_props, lemma_paths_under_contains, lemma_paths_under_empty,
    lemma_paths_under_props, ListEntry, StoredObject,
};

verus! {

/// The paths in `ps` that are not directory markers, in order.
pub open spec fn non_dir(ps: Seq<Seq<u8>>) -> Seq<Seq<u8>>
    decreases ps.len(),
{
    if ps.len() == 0 {
        Seq::empty()
    } else {
        let rest = non_dir(ps.drop_last());
        if is_dir_path(ps.last()) {
            rest
        } else {
            rest.push(ps.last())
        }
    }
}

/// The scratch files `read_all` opens for a column directory `dir`: every
/// stored path under it that is not a directory marker, in store order.
pub open spec fn scratch_files(s: Seq<StoredObject>, dir: Seq<u8>) -> Seq<Seq<u8>> {
    non_dir(paths_under(s, dir))
}

/// Every path kept by `non_dir` comes from `ps` and is no directory.
pub proof fn lemma_non_dir_props(ps: Seq<Seq<u8>>)
    ensures
        forall|k: int|
            0 <= k < non_dir(ps).len() ==> ps.contains(#[trigger] non_dir(ps)[k])
                && !is_dir_path(non_dir(ps)[k]),
    decreases ps.len(),
{
    if ps.len() > 0 {
        lemma_non_dir_props(ps.drop_last());
        let nd = non_dir(ps);
        let rest = non_dir(ps.drop_last());
        assert forall|k: int|
            0 <= k < nd.len() implies ps.contains(#[trigger] nd[k]) && !is_dir_path(
            nd[k],
        ) by {
            if k < rest.len() {
                assert(nd[k] == rest[k]);
                assert(ps.drop_last().contains(rest[k]));
                let j = choose|j: int|
                    0 <= j < ps.drop_last().len() && ps.drop_last()[j] == rest[k];
                assert(ps[j] == rest[k]);
            } else {
                assert(nd[k] == ps.last());
                assert(ps[ps.len() - 1] == ps.last());
            }
        }
    }
}

/// A non-directory path of `ps` is kept by `non_dir`.
pub proof fn lemma_non_dir_contains(ps: Seq<Seq<u8>>, p: Seq<u8>)
    requires
        ps.contains(p),
        !is_dir_path(p),
    ensures
        non_dir(ps).contains(p),
    decreases ps.len(),
{
    assert(ps.len() > 0);
    let rest = non_dir(ps.drop_last());
    if ps.last() == p {
        assert(non_dir(ps) == rest.push(p));
        assert(non_dir(ps)[non_dir(ps).len() - 1] == p);
    } else {
        let j = choose|j: int| 0 <= j < ps.len() && ps[j] == p;
        assert(ps.drop_last()[j] == p);
        assert(ps.drop_last().contains(p));
        lemma_non_dir_contains(ps.drop_last(), p);
        let k = choose|k: int| 0 <= k < rest.len() && rest[k] == p;
        assert(non_dir(ps)[k] == p);
        assert(non_dir(ps).contains(p));
    }
}

/// The scratch-file provider of one index build.
pub struct TempFileProvider {
    /// Provides the location of the build's scratch files.
    location: IntermediateLocation,
    /// Provides instrumented access to the files in the object store.
    store: InstrumentedStore,
}

impl TempFileProvider {
    /// The location the provider resolves scratch keys against.
    pub closed spec fn location_spec(&self) -> IntermediateLocation {
        self.location
    }

    /// The instrumented store the provider works on.
    pub closed spec fn store_spec(&self) -> InstrumentedStore {
        self.store
    }

    /// The build's scratch root.
    pub open spec fn root(&self) -> Seq<u8> {
        self.location_spec().root_spec()
    }

    /// The objects of the underlying store.
    pub open spec fn objects(&self) -> Seq<StoredObject> {
        self.store_spec().objects()
    }

    /// Well-formedness of the underlying store.
    pub open spec fn wf(&self) -> bool {
        self.store_spec().wf()
    }

    /// Creates a new `TempFileProvider` for one build.
    pub fn new(location: IntermediateLocation, store: InstrumentedStore) -> (r: TempFileProvider)
        ensures
            r.location_spec() == location,
            r.store_spec() == store,
    {
        TempFileProvider { location, store }
    }

    /// The metrics the store has gathered for this build.
    pub fn metrics(&self) -> (r: StoreMetrics)
        ensures
            r == self.store_spec().metrics_spec(),
    {
        self.store.metrics()
    }

    /// Lists the stored paths under `prefix` (diagnostic and test surface).
    pub fn list(&self, prefix: &Vec<u8>) -> (r: Vec<ListEntry>)
        requires
            self.wf(),
        ensures
            r@.len() == paths_under(self.objects(), prefix@).len(),
            forall|k: int|
                0 <= k < r@.len() ==> (#[trigger] r@[k]).path@ == paths_under(
                    self.objects(),
                    prefix@,
                )[k],
    {
        self.store.list(prefix)
    }

    /// The build's scratch root path.
    pub fn root_path(&self) -> (r: &Vec<u8>)
        ensures
            r@ == self.root(),
    {
        self.location.root_path()
    }

    /// Opens a write handle for the scratch file of `(column_id, file_id)`.
    /// The file appears in the store once the handle is closed through
    /// `close`.  No two creations within one build are expected to share a
    /// key; a repeated key overwrites at close time.
    pub fn create(&self, column_id: &Vec<u8>, file_id: &Vec<u8>) -> (r: Result<
        ScratchWriter,
        Error,
    >)
        ensures
            r matches Ok(w) && w.path_spec() == scratch_file_path_spec(
                self.root(),
                column_id@,
                file_id@,
            ) && w.buf_spec() == Seq::<u8>::empty() && w.write_ops_spec() == 0
                && w.write_bytes_spec() == 0 && w.flush_ops_spec() == 0,
    {
        let path = self.location.file_path(column_id, file_id);
        Ok(self.store.writer(&path))
    }

    /// Commits a write handle: its buffered bytes become the stored
    /// scratch file, and its pending counters join the metrics.
    pub fn close(&mut self, w: ScratchWriter) -> (r: Result<(), Error>)
        requires
            old(self).wf(),
        ensures
            final(self).wf(),
            r is Ok,
            final(self).location_spec() == old(self).location_spec(),
            get_in(final(self).objects(), w.path_spec()) == Some(w.buf_spec()),
            forall|q: Seq<u8>|
                q != w.path_spec() ==> #[trigger] get_in(final(self).objects(), q) == get_in(
                    old(self).objects(),
                    q,
                ),
            final(self).store_spec().inner().deletes_log() == old(
                self,
            ).store_spec().inner().deletes_log(),
            final(self).store_spec().metrics_spec() == (StoreMetrics {
                write_ops: sat_add64(
                    old(self).store_spec().metrics_spec().write_ops,
                    w.write_ops_spec(),
                ),
                write_bytes: sat_add64(
                    old(self).store_spec().metrics_spec().write_bytes,
                    w.write_bytes_spec(),
                ),
                flush_ops: sat_add64(
                    old(self).store_spec().metrics_spec().flush_ops,
                    w.flush_ops_spec(),
                ),
                read_ops: old(self).store_spec().metrics_spec().read_ops,
                read_bytes: old(self).store_spec().metrics_spec().read_bytes,
            }),
    {
        self.store.close_writer(w)
    }

    /// Opens a read handle on every scratch file of `column_id`, in store
    /// order; the merge above treats them as an unordered set of sorted
    /// runs.  A directory marker in the listing is skipped; a column with
    /// no runs yields an empty sequence, not an error.
    pub fn read_all(&mut self, column_id: &Vec<u8>) -> (r: Result<Vec<ScratchReader>, Error>)
        requires
            old(self).wf(),
        ensures
            final(self).wf(),
            final(self).objects() == old(self).objects(),
            final(self).location_spec() == old(self).location_spec(),
            final(self).store_spec().metrics_spec().write_ops == old(
                self,
            ).store_spec().metrics_spec().write_ops,
            final(self).store_spec().metrics_spec().write_bytes == old(
                self,
            ).store_spec().metrics_spec().write_bytes,
            final(self).store_spec().metrics_spec().flush_ops == old(
                self,
            ).store_spec().metrics_spec().flush_ops,
            r matches Ok(v) && v@.len() == scratch_files(
                old(self).objects(),
                column_path_spec(old(self).root(), column_id@),
            ).len() && forall|k: int|
                0 <= k < v@.len() ==> (#[trigger] v@[k]).content_spec() == at_in(
                    old(self).objects(),
                    scratch_files(
                        old(self).objects(),
                        column_path_spec(old(self).root(), column_id@),
                    )[k],
                ) && v@[k].pos_spec() == 0 && v@[k].wf(),
    {
        let column_path = self.location.column_path(column_id);
        let entries = self.store.list(&column_path);
        let ghost objs = self.objects();
        let ghost pu = paths_under(objs, column_path@);
        proof {
            lemma_paths_under_props(objs, column_path@);
        }
        let mut readers: Vec<ScratchReader> = Vec::new();
        let mut i: usize = 0;
        while i < entries.len()
            invariant
                self.wf(),
                self.store_spec().inner() == old(self).store_spec().inner(),
                self.store_spec().metrics_spec().write_ops == old(
                    self,
                ).store_spec().metrics_spec().write_ops,
                self.store_spec().metrics_spec().write_bytes == old(
                    self,
                ).store_spec().metrics_spec().write_bytes,
                self.store_spec().metrics_spec().flush_ops == old(
                    self,
                ).store_spec().metrics_spec().flush_ops,
                self.location == old(self).location,
                objs == self.objects(),
                pu == paths_under(objs, column_path@),
                entries@.len() == pu.len(),
                forall|k: int|
                    0 <= k < entries@.len() ==> (#[trigger] entries@[k]).path@ == pu[k]
                        && entries@[k].is_dir == is_dir_path(pu[k]),
                forall|k: int|
                    0 <= k < pu.len() ==> #[trigger] get_in(objs, pu[k]) is Some,
                0 <= i <= entries@.len(),
                readers@.len() == non_dir(pu.take(i as int)).len(),
                forall|k: int|
                    0 <= k < readers@.len() ==> (#[trigger] readers@[k]).content_spec()
                        == at_in(objs, non_dir(pu.take(i as int))[k]) && readers@[k].pos_spec()
                        == 0 && readers@[k].wf(),
            decreases entries@.len() - i,
        {
            proof {
                assert(pu.take(i + 1).drop_last() =~= pu.take(i as int));
                assert(pu.take(i + 1).last() == pu[i as int]);
            }
            if !entries[i].is_dir {
                match self.store.read_object(&entries[i].path) {
                    Ok(rd) => {
                        readers.push(rd);
                    },
                    Err(e) => {
                        // Unreachable: every listed path was just shown
                        // to be readable.
                        proof {
                            assert(false);
                        }
                        return Err(e);
                    },
                }
            }
            i += 1;
        }
        proof {
            assert(pu.take(pu.len() as int) =~= pu);
        }
        Ok(readers)
    }

    /// Removes all scratch files of this build: everything under the
    /// build's root, recursively.  Purging an already empty subtree is
    /// success, and a second `cleanup` finds nothing left.  Must run once
    /// per build, also on abort paths.
    pub fn cleanup(&mut self) -> (r: Result<(), Error>)
        requires
            old(self).wf(),
        ensures
            final(self).wf(),
            r is Ok,
            final(self).location_spec() == old(self).location_spec(),
            final(self).store_spec().metrics_spec() == old(self).store_spec().metrics_spec(),
            final(self).objects() == objects_not_under(old(self).objects(), old(self).root()),
            forall|q: Seq<u8>|
                old(self).root().is_prefix_of(q) ==> #[trigger] get_in(
                    final(self).objects(),
                    q,
                ) is None,
            forall|q: Seq<u8>|
                !old(self).root().is_prefix_of(q) ==> #[trigger] get_in(
                    final(self).objects(),
                    q,
                ) == get_in(old(self).objects(), q),
    {
        proof {
            lemma_objects_not_under_props(self.objects(), self.root());
        }
        self.store.remove_all(self.location.root_path())
    }
}

/// Round trip: bytes committed for `(column, run)` come back through
/// `read_all(column)`.  The committed path is among the scratch files the
/// column listing opens, and what is stored there is exactly the committed
/// bytes; by the contract of `read_all`, some returned handle holds them.
pub proof fn lemma_scratch_round_trip(
    s: Seq<StoredObject>,
    root: Seq<u8>,
    column: Seq<u8>,
    run: Seq<u8>,
    b: Seq<u8>,
)
    requires
        get_in(s, scratch_file_path_spec(root, column, run)) == Some(b),
    ensures
        scratch_files(s, column_path_spec(root, column)).contains(
            scratch_file_path_spec(root, column, run),
        ),
        at_in(s, scratch_file_path_spec(root, column, run)) == b,
{
    let fp = scratch_file_path_spec(root, column, run);
    let cp = column_path_spec(root, column);
    lemma_column_prefix_of_file(root, column, run);
    lemma_paths_under_contains(s, cp, fp);
    lemma_scratch_file_not_dir(root, column, run);
    lemma_non_dir_contains(paths_under(s, cp), fp);
}

/// Isolation: `read_all` of one column never opens a file written under
/// another column of the same build, for distinct slash-free column ids.
pub proof fn lemma_columns_isolated(
    s: Seq<StoredObject>,
    root: Seq<u8>,
    c1: Seq<u8>,
    c2: Seq<u8>,
)
    requires
        c1 != c2,
        slash_free(c1),
        slash_free(c2),
    ensures
        forall|k: int|
            0 <= k < scratch_files(s, column_path_spec(root, c1)).len()
                ==> !column_path_spec(root, c2).is_prefix_of(
                #[trigger] scratch_files(s, column_path_spec(root, c1))[k],
            ),
{
    let cp1 = column_path_spec(root, c1);
    let pu = paths_under(s, cp1);
    let sf = scratch_files(s, cp1);
    lemma_paths_under_props(s, cp1);
    lemma_non_dir_props(pu);
    assert forall|k: int|
        0 <= k < sf.len() implies !column_path_spec(root, c2).is_prefix_of(
        #[trigger] sf[k],
    ) by {
        assert(pu.contains(sf[k]));
        let j = choose|j: int| 0 <= j < pu.len() && pu[j] == sf[k];
        assert(cp1.is_prefix_of(pu[j]));
        lemma_column_paths_disjoint(root, c1, c2, sf[k]);
    }
}

/// Cleanup is complete and idempotent: after `cleanup`, listing the
/// build's root finds nothing, however many columns and runs were
/// created, and a second `cleanup` leaves the store exactly as it is.
pub proof fn lemma_cleanup_complete(s: Seq<StoredObject>, root: Seq<u8>)
    requires
        crate::store::distinct_paths(s),
    ensures
        paths_under(objects_not_under(s, root), root).len() == 0,
        objects_not_under(objects_not_under(s, root), root) == objects_not_under(s, root),
{
    lemma_objects_not_under_props(s, root);
    lemma_paths_under_empty(objects_not_under(s, root), root);
    lemma_objects_not_under_idempotent(s, root);
}

} // verus!
