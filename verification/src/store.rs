//! The in-memory object store backend.
//!
//! The access layer consumes a uniform object-store capability: write,
//! read, delete, list-by-prefix, recursive remove.  This module gives the
//! verified backend the library is specified against: a flat namespace of
//! byte-string paths mapping to byte-string objects.  Remote or
//! filesystem-backed stores live outside the library and expose the same
//! surface.
//!
//! Beside its contents the store keeps an audit of delete traffic: an
//! executable counter of delete calls and a ghost log of the deleted paths
//! in order, which the delete-ordering contracts of the access layer are
//! stated over.  `remove_all` is one batch operation of its own and does
//! not count as delete calls.

use vstd::prelude::*;
use crate::bytes::{bytes_eq, copy_bytes, ends_with_slash, is_dir_path, starts_with};
use crate::errors::Error;

verus! {

/// One stored object: a path and its bytes.
pub struct StoredObject {
    pub path: Vec<u8>,
    pub data: Vec<u8>,
}

/// One listing entry: the path of an object under the listed prefix, and
/// whether the backend classifies it as a directory marker.
pub struct ListEntry {
    pub path: Vec<u8>,
    pub is_dir: bool,
}

/// `a + b`, stopping at the largest `u64`.
pub open spec fn sat_add64(a: u64, b: u64) -> u64 {
    if a + b <= u64::MAX {
        (a + b) as u64
    } else {
        u64::MAX
    }
}

/// Adds `b` to `a`, stopping at the largest `u64`.
pub fn sat_add(a: u64, b: u64) -> (r: u64)
    ensures
        r == sat_add64(a, b),
{
    if a <= u64::MAX - b {
        a + b
    } else {
        u64::MAX
    }
}

/// No two objects share a path.
pub open spec fn distinct_paths(s: Seq<StoredObject>) -> bool {
    forall|i: int, j: int| 0 <= i < j < s.len() ==> s[i].path@ != s[j].path@
}

/// The bytes stored at `p`, reading the object sequence back to front.
pub open spec fn get_in(s: Seq<StoredObject>, p: Seq<u8>) -> Option<Seq<u8>>
    decreases s.len(),
{
    if s.len() == 0 {
        None
    } else if s.last().path@ == p {
        Some(s.last().data@)
    } else {
        get_in(s.drop_last(), p)
    }
}

/// The paths of the objects under `pfx`, in store order.
pub open spec fn paths_under(s: Seq<StoredObject>, pfx: Seq<u8>) -> Seq<Seq<u8>>
    decreases s.len(),
{
    if s.len() == 0 {
        Seq::empty()
    } else {
        let rest = paths_under(s.drop_last(), pfx);
        if pfx.is_prefix_of(s.last().path@) {
            rest.push(s.last().path@)
        } else {
            rest
        }
    }
}

/// The objects whose paths do not lie under `pfx`, in store order.
pub open spec fn objects_not_under(s: Seq<StoredObject>, pfx: Seq<u8>) -> Seq<StoredObject>
    decreases s.len(),
{
    if s.len() == 0 {
        Seq::empty()
    } else {
        let rest = objects_not_under(s.drop_last(), pfx);
        if pfx.is_prefix_of(s.last().path@) {
            rest
        } else {
            rest.push(s.last())
        }
    }
}

/// The objects whose path is not exactly `p`, in store order.
pub open spec fn objects_without(s: Seq<StoredObject>, p: Seq<u8>) -> Seq<StoredObject>
    decreases s.len(),
{
    if s.len() == 0 {
        Seq::empty()
    } else {
        let rest = objects_without(s.drop_last(), p);
        if s.last().path@ == p {
            rest
        } else {
            rest.push(s.last())
        }
    }
}

/// The bytes stored at `p` in `s` (meaningful when something is).
pub open spec fn at_in(s: Seq<StoredObject>, p: Seq<u8>) -> Seq<u8> {
    match get_in(s, p) {
        Some(d) => d,
        None => Seq::empty(),
    }
}

/// A path is absent exactly when no object carries it.
pub proof fn lemma_get_in_absent(s: Seq<StoredObject>, p: Seq<u8>)
    ensures
        (get_in(s, p) is None) <==> (forall|i: int| 0 <= i < s.len() ==> s[i].path@ != p),
    decreases s.len(),
{
    if s.len() > 0 {
        lemma_get_in_absent(s.drop_last(), p);
        assert(forall|i: int| 0 <= i < s.len() - 1 ==> s.drop_last()[i] == s[i]);
    }
}

/// With distinct paths, the object at index `i` is what reads of its path
/// return.
pub proof fn lemma_get_in_at_index(s: Seq<StoredObject>, i: int)
    requires
        distinct_paths(s),
        0 <= i < s.len(),
    ensures
        get_in(s, s[i].path@) == Some(s[i].data@),
    decreases s.len(),
{
    if i == s.len() - 1 {
    } else {
        assert(s.last().path@ != s[i].path@);
        assert(distinct_paths(s.drop_last())) by {
            assert(forall|x: int| 0 <= x < s.len() - 1 ==> s.drop_last()[x] == s[x]);
        }
        lemma_get_in_at_index(s.drop_last(), i);
    }
}

/// Every listed path lies under the prefix and is readable.
pub proof fn lemma_paths_under_props(s: Seq<StoredObject>, pfx: Seq<u8>)
    ensures
        forall|k: int|
            0 <= k < paths_under(s, pfx).len() ==> pfx.is_prefix_of(
                #[trigger] paths_under(s, pfx)[k],
            ) && get_in(s, paths_under(s, pfx)[k]) is Some,
    decreases s.len(),
{
    if s.len() > 0 {
        lemma_paths_under_props(s.drop_last(), pfx);
        let pu = paths_under(s, pfx);
        let rest = paths_under(s.drop_last(), pfx);
        assert forall|k: int|
            0 <= k < pu.len() implies pfx.is_prefix_of(#[trigger] pu[k]) && get_in(
            s,
            pu[k],
        ) is Some by {
            if k < rest.len() {
                assert(pu[k] == rest[k]);
                assert(get_in(s.drop_last(), rest[k]) is Some);
            } else {
                assert(pu[k] == s.last().path@);
            }
        }
    }
}

/// A stored path under the prefix appears in the listing.
pub proof fn lemma_paths_under_contains(s: Seq<StoredObject>, pfx: Seq<u8>, p: Seq<u8>)
    requires
        get_in(s, p) is Some,
        pfx.is_prefix_of(p),
    ensures
        paths_under(s, pfx).contains(p),
    decreases s.len(),
{
    assert(s.len() > 0);
    let pu = paths_under(s, pfx);
    let rest = paths_under(s.drop_last(), pfx);
    if s.last().path@ == p {
        assert(pu == rest.push(p));
        assert(pu[pu.len() - 1] == p);
    } else {
        lemma_paths_under_contains(s.drop_last(), pfx, p);
        let k = choose|k: int| 0 <= k < rest.len() && rest[k] == p;
        assert(pu[k] == p);
    }
}

/// When nothing lies under the prefix, the listing is empty.
pub proof fn lemma_paths_under_empty(s: Seq<StoredObject>, pfx: Seq<u8>)
    requires
        forall|p: Seq<u8>| pfx.is_prefix_of(p) ==> #[trigger] get_in(s, p) is None,
    ensures
        paths_under(s, pfx).len() == 0,
{
    lemma_paths_under_props(s, pfx);
    if paths_under(s, pfx).len() > 0 {
        assert(get_in(s, paths_under(s, pfx)[0]) is Some);
    }
}

/// What purging a subtree leaves: distinct paths, nothing under the
/// prefix, everything else untouched.
pub proof fn lemma_objects_not_under_props(s: Seq<StoredObject>, pfx: Seq<u8>)
    requires
        distinct_paths(s),
    ensures
        distinct_paths(objects_not_under(s, pfx)),
        forall|q: Seq<u8>|
            pfx.is_prefix_of(q) ==> #[trigger] get_in(objects_not_under(s, pfx), q) is None,
        forall|q: Seq<u8>|
            !pfx.is_prefix_of(q) ==> #[trigger] get_in(objects_not_under(s, pfx), q) == get_in(
                s,
                q,
            ),
    decreases s.len(),
{
    if s.len() > 0 {
        assert(distinct_paths(s.drop_last())) by {
            assert(forall|x: int| 0 <= x < s.len() - 1 ==> s.drop_last()[x] == s[x]);
        }
        lemma_objects_not_under_props(s.drop_last(), pfx);
        let rest = objects_not_under(s.drop_last(), pfx);
        if !pfx.is_prefix_of(s.last().path@) {
            assert(objects_not_under(s, pfx) == rest.push(s.last()));
            assert(get_in(s.drop_last(), s.last().path@) is None) by {
                lemma_get_in_absent(s.drop_last(), s.last().path@);
                assert(forall|x: int| 0 <= x < s.len() - 1 ==> s.drop_last()[x] == s[x]);
            }
            assert(get_in(rest, s.last().path@) is None);
            assert(distinct_paths(rest.push(s.last()))) by {
                lemma_get_in_absent(rest, s.last().path@);
            }
            assert(rest.push(s.last()).drop_last() =~= rest);
            assert forall|q: Seq<u8>|
                pfx.is_prefix_of(q) implies #[trigger] get_in(
                objects_not_under(s, pfx),
                q,
            ) is None by {
                assert(s.last().path@ != q);
                assert(get_in(rest.push(s.last()), q) == get_in(rest, q));
            }
            assert forall|q: Seq<u8>|
                !pfx.is_prefix_of(q) implies #[trigger] get_in(objects_not_under(s, pfx), q)
                == get_in(s, q) by {
                if s.last().path@ == q {
                    assert(get_in(rest.push(s.last()), q) == Some(s.last().data@));
                } else {
                    assert(get_in(rest.push(s.last()), q) == get_in(rest, q));
                    assert(get_in(s, q) == get_in(s.drop_last(), q));
                }
            }
        } else {
            assert(objects_not_under(s, pfx) == rest);
            assert forall|q: Seq<u8>|
                !pfx.is_prefix_of(q) implies #[trigger] get_in(objects_not_under(s, pfx), q)
                == get_in(s, q) by {
                assert(s.last().path@ != q);
                assert(get_in(s, q) == get_in(s.drop_last(), q));
            }
        }
    }
}

/// What deleting one path leaves: distinct paths, that path gone,
/// everything else untouched.
pub proof fn lemma_objects_without_props(s: Seq<StoredObject>, p: Seq<u8>)
    requires
        distinct_paths(s),
    ensures
        distinct_paths(objects_without(s, p)),
        get_in(objects_without(s, p), p) is None,
        forall|q: Seq<u8>|
            q != p ==> #[trigger] get_in(objects_without(s, p), q) == get_in(s, q),
    decreases s.len(),
{
    if s.len() > 0 {
        assert(distinct_paths(s.drop_last())) by {
            assert(forall|x: int| 0 <= x < s.len() - 1 ==> s.drop_last()[x] == s[x]);
        }
        lemma_objects_without_props(s.drop_last(), p);
        let rest = objects_without(s.drop_last(), p);
        if s.last().path@ != p {
            assert(objects_without(s, p) == rest.push(s.last()));
            assert(get_in(s.drop_last(), s.last().path@) is None) by {
                lemma_get_in_absent(s.drop_last(), s.last().path@);
                assert(forall|x: int| 0 <= x < s.len() - 1 ==> s.drop_last()[x] == s[x]);
            }
            assert(get_in(rest, s.last().path@) is None);
            assert(distinct_paths(rest.push(s.last()))) by {
                lemma_get_in_absent(rest, s.last().path@);
            }
            assert(rest.push(s.last()).drop_last() =~= rest);
            assert forall|q: Seq<u8>|
                q != p implies #[trigger] get_in(objects_without(s, p), q) == get_in(
                s,
                q,
            ) by {
                if s.last().path@ == q {
                    assert(get_in(rest.push(s.last()), q) == Some(s.last().data@));
                } else {
                    assert(get_in(rest.push(s.last()), q) == get_in(rest, q));
                    assert(get_in(s, q) == get_in(s.drop_last(), q));
                }
            }
            assert(get_in(rest.push(s.last()), p) == get_in(rest, p));
        } else {
            assert(objects_without(s, p) == rest);
            assert forall|q: Seq<u8>|
                q != p implies #[trigger] get_in(objects_without(s, p), q) == get_in(
                s,
                q,
            ) by {
                assert(s.last().path@ != q);
                assert(get_in(s, q) == get_in(s.drop_last(), q));
            }
        }
    }
}

/// A path that is nowhere in `s` is not deleted by `objects_without`:
/// the sequence is returned whole.
pub proof fn lemma_objects_without_absent(s: Seq<StoredObject>, p: Seq<u8>)
    requires
        get_in(s, p) is None,
    ensures
        objects_without(s, p) == s,
    decreases s.len(),
{
    if s.len() > 0 {
        lemma_objects_without_absent(s.drop_last(), p);
        assert(objects_without(s, p) =~= s);
    }
}

/// Purging a subtree twice changes nothing the second time.
pub proof fn lemma_objects_not_under_idempotent(s: Seq<StoredObject>, pfx: Seq<u8>)
    ensures
        objects_not_under(objects_not_under(s, pfx), pfx) == objects_not_under(s, pfx),
    decreases s.len(),
{
    if s.len() > 0 {
        lemma_objects_not_under_idempotent(s.drop_last(), pfx);
        let rest = objects_not_under(s.drop_last(), pfx);
        if !pfx.is_prefix_of(s.last().path@) {
            let whole = rest.push(s.last());
            assert(whole.drop_last() =~= rest);
            assert(objects_not_under(whole, pfx) =~= objects_not_under(rest, pfx).push(
                s.last(),
            ));
        }
    }
}

/// The in-memory object store: a flat namespace of byte-string paths, each
/// holding one object, plus an audit of delete traffic.
pub struct MemoryStore {
    objects: Vec<StoredObject>,
    delete_calls: u64,
    deletes: Ghost<Seq<Seq<u8>>>,
}

impl MemoryStore {
    /// The stored objects, in store order.
    pub closed spec fn objects_seq(&self) -> Seq<StoredObject> {
        self.objects@
    }

    /// The paths handed to `delete` so far, in call order.
    pub closed spec fn deletes_log(&self) -> Seq<Seq<u8>> {
        self.deletes@
    }

    /// How many `delete` calls the store has served (stopping at `u64::MAX`).
    pub closed spec fn delete_calls_spec(&self) -> u64 {
        self.delete_calls
    }

    /// Well-formedness: no two objects share a path.
    pub open spec fn wf(&self) -> bool {
        distinct_paths(self.objects_seq())
    }

    /// True when an object is stored at `p`.
    pub open spec fn has(&self, p: Seq<u8>) -> bool {
        get_in(self.objects_seq(), p) is Some
    }

    /// The bytes stored at `p` (meaningful when `has(p)`).
    pub open spec fn at(&self, p: Seq<u8>) -> Seq<u8> {
        at_in(self.objects_seq(), p)
    }

    /// An empty store.
    pub fn new() -> (r: MemoryStore)
        ensures
            r.wf(),
            r.objects_seq() == Seq::<StoredObject>::empty(),
            forall|p: Seq<u8>| !r.has(p),
            r.deletes_log() == Seq::<Seq<u8>>::empty(),
            r.delete_calls_spec() == 0,
    {
        MemoryStore { objects: Vec::new(), delete_calls: 0, deletes: Ghost(Seq::empty()) }
    }

    /// True when an object is stored at `path`.
    pub fn contains(&self, path: &Vec<u8>) -> (r: bool)
        requires
            self.wf(),
        ensures
            r == self.has(path@),
    {
        let mut i: usize = 0;
        while i < self.objects.len()
            invariant
                self.wf(),
                0 <= i <= self.objects.len(),
                forall|j: int| 0 <= j < i ==> self.objects@[j].path@ != path@,
            decreases self.objects.len() - i,
        {
            if bytes_eq(&self.objects[i].path, path) {
                proof {
                    lemma_get_in_at_index(self.objects@, i as int);
                }
                return true;
            }
            i += 1;
        }
        proof {
            lemma_get_in_absent(self.objects@, path@);
        }
        false
    }

    /// Reads the object at `path`; fails exactly when no object is there.
    pub fn read(&self, path: &Vec<u8>) -> (r: Result<Vec<u8>, Error>)
        requires
            self.wf(),
        ensures
            self.has(path@) ==> (r matches Ok(d) && d@ == self.at(path@)),
            !self.has(path@) ==> (r matches Err(e) && e.is_store_on(path@)),
    {
        let mut i: usize = 0;
        while i < self.objects.len()
            invariant
                self.wf(),
                0 <= i <= self.objects.len(),
                forall|j: int| 0 <= j < i ==> self.objects@[j].path@ != path@,
            decreases self.objects.len() - i,
        {
            if bytes_eq(&self.objects[i].path, path) {
                proof {
                    lemma_get_in_at_index(self.objects@, i as int);
                }
                return Ok(copy_bytes(&self.objects[i].data));
            }
            i += 1;
        }
        proof {
            lemma_get_in_absent(self.objects@, path@);
        }
        Err(Error::Store { path: copy_bytes(path) })
    }

    /// Drops the object stored at `path`, keeping the rest in order.
    /// Touches neither the delete counter nor the delete log.
    fn retain_not_path(&mut self, path: &Vec<u8>)
        requires
            old(self).wf(),
        ensures
            final(self).objects_seq() == objects_without(old(self).objects_seq(), path@),
            final(self).deletes_log() == old(self).deletes_log(),
            final(self).delete_calls_spec() == old(self).delete_calls_spec(),
    {
        let s = Ghost(self.objects@);
        let mut kept: Vec<StoredObject> = Vec::new();
        while self.objects.len() > 0
            invariant
                s@.len() >= self.objects@.len(),
                self.objects@ == s@.skip(s@.len() - self.objects@.len()),
                kept@ == objects_without(s@.take(s@.len() - self.objects@.len()), path@),
                self.deletes@ == old(self).deletes@,
                self.delete_calls == old(self).delete_calls,
            decreases self.objects.len(),
        {
            let ghost k = s@.len() - self.objects@.len();
            proof {
                assert(self.objects@[0] == s@[k]);
                assert(s@.take(k + 1).drop_last() =~= s@.take(k));
                assert(s@.take(k + 1).last() == s@[k]);
            }
            let obj = self.objects.remove(0);
            proof {
                assert(self.objects@ =~= s@.skip(k + 1));
            }
            if !bytes_eq(&obj.path, path) {
                kept.push(obj);
            }
            proof {
                assert(kept@ =~= objects_without(s@.take(k + 1), path@));
            }
        }
        proof {
            assert(s@.take(s@.len() as int) =~= s@);
        }
        self.objects = kept;
    }

    /// Stores `data` at `path`, replacing any object already there.
    pub fn write(&mut self, path: &Vec<u8>, data: Vec<u8>) -> (r: Result<(), Error>)
        requires
            old(self).wf(),
        ensures
            final(self).wf(),
            r is Ok,
            final(self).has(path@),
            final(self).at(path@) == data@,
            forall|q: Seq<u8>|
                q != path@ ==> #[trigger] get_in(final(self).objects_seq(), q) == get_in(
                    old(self).objects_seq(),
                    q,
                ),
            final(self).deletes_log() == old(self).deletes_log(),
            final(self).delete_calls_spec() == old(self).delete_calls_spec(),
    {
        proof {
            lemma_objects_without_props(self.objects@, path@);
        }
        self.retain_not_path(path);
        let obj = StoredObject { path: copy_bytes(path), data };
        let prev = Ghost(self.objects@);
        self.objects.push(obj);
        proof {
            assert(self.objects@.drop_last() =~= prev@);
            lemma_get_in_absent(prev@, path@);
            assert(self.objects@.last().path@ == path@);
            assert forall|q: Seq<u8>|
                q != path@ implies #[trigger] get_in(self.objects@, q) == get_in(
                old(self).objects_seq(),
                q,
            ) by {
                assert(get_in(self.objects@, q) == get_in(prev@, q));
                assert(get_in(objects_without(old(self).objects_seq(), path@), q) == get_in(
                    old(self).objects_seq(),
                    q,
                ));
            }
        }
        Ok(())
    }

    /// Deletes the object at `path`; fails exactly when no object is there.
    /// Either way the call is recorded in the delete audit.
    pub fn delete(&mut self, path: &Vec<u8>) -> (r: Result<(), Error>)
        requires
            old(self).wf(),
        ensures
            final(self).wf(),
            r is Ok <==> old(self).has(path@),
            !old(self).has(path@) ==> (r matches Err(e) && e.is_store_on(path@)),
            !final(self).has(path@),
            forall|q: Seq<u8>|
                q != path@ ==> #[trigger] get_in(final(self).objects_seq(), q) == get_in(
                    old(self).objects_seq(),
                    q,
                ),
            !old(self).has(path@) ==> final(self).objects_seq() == old(self).objects_seq(),
            final(self).deletes_log() == old(self).deletes_log().push(path@),
            final(self).delete_calls_spec() == sat_add64(old(self).delete_calls_spec(), 1),
    {
        self.delete_calls = sat_add(self.delete_calls, 1);
        proof {
            self.deletes@ = self.deletes@.push(path@);
            lemma_objects_without_props(self.objects@, path@);
        }
        if self.contains(path) {
            self.retain_not_path(path);
            Ok(())
        } else {
            proof {
                lemma_objects_without_absent(self.objects@, path@);
            }
            self.retain_not_path(path);
            Err(Error::Store { path: copy_bytes(path) })
        }
    }

    /// Lists the paths of the objects under `prefix`, in store order,
    /// classifying each as file or directory marker.  An empty listing is
    /// a normal outcome, not an error.
    pub fn list(&self, prefix: &Vec<u8>) -> (r: Vec<ListEntry>)
        requires
            self.wf(),
        ensures
            r@.len() == paths_under(self.objects_seq(), prefix@).len(),
            forall|k: int|
                0 <= k < r@.len() ==> (#[trigger] r@[k]).path@ == paths_under(
                    self.objects_seq(),
                    prefix@,
                )[k] && r@[k].is_dir == is_dir_path(
                    paths_under(self.objects_seq(), prefix@)[k],
                ),
    {
        let s = Ghost(self.objects@);
        let mut out: Vec<ListEntry> = Vec::new();
        let mut i: usize = 0;
        while i < self.objects.len()
            invariant
                s@ == self.objects@,
                0 <= i <= self.objects.len(),
                out@.len() == paths_under(s@.take(i as int), prefix@).len(),
                forall|k: int|
                    0 <= k < out@.len() ==> (#[trigger] out@[k]).path@ == paths_under(
                        s@.take(i as int),
                        prefix@,
                    )[k] && out@[k].is_dir == is_dir_path(
                        paths_under(s@.take(i as int), prefix@)[k],
                    ),
            decreases self.objects.len() - i,
        {
            proof {
                assert(s@.take(i + 1).drop_last() =~= s@.take(i as int));
                assert(s@.take(i + 1).last() == s@[i as int]);
            }
            if starts_with(&self.objects[i].path, prefix) {
                let p = copy_bytes(&self.objects[i].path);
                let d = ends_with_slash(&p);
                out.push(ListEntry { path: p, is_dir: d });
            }
            i += 1;
        }
        proof {
            assert(s@.take(self.objects@.len() as int) =~= s@);
        }
        out
    }

    /// Recursively deletes everything under `prefix`, one batch operation.
    /// Deleting nothing is success, not an error.
    pub fn remove_all(&mut self, prefix: &Vec<u8>) -> (r: Result<(), Error>)
        requires
            old(self).wf(),
        ensures
            final(self).wf(),
            r is Ok,
            final(self).objects_seq() == objects_not_under(old(self).objects_seq(), prefix@),
            forall|q: Seq<u8>| prefix@.is_prefix_of(q) ==> !(#[trigger] final(self).has(q)),
            forall|q: Seq<u8>|
                !prefix@.is_prefix_of(q) ==> #[trigger] get_in(final(self).objects_seq(), q)
                    == get_in(old(self).objects_seq(), q),
            final(self).deletes_log() == old(self).deletes_log(),
            final(self).delete_calls_spec() == old(self).delete_calls_spec(),
    {
        proof {
            lemma_objects_not_under_props(self.objects@, prefix@);
        }
        let s = Ghost(self.objects@);
        let mut kept: Vec<StoredObject> = Vec::new();
        while self.objects.len() > 0
            invariant
                s@.len() >= self.objects@.len(),
                self.objects@ == s@.skip(s@.len() - self.objects@.len()),
                kept@ == objects_not_under(s@.take(s@.len() - self.objects@.len()), prefix@),
                self.deletes@ == old(self).deletes@,
                self.delete_calls == old(self).delete_calls,
            decreases self.objects.len(),
        {
            let ghost k = s@.len() - self.objects@.len();
            proof {
                assert(self.objects@[0] == s@[k]);
                assert(s@.take(k + 1).drop_last() =~= s@.take(k));
                assert(s@.take(k + 1).last() == s@[k]);
            }
            let obj = self.objects.remove(0);
            proof {
                assert(self.objects@ =~= s@.skip(k + 1));
            }
            if !starts_with(&obj.path, prefix) {
                kept.push(obj);
            }
            proof {
                assert(kept@ =~= objects_not_under(s@.take(k + 1), prefix@));
            }
        }
        proof {
            assert(s@.take(s@.len() as int) =~= s@);
        }
        self.objects = kept;
        Ok(())
    }

    /// How many `delete` calls the store has served.
    pub fn delete_call_count(&self) -> (r: u64)
        ensures
            r == self.delete_calls_spec(),
    {
        self.delete_calls
    }
}

} // verus!
