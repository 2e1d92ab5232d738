//! Byte-string helpers shared by the path and store modules.
//!
//! Storage paths are plain byte strings (`Vec<u8>`); these functions give the
//! executable operations on them together with their sequence-level meaning.

use vstd::prelude::*;

verus! {

/// True when `b` ends in `b'/'`: such a path names a directory, not a file.
pub open spec fn is_dir_path(b: Seq<u8>) -> bool {
    b.len() > 0 && b[b.len() - 1] == 47u8
}

/// Executable check that a path is a directory marker (ends in `b'/'`).
pub fn ends_with_slash(b: &Vec<u8>) -> (r: bool)
    ensures
        r == is_dir_path(b@),
{
    b.len() > 0 && b[b.len() - 1] == 47u8
}

/// Executable equality of two byte strings.
pub fn bytes_eq(a: &Vec<u8>, b: &Vec<u8>) -> (r: bool)
    ensures
        r == (a@ == b@),
{
    if a.len() != b.len() {
        assert(a@ != b@) by {
            assert(a@.len() != b@.len());
        }
        return false;
    }
    let mut i: usize = 0;
    while i < a.len()
        invariant
            0 <= i <= a.len(),
            a@.len() == b@.len(),
            forall|j: int| 0 <= j < i ==> a@[j] == b@[j],
        decreases a.len() - i,
    {
        if a[i] != b[i] {
            return false;
        }
        i += 1;
    }
    assert(a@ =~= b@);
    true
}

/// Executable test that `pfx` is a prefix of `b`.
pub fn starts_with(b: &Vec<u8>, pfx: &Vec<u8>) -> (r: bool)
    ensures
        r == pfx@.is_prefix_of(b@),
{
    if pfx.len() > b.len() {
        return false;
    }
    let mut i: usize = 0;
    while i < pfx.len()
        invariant
            0 <= i <= pfx.len(),
            pfx@.len() <= b@.len(),
            forall|j: int| 0 <= j < i ==> pfx@[j] == b@[j],
        decreases pfx.len() - i,
    {
        if pfx[i] != b[i] {
            assert(!pfx@.is_prefix_of(b@)) by {
                assert(pfx@[i as int] != b@[i as int]);
            }
            return false;
        }
        i += 1;
    }
    assert(pfx@ =~= b@.subrange(0, pfx@.len() as int));
    true
}

/// Copies a byte string.
pub fn copy_bytes(v: &Vec<u8>) -> (r: Vec<u8>)
    ensures
        r@ == v@,
{
    let mut out: Vec<u8> = Vec::new();
    let mut i: usize = 0;
    while i < v.len()
        invariant
            0 <= i <= v.len(),
            out@ =~= v@.take(i as int),
        decreases v.len() - i,
    {
        out.push(v[i]);
        assert(out@ =~= v@.take(i + 1));
        i += 1;
    }
    assert(out@ =~= v@);
    out
}

/// Appends all of `v` to `out`.
pub fn append_bytes(out: &mut Vec<u8>, v: &Vec<u8>)
    ensures
        final(out)@ == old(out)@ + v@,
{
    let mut i: usize = 0;
    while i < v.len()
        invariant
            0 <= i <= v.len(),
            out@ =~= old(out)@ + v@.take(i as int),
        decreases v.len() - i,
    {
        out.push(v[i]);
        assert(out@ =~= old(out)@ + v@.take(i + 1));
        i += 1;
    }
    assert(out@ =~= old(out)@ + v@);
}

} // verus!
