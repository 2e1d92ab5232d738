//! Deterministic path resolution.
//!
//! Every file the engine writes — SSTs, inverted-index files, and the
//! scratch files of an index build — is addressed by a path computed here
//! from the region directory and a [`FileId`].  The functions are pure:
//! equal inputs give equal paths, and distinct file ids never collide for
//! the same purpose (proved below).

use vstd::prelude::*;
use crate::bytes::{append_bytes, copy_bytes};

verus! {

/// Globally unique identifier of one SST and its associated index file:
/// a 128-bit value, rendered as 32 lower-case hex digits in paths.
/// The producer assigns it before any I/O.
#[derive(Clone, Copy, PartialEq, Eq, Structural, Debug)]
pub struct FileId {
    pub bits: u128,
}

impl FileId {
    /// Wraps a producer-chosen 128-bit identifier.
    pub fn new(bits: u128) -> (r: FileId)
        ensures
            r.bits == bits,
    {
        FileId { bits }
    }
}

/// 16^len.
pub open spec fn pow16(len: nat) -> nat
    decreases len,
{
    if len == 0 {
        1
    } else {
        16 * pow16((len - 1) as nat)
    }
}

/// The lower-case hex digit for a value below 16.
pub open spec fn hex_digit(d: nat) -> u8 {
    if d < 10 {
        (48 + d) as u8
    } else {
        (87 + d) as u8
    }
}

/// `n` rendered as `len` hex digits, most significant first.
pub open spec fn hex_rec(n: nat, len: nat) -> Seq<u8>
    decreases len,
{
    if len == 0 {
        Seq::empty()
    } else {
        hex_rec(n / 16, (len - 1) as nat).push(hex_digit(n % 16))
    }
}

/// The 32-digit hex rendering of a file id.
pub open spec fn file_id_hex(id: FileId) -> Seq<u8> {
    hex_rec(id.bits as nat, 32)
}

pub proof fn lemma_hex_rec_len(n: nat, len: nat)
    ensures
        hex_rec(n, len).len() == len,
    decreases len,
{
    if len > 0 {
        lemma_hex_rec_len(n / 16, (len - 1) as nat);
    }
}

/// The numeric value a hex digit stands for.
pub open spec fn hex_digit_val(c: u8) -> nat {
    if 48 <= c && c < 58 {
        (c - 48) as nat
    } else {
        (c - 87) as nat
    }
}

/// Reads a hex rendering back into the number it came from.
pub open spec fn hex_val(s: Seq<u8>) -> nat
    decreases s.len(),
{
    if s.len() == 0 {
        0
    } else {
        hex_val(s.drop_last()) * 16 + hex_digit_val(s.last())
    }
}

/// Decoding inverts encoding: `hex_val` is a left inverse of `hex_rec`
/// for numbers that fit in `len` digits.
pub proof fn lemma_hex_round_trip(n: nat, len: nat)
    requires
        n < pow16(len),
    ensures
        hex_val(hex_rec(n, len)) == n,
    decreases len,
{
    if len == 0 {
        assert(n == 0);
    } else {
        let rest = hex_rec(n / 16, (len - 1) as nat);
        let d = n % 16;
        assert(hex_rec(n, len) == rest.push(hex_digit(d)));
        assert(rest.push(hex_digit(d)).drop_last() =~= rest);
        assert(rest.push(hex_digit(d)).last() == hex_digit(d));
        assert(hex_digit_val(hex_digit(d)) == d);
        assert(n / 16 < pow16((len - 1) as nat)) by (nonlinear_arith)
            requires
                n < 16 * pow16((len - 1) as nat),
        ;
        lemma_hex_round_trip(n / 16, (len - 1) as nat);
        assert((n / 16) * 16 + n % 16 == n) by (nonlinear_arith);
    }
}

/// Every `u128` fits in 32 hex digits.
pub proof fn lemma_u128_fits(n: u128)
    ensures
        (n as nat) < pow16(32),
{
    reveal_with_fuel(pow16, 33);
    assert(pow16(32) == 0x100000000000000000000000000000000);
}

/// Distinct numbers have distinct fixed-width hex renderings.
pub proof fn lemma_hex_injective(a: u128, b: u128)
    requires
        hex_rec(a as nat, 32) == hex_rec(b as nat, 32),
    ensures
        a == b,
{
    lemma_u128_fits(a);
    lemma_u128_fits(b);
    lemma_hex_round_trip(a as nat, 32);
    lemma_hex_round_trip(b as nat, 32);
}

/// Renders `n` as `len` hex digits, most significant first.
pub fn hex_bytes_rec(n: u128, len: usize) -> (r: Vec<u8>)
    ensures
        r@ == hex_rec(n as nat, len as nat),
        r@.len() == len,
    decreases len,
{
    proof {
        lemma_hex_rec_len(n as nat, len as nat);
    }
    if len == 0 {
        Vec::new()
    } else {
        let mut v = hex_bytes_rec(n / 16, len - 1);
        let d: u8 = (n % 16) as u8;
        let c: u8 = if d < 10 {
            48 + d
        } else {
            87 + d
        };
        assert(c == hex_digit((n as nat) % 16));
        v.push(c);
        v
    }
}

impl FileId {
    /// The 32-digit hex rendering used in every path that names this file.
    pub fn hex(&self) -> (r: Vec<u8>)
        ensures
            r@ == file_id_hex(*self),
            r@.len() == 32,
    {
        hex_bytes_rec(self.bits, 32)
    }
}

/// `"/"`.
pub open spec fn slash() -> Seq<u8> {
    seq![47u8]
}

/// `".parquet"`, the SST file extension.
pub open spec fn parquet_ext() -> Seq<u8> {
    seq![46u8, 112u8, 97u8, 114u8, 113u8, 117u8, 101u8, 116u8]
}

/// `"index/"`, the subdirectory holding inverted-index files.
pub open spec fn index_dir_seg() -> Seq<u8> {
    seq![105u8, 110u8, 100u8, 101u8, 120u8, 47u8]
}

/// `".puffin"`, the index file extension.
pub open spec fn puffin_ext() -> Seq<u8> {
    seq![46u8, 112u8, 117u8, 102u8, 102u8, 105u8, 110u8]
}

/// `"index_intermediate/"`, the subtree holding index-build scratch files.
pub open spec fn intermediate_seg() -> Seq<u8> {
    seq![
        105u8, 110u8, 100u8, 101u8, 120u8, 95u8, 105u8, 110u8, 116u8, 101u8, 114u8, 109u8,
        101u8, 100u8, 105u8, 97u8, 116u8, 101u8, 47u8,
    ]
}

/// `".im"`, the scratch-file extension.
pub open spec fn im_ext() -> Seq<u8> {
    seq![46u8, 105u8, 109u8]
}

/// `".tmp/"`, the atomic-write staging subdirectory.
pub open spec fn tmp_seg() -> Seq<u8> {
    seq![46u8, 116u8, 109u8, 112u8, 47u8]
}

/// `<region_dir>/<file_id>.parquet`.
pub open spec fn sst_file_path_spec(region_dir: Seq<u8>, file_id: FileId) -> Seq<u8> {
    region_dir + slash() + file_id_hex(file_id) + parquet_ext()
}

/// `<region_dir>/index/<file_id>.puffin`.
pub open spec fn index_file_path_spec(region_dir: Seq<u8>, file_id: FileId) -> Seq<u8> {
    region_dir + slash() + index_dir_seg() + file_id_hex(file_id) + puffin_ext()
}

/// `<root>/.tmp/`, the staging subdirectory wiped on provisioning.
pub open spec fn staging_dir_spec(root: Seq<u8>) -> Seq<u8> {
    root + slash() + tmp_seg()
}

/// Resolves the path of the SST file with `file_id` under `region_dir`.
pub fn sst_file_path(region_dir: &Vec<u8>, file_id: FileId) -> (r: Vec<u8>)
    ensures
        r@ == sst_file_path_spec(region_dir@, file_id),
{
    let mut out = copy_bytes(region_dir);
    out.push(47);
    let hex = file_id.hex();
    append_bytes(&mut out, &hex);
    let ext: Vec<u8> = vec![46u8, 112u8, 97u8, 114u8, 113u8, 117u8, 101u8, 116u8];
    append_bytes(&mut out, &ext);
    assert(out@ =~= sst_file_path_spec(region_dir@, file_id));
    out
}

/// Resolves the path of the inverted-index file with `file_id` under
/// `region_dir`.
pub fn index_file_path(region_dir: &Vec<u8>, file_id: FileId) -> (r: Vec<u8>)
    ensures
        r@ == index_file_path_spec(region_dir@, file_id),
{
    let mut out = copy_bytes(region_dir);
    out.push(47);
    let seg: Vec<u8> = vec![105u8, 110u8, 100u8, 101u8, 120u8, 47u8];
    append_bytes(&mut out, &seg);
    let hex = file_id.hex();
    append_bytes(&mut out, &hex);
    let ext: Vec<u8> = vec![46u8, 112u8, 117u8, 102u8, 102u8, 105u8, 110u8];
    append_bytes(&mut out, &ext);
    assert(out@ =~= index_file_path_spec(region_dir@, file_id));
    out
}

/// Resolves the staging subdirectory under `root`.
pub fn staging_dir(root: &Vec<u8>) -> (r: Vec<u8>)
    ensures
        r@ == staging_dir_spec(root@),
{
    let mut out = copy_bytes(root);
    out.push(47);
    let seg: Vec<u8> = vec![46u8, 116u8, 109u8, 112u8, 47u8];
    append_bytes(&mut out, &seg);
    assert(out@ =~= staging_dir_spec(root@));
    out
}

/// Same region directory, same purpose, distinct file ids: the SST paths
/// never collide.
pub proof fn lemma_sst_path_injective(region_dir: Seq<u8>, a: FileId, b: FileId)
    requires
        sst_file_path_spec(region_dir, a) == sst_file_path_spec(region_dir, b),
    ensures
        a == b,
{
    lemma_hex_rec_len(a.bits as nat, 32);
    lemma_hex_rec_len(b.bits as nat, 32);
    let ha = file_id_hex(a);
    let hb = file_id_hex(b);
    let off = region_dir.len() + 1;
    assert forall|i: int| 0 <= i < 32 implies ha[i] == hb[i] by {
        assert(sst_file_path_spec(region_dir, a)[off + i] == ha[i]);
        assert(sst_file_path_spec(region_dir, b)[off + i] == hb[i]);
    }
    assert(ha =~= hb);
    lemma_hex_injective(a.bits, b.bits);
}

/// Same region directory, same purpose, distinct file ids: the index paths
/// never collide.
pub proof fn lemma_index_path_injective(region_dir: Seq<u8>, a: FileId, b: FileId)
    requires
        index_file_path_spec(region_dir, a) == index_file_path_spec(region_dir, b),
    ensures
        a == b,
{
    lemma_hex_rec_len(a.bits as nat, 32);
    lemma_hex_rec_len(b.bits as nat, 32);
    let ha = file_id_hex(a);
    let hb = file_id_hex(b);
    let off = region_dir.len() + 7;
    assert forall|i: int| 0 <= i < 32 implies ha[i] == hb[i] by {
        assert(index_file_path_spec(region_dir, a)[off + i] == ha[i]);
        assert(index_file_path_spec(region_dir, b)[off + i] == hb[i]);
    }
    assert(ha =~= hb);
    lemma_hex_injective(a.bits, b.bits);
}

/// `<region_dir>/index_intermediate/<build_id>/`, the scratch root of one
/// index build.
pub open spec fn intermediate_root_spec(region_dir: Seq<u8>, build_id: FileId) -> Seq<u8> {
    region_dir + slash() + intermediate_seg() + file_id_hex(build_id) + slash()
}

/// `<root><column>/`, every scratch file of one column lives under it.
pub open spec fn column_path_spec(root: Seq<u8>, column: Seq<u8>) -> Seq<u8> {
    root + column + slash()
}

/// `<root><column>/<run>.im`, one spilled run.
pub open spec fn scratch_file_path_spec(root: Seq<u8>, column: Seq<u8>, run: Seq<u8>) -> Seq<u8> {
    column_path_spec(root, column) + run + im_ext()
}

/// True when `s` holds no `b'/'`: the form column and run identifiers take.
pub open spec fn slash_free(s: Seq<u8>) -> bool {
    forall|i: int| 0 <= i < s.len() ==> s[i] != 47u8
}

/// Executable check that an identifier holds no `b'/'`.
pub fn is_slash_free(s: &Vec<u8>) -> (r: bool)
    ensures
        r == slash_free(s@),
{
    let mut i: usize = 0;
    while i < s.len()
        invariant
            0 <= i <= s.len(),
            forall|j: int| 0 <= j < i ==> s@[j] != 47u8,
        decreases s.len() - i,
    {
        if s[i] == 47 {
            return false;
        }
        i += 1;
    }
    true
}

/// Deterministic mapping of one index build to a scratch subtree, further
/// keyed by (column, run) to address individual scratch files.  Pure value:
/// construction does no I/O.
pub struct IntermediateLocation {
    root: Vec<u8>,
}

impl IntermediateLocation {
    /// The scratch root this location addresses.
    pub closed spec fn root_spec(&self) -> Seq<u8> {
        self.root@
    }

    /// Scopes a scratch subtree under `region_dir` for the build of the SST
    /// named `sst_file_id`.
    pub fn new(region_dir: &Vec<u8>, sst_file_id: FileId) -> (r: IntermediateLocation)
        ensures
            r.root_spec() == intermediate_root_spec(region_dir@, sst_file_id),
    {
        let mut out = copy_bytes(region_dir);
        out.push(47);
        let seg: Vec<u8> = vec![
            105u8, 110u8, 100u8, 101u8, 120u8, 95u8, 105u8, 110u8, 116u8, 101u8, 114u8, 109u8,
            101u8, 100u8, 105u8, 97u8, 116u8, 101u8, 47u8,
        ];
        append_bytes(&mut out, &seg);
        let hex = sst_file_id.hex();
        append_bytes(&mut out, &hex);
        out.push(47);
        assert(out@ =~= intermediate_root_spec(region_dir@, sst_file_id));
        IntermediateLocation { root: out }
    }

    /// The root path of the whole build, the subtree `cleanup` purges.
    pub fn root_path(&self) -> (r: &Vec<u8>)
        ensures
            r@ == self.root_spec(),
    {
        &self.root
    }

    /// The directory every scratch file of `column` lives under.
    pub fn column_path(&self, column: &Vec<u8>) -> (r: Vec<u8>)
        ensures
            r@ == column_path_spec(self.root_spec(), column@),
    {
        let mut out = copy_bytes(&self.root);
        append_bytes(&mut out, column);
        out.push(47);
        assert(out@ =~= column_path_spec(self.root_spec(), column@));
        out
    }

    /// The path of the scratch file of run `run` of `column`.
    pub fn file_path(&self, column: &Vec<u8>, run: &Vec<u8>) -> (r: Vec<u8>)
        ensures
            r@ == scratch_file_path_spec(self.root_spec(), column@, run@),
    {
        let mut out = copy_bytes(&self.root);
        append_bytes(&mut out, column);
        out.push(47);
        append_bytes(&mut out, run);
        let ext: Vec<u8> = vec![46u8, 105u8, 109u8];
        append_bytes(&mut out, &ext);
        assert(out@ =~= scratch_file_path_spec(self.root_spec(), column@, run@));
        out
    }
}

/// A column's scratch directory is a prefix of each of its file paths.
pub proof fn lemma_column_prefix_of_file(root: Seq<u8>, column: Seq<u8>, run: Seq<u8>)
    ensures
        column_path_spec(root, column).is_prefix_of(
            scratch_file_path_spec(root, column, run),
        ),
{
    let cp = column_path_spec(root, column);
    let fp = scratch_file_path_spec(root, column, run);
    assert(cp =~= fp.take(cp.len() as int));
}

/// The build root is a prefix of each column directory.
pub proof fn lemma_root_prefix_of_column(root: Seq<u8>, column: Seq<u8>)
    ensures
        root.is_prefix_of(column_path_spec(root, column)),
{
    let cp = column_path_spec(root, column);
    assert(root =~= cp.take(root.len() as int));
}

/// A scratch file path is not a directory marker.
pub proof fn lemma_scratch_file_not_dir(root: Seq<u8>, column: Seq<u8>, run: Seq<u8>)
    ensures
        !crate::bytes::is_dir_path(scratch_file_path_spec(root, column, run)),
{
    let fp = scratch_file_path_spec(root, column, run);
    assert(fp[fp.len() - 1] == 109u8);
}

/// Distinct slash-free columns own disjoint scratch subtrees: no path lies
/// under both columns' directories.
pub proof fn lemma_column_paths_disjoint(root: Seq<u8>, c1: Seq<u8>, c2: Seq<u8>, p: Seq<u8>)
    requires
        c1 != c2,
        slash_free(c1),
        slash_free(c2),
        column_path_spec(root, c1).is_prefix_of(p),
    ensures
        !column_path_spec(root, c2).is_prefix_of(p),
{
    let cp1 = column_path_spec(root, c1);
    let cp2 = column_path_spec(root, c2);
    if cp2.is_prefix_of(p) {
        if c1.len() == c2.len() {
            assert forall|i: int| 0 <= i < c1.len() implies c1[i] == c2[i] by {
                assert(cp1[root.len() + i] == c1[i]);
                assert(cp2[root.len() + i] == c2[i]);
                assert(cp1[root.len() + i] == p[root.len() + i]);
                assert(cp2[root.len() + i] == p[root.len() + i]);
            }
            assert(c1 =~= c2);
        } else if c1.len() < c2.len() {
            let j = root.len() + c1.len();
            assert(cp1[j as int] == 47u8);
            assert(cp2[j as int] == c2[c1.len() as int]);
            assert(cp1[j as int] == p[j as int]);
            assert(cp2[j as int] == p[j as int]);
            assert(c2[c1.len() as int] != 47u8);
        } else {
            let j = root.len() + c2.len();
            assert(cp2[j as int] == 47u8);
            assert(cp1[j as int] == c1[c2.len() as int]);
            assert(cp1[j as int] == p[j as int]);
            assert(cp2[j as int] == p[j as int]);
            assert(c1[c2.len() as int] != 47u8);
        }
    }
}

/// Distinct (column, run) keys resolve to distinct scratch files, as long
/// as both identifiers hold no `b'/'`.
pub proof fn lemma_scratch_path_injective(
    root: Seq<u8>,
    c1: Seq<u8>,
    r1: Seq<u8>,
    c2: Seq<u8>,
    r2: Seq<u8>,
)
    requires
        slash_free(c1),
        slash_free(c2),
        slash_free(r1),
        slash_free(r2),
        scratch_file_path_spec(root, c1, r1) == scratch_file_path_spec(root, c2, r2),
    ensures
        c1 == c2,
        r1 == r2,
{
    let p = scratch_file_path_spec(root, c1, r1);
    lemma_column_prefix_of_file(root, c1, r1);
    lemma_column_prefix_of_file(root, c2, r2);
    if c1 != c2 {
        lemma_column_paths_disjoint(root, c1, c2, p);
        assert(false);
    }
    assert(c1 == c2);
    let cp = column_path_spec(root, c1);
    assert(p.len() == cp.len() + r1.len() + 3);
    assert(p.len() == cp.len() + r2.len() + 3);
    assert(r1.len() == r2.len());
    assert forall|i: int| 0 <= i < r1.len() implies r1[i] == r2[i] by {
        assert(p[cp.len() + i] == r1[i]);
        assert(scratch_file_path_spec(root, c2, r2)[cp.len() + i] == r2[i]);
    }
    assert(r1 =~= r2);
}

/// An SST path and an index path are never the same file, whatever the ids:
/// the two renderings differ already in length.
pub proof fn lemma_sst_index_paths_distinct(region_dir: Seq<u8>, a: FileId, b: FileId)
    ensures
        sst_file_path_spec(region_dir, a) != index_file_path_spec(region_dir, b),
{
    lemma_hex_rec_len(a.bits as nat, 32);
    lemma_hex_rec_len(b.bits as nat, 32);
    assert(sst_file_path_spec(region_dir, a).len() == region_dir.len() + 41);
    assert(index_file_path_spec(region_dir, b).len() == region_dir.len() + 46);
}

} // verus!
