//! Headers of fixed layout: little-endian numbers at fixed places.
use crate::wire::{le_bytes, le_value, lemma_le_value_bound, lemma_pow256_values, pow256};
use vstd::prelude::*;

verus! {

broadcast use {vstd::seq::group_seq_axioms, vstd::std_specs::vec::group_vec_axioms, vstd::array::group_array_axioms};

/// The size of a header.
pub const HEADER_SIZE: usize = 64;

/// The part of `b` of length `n` that starts at `at`.
pub open spec fn part(b: Seq<u8>, at: int, n: int) -> Seq<u8> {
    b.subrange(at, at + n)
}

/// The number of 32 bits at a place.
pub open spec fn u32_at(b: Seq<u8>, at: int) -> u32 {
    le_value(part(b, at, 4)) as u32
}

/// The number of 64 bits at a place.
pub open spec fn u64_at(b: Seq<u8>, at: int) -> u64 {
    le_value(part(b, at, 8)) as u64
}

proof fn lemma_pow256_grows(a: nat, b: nat)
    requires
        a <= b,
    ensures
        0 < pow256(a) <= pow256(b),
    decreases b,
{
    if a < b {
        lemma_pow256_grows(a, (b - 1) as nat);
    } else if b > 0 {
        lemma_pow256_grows((a - 1) as nat, (b - 1) as nat);
    }
}

/// Reads a number of `k` bytes.
fn read_le(b: &[u8], at: usize, k: usize) -> (r: u64)
    requires
        k <= 8,
        at + k <= b@.len(),
    ensures
        r == le_value(part(b@, at as int, k as int)),
{
    let total: usize = b.len();
    let mut v: u64 = 0;
    let mut i: usize = k;
    assert(b@.subrange(at + k, at + k) =~= Seq::empty());
    while i > 0
        invariant
            i <= k <= 8,
            at + k <= b@.len() == total,
            v == le_value(b@.subrange(at + i, at + k)),
        decreases i,
    {
        proof {
            let s = b@.subrange(at + i - 1, at + k);
            assert(s.drop_first() =~= b@.subrange(at + i, at + k));
            assert(s[0] == b@[at + i - 1]);
            lemma_le_value_bound(s);
            lemma_pow256_grows(s.len(), 8);
            lemma_pow256_values();
            assert(le_value(s) == s[0] as nat + 256 * v);
        }
        let d: u64 = b[at + (i - 1)] as u64;
        v = v * 256 + d;
        i -= 1;
    }
    v
}

/// Reads a number of 32 bits.
pub fn read_u32_le(b: &[u8], at: usize) -> (r: u32)
    requires
        at + 4 <= b@.len(),
    ensures
        r == u32_at(b@, at as int),
{
    proof {
        lemma_le_value_bound(part(b@, at as int, 4));
        lemma_pow256_values();
    }
    read_le(b, at, 4) as u32
}

/// Reads a number of 64 bits.
pub fn read_u64_le(b: &[u8], at: usize) -> (r: u64)
    requires
        at + 8 <= b@.len(),
    ensures
        r == u64_at(b@, at as int),
{
    proof {
        lemma_le_value_bound(part(b@, at as int, 8));
        lemma_pow256_values();
        assert(part(b@, at as int, 8) =~= b@.subrange(at as int, at + 8));
    }
    read_le(b, at, 8)
}

/// Appends the `k` lowest bytes of a number, the lowest first.
pub fn append_le(out: &mut Vec<u8>, n: u64, k: usize)
    ensures
        final(out)@ == old(out)@ + le_bytes(n as nat, k as nat),
{
    let ghost before = out@;
    let mut rest: u64 = n;
    let mut i: usize = 0;
    let ghost whole = le_bytes(n as nat, k as nat);
    assert(before + whole =~= out@ + le_bytes(rest as nat, (k - i) as nat));
    while i < k
        invariant
            i <= k,
            before + whole == out@ + le_bytes(rest as nat, (k - i) as nat),
        decreases k - i,
    {
        let d: u8 = (rest % 256) as u8;
        let ghost tail = le_bytes((rest / 256) as nat, (k - i - 1) as nat);
        assert(le_bytes(rest as nat, (k - i) as nat) == seq![d] + tail);
        assert(out@ + (seq![d] + tail) =~= out@.push(d) + tail);
        out.push(d);
        rest = rest / 256;
        i += 1;
    }
    assert(out@ =~= before + whole);
}

/// Fills a header with the bytes of a vector.
pub fn fill_header(buf: &mut [u8; HEADER_SIZE], v: &Vec<u8>)
    requires
        v@.len() == HEADER_SIZE,
    ensures
        final(buf)@ == v@,
{
    let mut i: usize = 0;
    while i < HEADER_SIZE
        invariant
            i <= HEADER_SIZE,
            v@.len() == HEADER_SIZE,
            forall|j: int| 0 <= j < i ==> buf@[j] == v@[j],
        decreases HEADER_SIZE - i,
    {
        buf[i] = v[i];
        i += 1;
    }
    assert(buf@ =~= v@);
}

/// Whether the bytes of `b` from `at` on start with `a`.
pub fn bytes_at(b: &[u8], at: usize, a: &[u8]) -> (r: bool)
    requires
        at + a@.len() <= b@.len(),
    ensures
        r == (part(b@, at as int, a@.len() as int) == a@),
{
    let total: usize = b.len();
    let ghost here = part(b@, at as int, a@.len() as int);
    let mut i: usize = 0;
    while i < a.len()
        invariant
            i <= a@.len(),
            at + a@.len() <= b@.len() == total,
            here == part(b@, at as int, a@.len() as int),
            forall|j: int| 0 <= j < i ==> here[j] == a@[j],
        decreases a@.len() - i,
    {
        assert(here[i as int] == b@[at + i]);
        if b[at + i] != a[i] {
            return false;
        }
        i += 1;
    }
    assert(here =~= a@);
    true
}

/// The four bytes at a place.
pub fn four_at(b: &[u8], at: usize) -> (r: [u8; 4])
    requires
        at + 4 <= b@.len(),
    ensures
        r@ == part(b@, at as int, 4),
{
    let r = [b[at], b[at + 1], b[at + 2], b[at + 3]];
    assert(r@ =~= part(b@, at as int, 4));
    r
}

/// The sixteen bytes at a place.
pub fn sixteen_at(b: &[u8], at: usize) -> (r: [u8; 16])
    requires
        at + 16 <= b@.len(),
    ensures
        r@ == part(b@, at as int, 16),
{
    let total: usize = b.len();
    let mut r: [u8; 16] = [0u8; 16];
    let mut i: usize = 0;
    while i < 16
        invariant
            i <= 16,
            at + 16 <= b@.len() == total,
            forall|j: int| 0 <= j < i ==> r@[j] == b@[at + j],
        decreases 16 - i,
    {
        r[i] = b[at + i];
        i += 1;
    }
    assert(r@ =~= part(b@, at as int, 16));
    r
}

/// Where the payload that a header announces ends, if that is a length that
/// memory can have.
pub open spec fn payload_end(offset: u64, length: u64) -> Option<nat> {
    if offset + length > usize::MAX {
        None
    } else {
        Some((offset + length) as nat)
    }
}

/// Where the payload that a header announces ends.
pub fn find_payload_end(offset: u64, length: u64) -> (r: Option<usize>)
    ensures
        match r {
            Some(n) => payload_end(offset, length) == Some(n as nat),
            None => payload_end(offset, length) is None,
        },
{
    let end: u128 = offset as u128 + length as u128;
    if end > usize::MAX as u128 {
        None
    } else {
        Some(end as usize)
    }
}

/// Whether an offset is one that a payload may have.
pub open spec fn offset_is_valid(offset: u64) -> bool {
    offset >= HEADER_SIZE && offset % 8 == 0
}

} // verus!
