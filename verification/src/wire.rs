//! Little-endian integers in byte sequences: how they are written and read.
use vstd::prelude::*;
use vstd::bytes::{
    lemma_auto_spec_u16_to_from_le_bytes, lemma_auto_spec_u32_to_from_le_bytes,
    lemma_auto_spec_u64_to_from_le_bytes, spec_u16_from_le_bytes, spec_u16_to_le_bytes,
    spec_u32_from_le_bytes, spec_u32_to_le_bytes, spec_u64_from_le_bytes, spec_u64_to_le_bytes,
    u16_from_le_bytes, u16_to_le_bytes, u32_from_le_bytes, u32_to_le_bytes, u64_from_le_bytes,
    u64_to_le_bytes,
};
use vstd::slice::slice_subrange;

verus! {

pub open spec fn le16(x: u16) -> Seq<u8> {
    spec_u16_to_le_bytes(x)
}

pub open spec fn le32(x: u32) -> Seq<u8> {
    spec_u32_to_le_bytes(x)
}

pub open spec fn le64(x: u64) -> Seq<u8> {
    spec_u64_to_le_bytes(x)
}

/// The little-endian `u16` at byte `pos`.
pub open spec fn u16_at(b: Seq<u8>, pos: int) -> u16 {
    spec_u16_from_le_bytes(b.subrange(pos, pos + 2))
}

/// The little-endian `u32` at byte `pos`.
pub open spec fn u32_at(b: Seq<u8>, pos: int) -> u32 {
    spec_u32_from_le_bytes(b.subrange(pos, pos + 4))
}

/// The little-endian `u64` at byte `pos`.
pub open spec fn u64_at(b: Seq<u8>, pos: int) -> u64 {
    spec_u64_from_le_bytes(b.subrange(pos, pos + 8))
}

/// The encodings of the elements of `s`, one after another.
pub open spec fn concat_map<T>(s: Seq<T>, f: spec_fn(T) -> Seq<u8>) -> Seq<u8>
    decreases s.len(),
{
    if s.len() == 0 {
        seq![]
    } else {
        concat_map(s.drop_last(), f) + f(s.last())
    }
}

/// Encoded integers have their widths, and read back as what was written.
pub proof fn lemma_le_round_trip()
    ensures
        forall|x: u16| #[trigger] le16(x).len() == 2 && spec_u16_from_le_bytes(le16(x)) == x,
        forall|x: u32| #[trigger] le32(x).len() == 4 && spec_u32_from_le_bytes(le32(x)) == x,
        forall|x: u64| #[trigger] le64(x).len() == 8 && spec_u64_from_le_bytes(le64(x)) == x,
{
    lemma_auto_spec_u16_to_from_le_bytes();
    lemma_auto_spec_u32_to_from_le_bytes();
    lemma_auto_spec_u64_to_from_le_bytes();
}

/// The elements of a fixed-width encoding sit at multiples of the width.
pub proof fn lemma_concat_map_fixed<T>(s: Seq<T>, f: spec_fn(T) -> Seq<u8>, k: nat)
    requires
        forall|i: int| 0 <= i < s.len() ==> #[trigger] f(s[i]).len() == k,
    ensures
        concat_map(s, f).len() == k * s.len(),
        forall|i: int|
            0 <= i < s.len() ==> #[trigger] concat_map(s, f).subrange(k * i, k * i + k) == f(s[i]),
    decreases s.len(),
{
    if s.len() > 0 {
        let p = s.drop_last();
        assert forall|i: int| 0 <= i < p.len() implies #[trigger] f(p[i]).len() == k by {
            assert(p[i] == s[i]);
        }
        assert(f(s[s.len() - 1]).len() == k);
        lemma_concat_map_fixed(p, f, k);
        let c = concat_map(s, f);
        let cp = concat_map(p, f);
        assert(c == cp + f(s.last()));
        assert(k * s.len() == k * p.len() + k) by (nonlinear_arith)
            requires
                s.len() == p.len() + 1,
        ;
        assert forall|i: int| 0 <= i < s.len() implies #[trigger] c.subrange(k * i, k * i + k) == f(s[i]) by {
            if i < p.len() {
                assert(k * i + k <= k * p.len()) by (nonlinear_arith)
                    requires
                        i < p.len(),
                        0 <= i,
                ;
                assert(0 <= k * i) by (nonlinear_arith)
                    requires
                        0 <= i,
                ;
                assert(c.subrange(k * i, k * i + k) =~= cp.subrange(k * i, k * i + k));
                assert(s[i] == p[i]);
            } else {
                assert(k * i == k * p.len());
                assert(c.subrange(k * i, k * i + k) =~= f(s.last()));
            }
        }
    }
}

/// Appends the little-endian bytes of `x`.
pub fn put_u16(buf: &mut Vec<u8>, x: u16)
    ensures
        final(buf)@ == old(buf)@ + le16(x),
{
    let mut b = u16_to_le_bytes(x);
    buf.append(&mut b);
}

/// Appends the little-endian bytes of `x`.
pub fn put_u32(buf: &mut Vec<u8>, x: u32)
    ensures
        final(buf)@ == old(buf)@ + le32(x),
{
    let mut b = u32_to_le_bytes(x);
    buf.append(&mut b);
}

/// Appends the little-endian bytes of `x`.
pub fn put_u64(buf: &mut Vec<u8>, x: u64)
    ensures
        final(buf)@ == old(buf)@ + le64(x),
{
    let mut b = u64_to_le_bytes(x);
    buf.append(&mut b);
}

pub fn read_u16(b: &[u8], pos: usize) -> (x: u16)
    requires
        pos + 2 <= b@.len(),
    ensures
        x == u16_at(b@, pos as int),
{
    let _len = b.len();
    u16_from_le_bytes(slice_subrange(b, pos, pos + 2))
}

pub fn read_u32(b: &[u8], pos: usize) -> (x: u32)
    requires
        pos + 4 <= b@.len(),
    ensures
        x == u32_at(b@, pos as int),
{
    let _len = b.len();
    u32_from_le_bytes(slice_subrange(b, pos, pos + 4))
}

pub fn read_u64(b: &[u8], pos: usize) -> (x: u64)
    requires
        pos + 8 <= b@.len(),
    ensures
        x == u64_at(b@, pos as int),
{
    let _len = b.len();
    u64_from_le_bytes(slice_subrange(b, pos, pos + 8))
}

} // verus!
