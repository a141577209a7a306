//! Byte-level building blocks shared by the datagram and snapshot formats.
//!
//! Integers are little-endian and of fixed width; a byte string is written as
//! its length in a `u32` followed by the bytes. Readers work on a buffer and a
//! position and hand back the value together with the position behind it.

use vstd::prelude::*;
use vstd::bytes::*;
use vstd::slice::*;

verus! {

/// Largest length that a length prefix can announce.
pub const MAX_LEN: usize = 0xffff_ffff;

/// A byte string preceded by its length.
pub open spec fn spec_prefixed(b: Seq<u8>) -> Seq<u8> {
    spec_u32_to_le_bytes(b.len() as u32) + b
}

/// The `u32` that starts at `pos`, with the position behind it.
pub open spec fn spec_u32_at(s: Seq<u8>, pos: int) -> Option<(u32, int)> {
    if 0 <= pos && pos + 4 <= s.len() {
        Some((spec_u32_from_le_bytes(s.subrange(pos, pos + 4)), pos + 4))
    } else {
        None
    }
}

/// The `u64` that starts at `pos`, with the position behind it.
pub open spec fn spec_u64_at(s: Seq<u8>, pos: int) -> Option<(u64, int)> {
    if 0 <= pos && pos + 8 <= s.len() {
        Some((spec_u64_from_le_bytes(s.subrange(pos, pos + 8)), pos + 8))
    } else {
        None
    }
}

/// The length-prefixed byte string that starts at `pos`, with the position
/// behind it. `None` where the prefix is cut short or announces more bytes
/// than the buffer holds.
pub open spec fn spec_prefixed_at(s: Seq<u8>, pos: int) -> Option<(Seq<u8>, int)> {
    match spec_u32_at(s, pos) {
        Some((n, p)) => if p + n <= s.len() {
            Some((s.subrange(p, p + n), p + n))
        } else {
            None
        },
        None => None,
    }
}

/// Writing an integer and reading it back gives the integer; the written
/// form has the integer's width.
pub proof fn lemma_int_widths(x: u32, y: u64)
    ensures
        spec_u32_to_le_bytes(x).len() == 4,
        spec_u64_to_le_bytes(y).len() == 8,
        spec_u32_from_le_bytes(spec_u32_to_le_bytes(x)) == x,
        spec_u64_from_le_bytes(spec_u64_to_le_bytes(y)) == y,
{
    lemma_auto_spec_u32_to_from_le_bytes();
    lemma_auto_spec_u64_to_from_le_bytes();
}

/// A `u32` written between two byte strings is read back at the end of the first.
pub proof fn lemma_u32_at_written(a: Seq<u8>, x: u32, b: Seq<u8>)
    ensures
        spec_u32_at(a + spec_u32_to_le_bytes(x) + b, a.len() as int) == Some(
            (x, (a.len() + 4) as int),
        ),
{
    lemma_int_widths(x, 0);
    let s = a + spec_u32_to_le_bytes(x) + b;
    let k = a.len() as int;
    assert(s.subrange(k, k + 4) =~= spec_u32_to_le_bytes(x));
}

/// A `u64` written between two byte strings is read back at the end of the first.
pub proof fn lemma_u64_at_written(a: Seq<u8>, x: u64, b: Seq<u8>)
    ensures
        spec_u64_at(a + spec_u64_to_le_bytes(x) + b, a.len() as int) == Some(
            (x, (a.len() + 8) as int),
        ),
{
    lemma_int_widths(0, x);
    let s = a + spec_u64_to_le_bytes(x) + b;
    let k = a.len() as int;
    assert(s.subrange(k, k + 8) =~= spec_u64_to_le_bytes(x));
}

/// A length-prefixed byte string written between two byte strings is read
/// back at the end of the first.
pub proof fn lemma_prefixed_at_written(a: Seq<u8>, d: Seq<u8>, b: Seq<u8>)
    requires
        d.len() <= MAX_LEN,
    ensures
        spec_prefixed(d).len() == 4 + d.len(),
        spec_prefixed_at(a + spec_prefixed(d) + b, a.len() as int) == Some(
            (d, (a.len() + 4 + d.len()) as int),
        ),
{
    let n = d.len() as u32;
    lemma_int_widths(n, 0);
    let s = a + spec_prefixed(d) + b;
    assert(s =~= a + spec_u32_to_le_bytes(n) + (d + b));
    lemma_u32_at_written(a, n, d + b);
    let k = a.len() as int;
    assert(s.subrange(k + 4, k + 4 + n) =~= d);
}

/// What was read as a `u32` is the written form of that `u32`.
pub proof fn lemma_u32_at_is_written(s: Seq<u8>, pos: int)
    requires
        spec_u32_at(s, pos) is Some,
    ensures
        s.subrange(pos, pos + 4) == spec_u32_to_le_bytes(spec_u32_at(s, pos).unwrap().0),
{
    lemma_auto_spec_u32_to_from_le_bytes();
    assert(s.subrange(pos, pos + 4).len() == 4);
}

/// What was read as a `u64` is the written form of that `u64`.
pub proof fn lemma_u64_at_is_written(s: Seq<u8>, pos: int)
    requires
        spec_u64_at(s, pos) is Some,
    ensures
        s.subrange(pos, pos + 8) == spec_u64_to_le_bytes(spec_u64_at(s, pos).unwrap().0),
{
    lemma_auto_spec_u64_to_from_le_bytes();
    assert(s.subrange(pos, pos + 8).len() == 8);
}

/// What was read as a length-prefixed byte string is the written form of
/// that byte string.
pub proof fn lemma_prefixed_at_is_written(s: Seq<u8>, pos: int)
    requires
        spec_prefixed_at(s, pos) is Some,
    ensures
        spec_prefixed_at(s, pos).unwrap().0.len() <= MAX_LEN,
        spec_prefixed_at(s, pos).unwrap().1 == pos + 4 + spec_prefixed_at(s, pos).unwrap().0.len(),
        s.subrange(pos, spec_prefixed_at(s, pos).unwrap().1) == spec_prefixed(
            spec_prefixed_at(s, pos).unwrap().0,
        ),
{
    let (n, p) = spec_u32_at(s, pos).unwrap();
    let d = s.subrange(p, p + n);
    lemma_u32_at_is_written(s, pos);
    assert(d.len() == n);
    assert(s.subrange(pos, p + n) =~= s.subrange(pos, pos + 4) + d);
}

/// Appends `x` in its written form.
pub fn put_u32(out: &mut Vec<u8>, x: u32)
    ensures
        final(out)@ == old(out)@ + spec_u32_to_le_bytes(x),
{
    let b = u32_to_le_bytes(x);
    out.extend_from_slice(b.as_slice());
}

/// Appends `x` in its written form.
pub fn put_u64(out: &mut Vec<u8>, x: u64)
    ensures
        final(out)@ == old(out)@ + spec_u64_to_le_bytes(x),
{
    let b = u64_to_le_bytes(x);
    out.extend_from_slice(b.as_slice());
}

/// Appends `data` behind its length.
pub fn put_prefixed(out: &mut Vec<u8>, data: &[u8])
    requires
        data@.len() <= MAX_LEN,
    ensures
        final(out)@ == old(out)@ + spec_prefixed(data@),
{
    put_u32(out, data.len() as u32);
    out.extend_from_slice(data);
    assert(out@ =~= old(out)@ + spec_prefixed(data@));
}

/// Reads the `u32` at `pos`.
pub fn read_u32(buf: &[u8], pos: usize) -> (r: Option<(u32, usize)>)
    ensures
        r is Some <==> spec_u32_at(buf@, pos as int) is Some,
        r matches Some((v, p)) ==> spec_u32_at(buf@, pos as int) == Some((v, p as int)),
{
    if buf.len() < 4 || pos > buf.len() - 4 {
        return None;
    }
    let v = u32_from_le_bytes(slice_subrange(buf, pos, pos + 4));
    Some((v, pos + 4))
}

/// Reads the `u64` at `pos`.
pub fn read_u64(buf: &[u8], pos: usize) -> (r: Option<(u64, usize)>)
    ensures
        r is Some <==> spec_u64_at(buf@, pos as int) is Some,
        r matches Some((v, p)) ==> spec_u64_at(buf@, pos as int) == Some((v, p as int)),
{
    if buf.len() < 8 || pos > buf.len() - 8 {
        return None;
    }
    let v = u64_from_le_bytes(slice_subrange(buf, pos, pos + 8));
    Some((v, pos + 8))
}

/// Reads the length-prefixed byte string at `pos`.
pub fn read_prefixed(buf: &[u8], pos: usize) -> (r: Option<(Vec<u8>, usize)>)
    ensures
        r is Some <==> spec_prefixed_at(buf@, pos as int) is Some,
        r matches Some((v, p)) ==> spec_prefixed_at(buf@, pos as int) == Some((v@, p as int)),
{
    match read_u32(buf, pos) {
        None => None,
        Some((n, p)) => {
            if n as usize > buf.len() - p {
                return None;
            }
            let end = p + n as usize;
            Some((slice_to_vec(slice_subrange(buf, p, end)), end))
        },
    }
}

/// Copies the bytes from `pos` to the end of the buffer.
pub fn read_rest(buf: &[u8], pos: usize) -> (r: Vec<u8>)
    requires
        pos <= buf@.len(),
    ensures
        r@ == buf@.subrange(pos as int, buf@.len() as int),
{
    slice_to_vec(slice_subrange(buf, pos, buf.len()))
}

/// Whether two byte strings hold the same bytes.
pub fn same_bytes(a: &[u8], b: &[u8]) -> (r: bool)
    ensures
        r == (a@ == b@),
{
    if a.len() != b.len() {
        return false;
    }
    let mut i: usize = 0;
    while i < a.len()
        invariant
            i <= a.len(),
            a.len() == b.len(),
            forall|j: int| 0 <= j < i ==> a@[j] == b@[j],
        decreases a.len() - i,
    {
        if a[i] != b[i] {
            return false;
        }
        i = i + 1;
    }
    assert(a@ =~= b@);
    true
}

} // verus!
