//! Byte strings that are hashed into Fiat-Shamir challenges.
//!
//! A transcript is the concatenation, in a fixed order, of the canonical
//! encodings of the values it binds. Indices are written as eight bytes,
//! most significant first.

use vstd::prelude::*;

use crate::group::{Gt, G1, G2};
use crate::linear::{g1_views, g2_views};
use crate::scalar::Scalar;

verus! {

/// The eight bytes of an index, most significant first: the digits of the
/// index to the base 256.
pub open spec fn index_bytes(i: usize) -> Seq<u8> {
    let x = i as nat;
    seq![
        (x / 0x100_0000_0000_0000 % 256) as u8,
        (x / 0x1_0000_0000_0000 % 256) as u8,
        (x / 0x100_0000_0000 % 256) as u8,
        (x / 0x1_0000_0000 % 256) as u8,
        (x / 0x100_0000 % 256) as u8,
        (x / 0x1_0000 % 256) as u8,
        (x / 0x100 % 256) as u8,
        (x % 256) as u8,
    ]
}

/// The first `n` byte strings of a list, one after the other.
pub open spec fn concat(parts: Seq<Seq<u8>>, n: nat) -> Seq<u8>
    decreases n,
{
    if n == 0 {
        Seq::empty()
    } else {
        concat(parts, (n - 1) as nat) + parts[n - 1]
    }
}

/// The canonical encodings of the scalars of a list.
pub open spec fn encodings(scalars: Seq<Scalar>) -> Seq<Seq<u8>> {
    scalars.map_values(|s: Scalar| s.encoding())
}

/// The encodings of the first `n` indices of a list, one after the other.
pub open spec fn index_list_bytes(indices: Seq<usize>, n: nat) -> Seq<u8>
    decreases n,
{
    if n == 0 {
        Seq::empty()
    } else {
        index_list_bytes(indices, (n - 1) as nat) + index_bytes(indices[n - 1])
    }
}

/// Appends raw bytes.
pub fn absorb(buf: &mut Vec<u8>, bytes: &[u8])
    ensures
        final(buf)@ == old(buf)@ + bytes@,
{
    buf.extend_from_slice(bytes);
    assert(buf@ =~= old(buf)@ + bytes@);
}

/// Appends the encoding of a scalar.
pub fn absorb_scalar(buf: &mut Vec<u8>, s: &Scalar)
    ensures
        final(buf)@ == old(buf)@ + s.encoding(),
{
    let bytes = s.to_bytes();
    absorb(buf, bytes.as_slice());
}

/// Appends the encoding of a point of the first group.
pub fn absorb_g1(buf: &mut Vec<u8>, p: &G1)
    ensures
        final(buf)@ == old(buf)@ + p@,
{
    let bytes = p.to_bytes();
    absorb(buf, bytes.as_slice());
}

/// Appends the encoding of a point of the second group.
pub fn absorb_g2(buf: &mut Vec<u8>, p: &G2)
    ensures
        final(buf)@ == old(buf)@ + p@,
{
    let bytes = p.to_bytes();
    absorb(buf, bytes.as_slice());
}

/// Appends the encoding of an element of the target group.
pub fn absorb_gt(buf: &mut Vec<u8>, p: &Gt)
    ensures
        final(buf)@ == old(buf)@ + p@,
{
    let bytes = p.to_bytes();
    absorb(buf, bytes.as_slice());
}

/// Appends an index as eight bytes, most significant first.
pub fn absorb_index(buf: &mut Vec<u8>, i: usize)
    ensures
        final(buf)@ == old(buf)@ + index_bytes(i),
{
    let x: u64 = i as u64;
    buf.push(((x >> 56) & 0xff) as u8);
    buf.push(((x >> 48) & 0xff) as u8);
    buf.push(((x >> 40) & 0xff) as u8);
    buf.push(((x >> 32) & 0xff) as u8);
    buf.push(((x >> 24) & 0xff) as u8);
    buf.push(((x >> 16) & 0xff) as u8);
    buf.push(((x >> 8) & 0xff) as u8);
    buf.push((x & 0xff) as u8);
    proof {
        assert((x >> 56) & 0xff == x / 0x100_0000_0000_0000 % 256) by (bit_vector);
        assert((x >> 48) & 0xff == x / 0x1_0000_0000_0000 % 256) by (bit_vector);
        assert((x >> 40) & 0xff == x / 0x100_0000_0000 % 256) by (bit_vector);
        assert((x >> 32) & 0xff == x / 0x1_0000_0000 % 256) by (bit_vector);
        assert((x >> 24) & 0xff == x / 0x100_0000 % 256) by (bit_vector);
        assert((x >> 16) & 0xff == x / 0x1_0000 % 256) by (bit_vector);
        assert((x >> 8) & 0xff == x / 0x100 % 256) by (bit_vector);
        assert(x & 0xff == x % 256) by (bit_vector);
        assert(buf@ =~= old(buf)@ + index_bytes(i));
    }
}

/// Appends the encodings of the first `n` points of a list.
pub(crate) fn absorb_g1_list(buf: &mut Vec<u8>, points: &Vec<G1>, n: usize)
    requires
        n <= points.len(),
    ensures
        final(buf)@ == old(buf)@ + concat(g1_views(points@), n as nat),
{
    let mut i: usize = 0;
    while i < n
        invariant
            i <= n <= points.len(),
            buf@ == old(buf)@ + concat(g1_views(points@), i as nat),
        decreases n - i,
    {
        let ghost before = buf@;
        absorb_g1(buf, &points[i]);
        i += 1;
        assert(buf@ =~= old(buf)@ + concat(g1_views(points@), i as nat));
    }
}

/// Appends the encodings of the first `n` points of a list.
pub(crate) fn absorb_g2_list(buf: &mut Vec<u8>, points: &Vec<G2>, n: usize)
    requires
        n <= points.len(),
    ensures
        final(buf)@ == old(buf)@ + concat(g2_views(points@), n as nat),
{
    let mut i: usize = 0;
    while i < n
        invariant
            i <= n <= points.len(),
            buf@ == old(buf)@ + concat(g2_views(points@), i as nat),
        decreases n - i,
    {
        absorb_g2(buf, &points[i]);
        i += 1;
        assert(buf@ =~= old(buf)@ + concat(g2_views(points@), i as nat));
    }
}

/// Appends the encodings of all scalars of a list.
pub fn absorb_scalar_list(buf: &mut Vec<u8>, scalars: &Vec<Scalar>)
    ensures
        final(buf)@ == old(buf)@ + concat(encodings(scalars@), scalars@.len()),
{
    let n = scalars.len();
    let mut i: usize = 0;
    while i < n
        invariant
            i <= n == scalars.len(),
            buf@ == old(buf)@ + concat(encodings(scalars@), i as nat),
        decreases n - i,
    {
        absorb_scalar(buf, &scalars[i]);
        i += 1;
        assert(buf@ =~= old(buf)@ + concat(encodings(scalars@), i as nat));
    }
}

/// Appends the encodings of all indices of a list.
pub fn absorb_index_list(buf: &mut Vec<u8>, indices: &Vec<usize>)
    ensures
        final(buf)@ == old(buf)@ + index_list_bytes(indices@, indices@.len()),
{
    let n = indices.len();
    let mut i: usize = 0;
    while i < n
        invariant
            i <= n == indices.len(),
            buf@ == old(buf)@ + index_list_bytes(indices@, i as nat),
        decreases n - i,
    {
        absorb_index(buf, indices[i]);
        i += 1;
        assert(buf@ =~= old(buf)@ + index_list_bytes(indices@, i as nat));
    }
}

} // verus!
