use vstd::prelude::*;

use crate::buffer::{extract, region_channels, PixelBuffer};
use crate::region::{region_fits, Region};

verus! {

/// The interest score of a byte sequence: the bit pattern of the IEEE single
/// that holds the Shannon entropy, in bits, of the sequence's byte-value
/// distribution. The entropy is non-negative and finite, so unsigned
/// comparison of two such patterns agrees with numeric comparison of the
/// entropies, and the pattern of an entropy of zero bits is zero.
pub uninterp spec fn entropy_bits_of(data: Seq<u8>) -> u64;

/// Every byte of `s` equals its first byte: the distribution has at most one
/// occupied bucket.
pub open spec fn uniform_bytes(s: Seq<u8>) -> bool {
    forall|i: int| 0 <= i < s.len() ==> #[trigger] s[i] == s[0]
}

/// The score of every candidate window, in candidate order.
pub open spec fn region_scores(buf: PixelBuffer, rs: Seq<Region>) -> Seq<u64> {
    Seq::new(rs.len(), |k: int| entropy_bits_of(region_channels(buf, rs[k])))
}

/// Relies on `entropy::shannon_entropy`: it tallies the bytes of `data` into
/// a 256-bucket histogram and returns the Shannon entropy of the resulting
/// distribution, a non-negative finite single. The value is computed from the
/// histogram alone, so reordering the bytes cannot change it; when every byte
/// is the same (at most one occupied bucket, or no bytes at all) it is
/// exactly zero.
#[verifier::external_body]
fn shannon_entropy_bits(data: &Vec<u8>) -> (r: u64)
    ensures
        r == entropy_bits_of(data@),
        forall|other: Seq<u8>| other.to_multiset() == data@.to_multiset()
            ==> #[trigger] entropy_bits_of(other) == r,
        uniform_bytes(data@) ==> r == 0,
{
    entropy::shannon_entropy(data.as_slice()).to_bits() as u64
}

/// Scores a region of the buffer: the Shannon entropy, in bits, of the pooled
/// distribution of the region's channel bytes, as an order-preserving bit
/// pattern. The score depends only on how often each intensity occurs, never
/// on where: permuting the region's pixels leaves it unchanged, and a region
/// whose channel bytes are all one value scores zero.
pub fn score_region(buf: &PixelBuffer, reg: Region) -> (s: u64)
    requires
        buf.wf(),
        region_fits(reg, buf.width, buf.height),
    ensures
        s == entropy_bits_of(region_channels(*buf, reg)),
        forall|other: Seq<u8>| other.to_multiset() == region_channels(*buf, reg).to_multiset()
            ==> #[trigger] entropy_bits_of(other) == s,
        uniform_bytes(region_channels(*buf, reg)) ==> s == 0,
{
    let sub = extract(buf, reg);
    shannon_entropy_bits(&sub.data)
}

} // verus!
