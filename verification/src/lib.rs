//! A difference hash ("dhash") over raw decoded pixel data.
//!
//! The caller supplies the pixel bytes together with their geometry (width,
//! height, channel count); the library reduces them over a fixed 9-column by
//! 8-row grid of cells, compares each cell with its right neighbour, and packs
//! the 64 comparison outcomes into a [`Dhash`] value.  Two hashes are compared
//! by Hamming distance; a distance below a fixed threshold counts as "similar".
use vstd::prelude::*;

pub mod grid;
pub mod hex;
pub mod popcount;

verus! {

use crate::grid::cell_intensity;
use crate::popcount::{popcount, popcount_low, lemma_popcount_low_le, lemma_popcount_low_zero};
use vstd::arithmetic::power2::{
    pow2,
    lemma_pow2_unfold,
    lemma_pow2_strictly_increases,
    lemma2_to64,
};
use vstd::bits::{lemma_u64_shl_is_mul, lemma_u64_pow2_no_overflow};

/// Two fingerprints whose Hamming distance is strictly below this threshold
/// are considered to show the same image.
pub const SIMILARITY_THRESHOLD: u32 = 11;

/// A 64-bit perceptual fingerprint of an image.
#[derive(Debug, Clone, Copy)]
pub struct Dhash {
    pub hash: u64,
}

/// Hamming distance between the two fingerprints, as a count of differing bits.
pub open spec fn hamming(a: Dhash, b: Dhash) -> nat {
    popcount(a.hash ^ b.hash)
}

/// The similarity relation: close in Hamming distance.  Deliberately not
/// transitive.
pub open spec fn similar(a: Dhash, b: Dhash) -> bool {
    hamming(a, b) < SIMILARITY_THRESHOLD
}

/// Bit `i` of the signature: whether the cell in row `i / 8`, column `i % 8`
/// is strictly brighter than its right neighbour.  Ties leave the bit clear.
pub open spec fn grid_bit(
    bytes: Seq<u8>,
    width: int,
    channel_count: int,
    cell_width: nat,
    cell_height: nat,
    i: int,
) -> bool {
    cell_intensity(bytes, width, channel_count, cell_width, cell_height, i / 8, i % 8)
        > cell_intensity(bytes, width, channel_count, cell_width, cell_height, i / 8, i % 8 + 1)
}

/// The signature packed from the low `n` grid bits, least-significant first.
pub open spec fn hash_fold(
    bytes: Seq<u8>,
    width: int,
    channel_count: int,
    cell_width: nat,
    cell_height: nat,
    n: nat,
) -> int
    decreases n,
{
    if n == 0 {
        0
    } else {
        hash_fold(bytes, width, channel_count, cell_width, cell_height, (n - 1) as nat) + (
        if grid_bit(bytes, width, channel_count, cell_width, cell_height, n - 1) {
            pow2((n - 1) as nat) as int
        } else {
            0
        })
    }
}

/// The difference hash of a pixel buffer with the given geometry: cells of
/// `width / 9` by `height / 8` pixels, 64 neighbour comparisons.
pub open spec fn hash_of(bytes: Seq<u8>, width: int, height: int, channel_count: int) -> int {
    hash_fold(
        bytes,
        width,
        channel_count,
        (width / 9) as nat,
        (height / 8) as nat,
        64,
    )
}

/// The packed signature of `n` bits is below `2^n`; with `n == 64` it fits a
/// 64-bit word, so a hash computation always yields a value in `[0, 2^64)`.
pub proof fn lemma_hash_fold_bound(
    bytes: Seq<u8>,
    width: int,
    channel_count: int,
    cell_width: nat,
    cell_height: nat,
    n: nat,
)
    ensures
        0 <= hash_fold(bytes, width, channel_count, cell_width, cell_height, n) < pow2(n),
    decreases n,
{
    lemma2_to64();
    if n > 0 {
        lemma_hash_fold_bound(bytes, width, channel_count, cell_width, cell_height, (n - 1) as nat);
        lemma_pow2_unfold(n);
    }
}

proof fn lemma_hash_fold_degenerate(
    bytes: Seq<u8>,
    width: int,
    channel_count: int,
    cell_width: nat,
    cell_height: nat,
    n: nat,
)
    requires
        cell_width == 0 || cell_height == 0,
    ensures
        hash_fold(bytes, width, channel_count, cell_width, cell_height, n) == 0,
    decreases n,
{
    if n > 0 {
        lemma_hash_fold_degenerate(
            bytes,
            width,
            channel_count,
            cell_width,
            cell_height,
            (n - 1) as nat,
        );
        crate::grid::lemma_cell_intensity_degenerate(
            bytes,
            width,
            channel_count,
            cell_width,
            cell_height,
            (n - 1) / 8,
            (n - 1) % 8,
        );
        crate::grid::lemma_cell_intensity_degenerate(
            bytes,
            width,
            channel_count,
            cell_width,
            cell_height,
            (n - 1) / 8,
            (n - 1) % 8 + 1,
        );
    }
}

/// Degenerate geometry: an image narrower than 9 or shorter than 8 pixels
/// still hashes, every cell covering no pixels resolves to intensity 0, and
/// with every cell empty all 64 comparisons tie, so the hash is 0.
pub proof fn lemma_degenerate_geometry(bytes: Seq<u8>, width: int, height: int, channel_count: int)
    requires
        0 <= width,
        0 <= height,
        width < 9 || height < 8,
    ensures
        hash_of(bytes, width, height, channel_count) == 0,
{
    lemma_hash_fold_degenerate(
        bytes,
        width,
        channel_count,
        (width / 9) as nat,
        (height / 8) as nat,
        64,
    );
}

/// Every hash value lies in the 64-bit range.
pub proof fn lemma_hash_of_in_range(bytes: Seq<u8>, width: int, height: int, channel_count: int)
    ensures
        0 <= hash_of(bytes, width, height, channel_count) < 0x1_0000_0000_0000_0000,
{
    lemma_hash_fold_bound(
        bytes,
        width,
        channel_count,
        (width / 9) as nat,
        (height / 8) as nat,
        64,
    );
    lemma2_to64();
}

impl Dhash {
    /// Computes the fingerprint of `bytes`, a row-major buffer of `width *
    /// height` pixels of `channel_count` interleaved channels.  The length of
    /// the buffer must match the declared geometry exactly; for a checked
    /// entry point see [`Dhash::try_new`].
    #[verifier::loop_isolation(false)]
    pub fn new(bytes: &[u8], width: u32, height: u32, channel_count: u8) -> (r: Self)
        requires
            channel_count >= 1,
            width * height * channel_count == bytes@.len(),
        ensures
            r.hash == hash_of(bytes@, width as int, height as int, channel_count as int),
    {
        let w = width as usize;
        let h = height as usize;
        let cc = channel_count as usize;
        let len = bytes.len();
        let cw = w / 9;
        let ch = h / 8;
        proof {
            assert(w * h * cc == len) by (nonlinear_arith)
                requires
                    w == width,
                    h == height,
                    cc == channel_count,
                    width * height * channel_count == len,
            ;
            assert(9 * cw <= w && 8 * ch <= h);
            assert(w * (8 * ch) * cc <= w * h * cc) by (nonlinear_arith)
                requires
                    8 * ch <= h,
                    w >= 0,
                    cc >= 0,
            ;
        }
        let grid = if cc >= 3 {
            crate::grid::from_rgb_bytes(bytes, w, cw, ch, cc)
        } else {
            crate::grid::from_luma_bytes(bytes, w, cw, ch, cc)
        };
        assert(forall|gy: int, gx: int|
            0 <= gy < 8 && 0 <= gx < 9 ==> grid@[gy * 9 + gx] == #[trigger] cell_intensity(
                bytes@,
                w as int,
                cc as int,
                cw as nat,
                ch as nat,
                gy,
                gx,
            ));
        proof {
            lemma2_to64();
        }
        let mut hash: u64 = 0;
        let mut idx: usize = 0;
        while idx < 64
            invariant
                idx <= 64,
                hash == hash_fold(bytes@, w as int, cc as int, cw as nat, ch as nat, idx as nat),
                hash < pow2(idx as nat),
            decreases 64 - idx,
        {
            let y = idx / 8;
            let x = idx % 8;
            proof {
                lemma_u64_pow2_no_overflow(idx as nat);
                lemma_u64_shl_is_mul(1u64, idx as u64);
                if idx < 63 {
                    lemma_pow2_strictly_increases((idx + 1) as nat, 64);
                }
                lemma_pow2_unfold((idx + 1) as nat);
                lemma2_to64();
            }
            if grid[y * 9 + x] > grid[y * 9 + x + 1] {
                hash = hash + (1u64 << (idx as u64));
            }
            idx = idx + 1;
        }
        Dhash { hash }
    }

    /// Length-checked construction: computes the fingerprint when the buffer
    /// length matches the declared geometry (with at least one channel), and
    /// reports the mismatch with `None` otherwise.
    pub fn try_new(bytes: &[u8], width: u32, height: u32, channel_count: u8) -> (r: Option<Self>)
        ensures
            r is Some <==> channel_count >= 1 && width * height * channel_count == bytes@.len(),
            r matches Some(d) ==> d.hash == hash_of(
                bytes@,
                width as int,
                height as int,
                channel_count as int,
            ),
    {
        if channel_count == 0 {
            return None;
        }
        proof {
            assert((width as int) * (height as int) <= 0xffff_ffff * 0xffff_ffff && (width as int)
                * (height as int) * (channel_count as int) <= 0xffff_ffff * 0xffff_ffff
                * 0xff) by (nonlinear_arith)
                requires
                    width <= 0xffff_ffff,
                    height <= 0xffff_ffff,
                    channel_count <= 0xff,
            ;
        }
        let expected: u128 = (width as u128) * (height as u128) * (channel_count as u128);
        let actual: u128 = bytes.len() as u128;
        if expected != actual {
            return None;
        }
        Some(Self::new(bytes, width, height, channel_count))
    }

    /// Wraps an already-known 64-bit value; every value is a valid fingerprint.
    pub fn from_raw(hash: u64) -> (r: Self)
        ensures
            r.hash == hash,
    {
        Dhash { hash }
    }

    /// Number of bit positions in which the two fingerprints differ.
    pub fn hamming_distance(&self, other: &Self) -> (d: u32)
        ensures
            d == hamming(*self, *other),
            d <= 64,
    {
        let x: u64 = self.hash ^ other.hash;
        let mut count: u32 = 0;
        for i in 0..64u64
            invariant
                count == popcount_low(x, i as nat),
        {
            proof {
                lemma_popcount_low_le(x, i as nat);
                assert((x >> i) & 1 <= 1) by (bit_vector);
            }
            let bit: u64 = (x >> i) & 1;
            count = count + (bit as u32);
        }
        proof {
            lemma_popcount_low_le(x, 64);
        }
        count
    }

    /// True when the two fingerprints are within the similarity threshold.
    pub fn is_similar(&self, other: &Self) -> (r: bool)
        ensures
            r == similar(*self, *other),
    {
        self.hamming_distance(other) < SIMILARITY_THRESHOLD
    }
}

impl PartialEq for Dhash {
    /// Similarity equality, not bit-exact identity: two fingerprints are equal
    /// when their Hamming distance lies below [`SIMILARITY_THRESHOLD`].  The
    /// relation is symmetric but deliberately not transitive.
    fn eq(&self, other: &Self) -> (r: bool) {
        self.hamming_distance(other) < SIMILARITY_THRESHOLD
    }
}

impl vstd::std_specs::cmp::PartialEqSpecImpl for Dhash {
    open spec fn obeys_eq_spec() -> bool {
        true
    }

    open spec fn eq_spec(&self, other: &Self) -> bool {
        similar(*self, *other)
    }
}

/// A fingerprint is at distance zero from itself, and hence similar to itself.
pub proof fn lemma_self_similar(a: Dhash)
    ensures
        hamming(a, a) == 0,
        similar(a, a),
{
    let x = a.hash;
    assert(x ^ x == 0) by (bit_vector);
    lemma_popcount_low_zero(64);
}

/// Hamming distance is symmetric.
pub proof fn lemma_hamming_symmetric(a: Dhash, b: Dhash)
    ensures
        hamming(a, b) == hamming(b, a),
{
    let x = a.hash;
    let y = b.hash;
    assert(x ^ y == y ^ x) by (bit_vector);
}

/// Hamming distance reaches 64 exactly between a fingerprint and its bitwise
/// complement.
pub proof fn lemma_hamming_full_iff_complement(a: Dhash, b: Dhash)
    ensures
        hamming(a, b) == 64 <==> b.hash == !a.hash,
{
    let x = a.hash;
    let y = b.hash;
    if hamming(a, b) == 64 {
        crate::popcount::lemma_popcount_full_is_max(x ^ y);
        assert(x ^ y == 0xffff_ffff_ffff_ffffu64 ==> y == !x) by (bit_vector);
    }
    if y == !x {
        assert(x ^ !x == 0xffff_ffff_ffff_ffffu64) by (bit_vector);
        crate::popcount::lemma_popcount_max(64);
    }
}

} // verus!
