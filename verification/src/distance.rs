//! Distance functions over hash byte vectors.
//!
//! Every distance is an exact rational `num / den` rather than a float:
//! - `hamming_distance`: differing bits over total bits, in `[0, 1]`.
//! - `byte_distance`: mean absolute byte difference over 255, in `[0, 1]`.
//! - `cosine_distance`: bytes are mapped affinely onto `[-1, 1]`; the
//!   distance is `1 / max(sim, 1e-6) - 1` for the cosine similarity `sim`,
//!   reported in millionths (so its range is `[0, 999_999]`).
//!
//! A distance of zero means "identical" for the first two and "parallel"
//! for the cosine; mismatched or empty vectors are rejected rather than
//! silently truncated.

use vstd::prelude::*;

verus! {

/// Largest hash-vector length the distance functions accept; keeps every
/// intermediate product inside `u128`.
pub const MAX_HASH_LEN: usize = 100_000_000;

/// Scale of the cosine distance: the reported numerator is in millionths.
pub const MICRO: u64 = 1_000_000;

/// Cosine distance reported when the similarity is at or below `1e-6`
/// (`1 / 1e-6 - 1`, in millionths).
pub const COSINE_CAP_MICRO: u64 = 999_999_000_000;

/// An exact non-negative rational distance value.
#[derive(Clone, Copy, Debug, PartialEq, Eq, Structural)]
pub struct Distance {
    pub num: u64,
    pub den: u64,
}

/// A distance value is meaningful only with a non-zero denominator.
pub open spec fn distance_wf(d: Distance) -> bool {
    d.den >= 1
}

/// `a <= b` as rationals, by cross multiplication.
pub open spec fn distance_le(a: Distance, b: Distance) -> bool {
    a.num * b.den <= b.num * a.den
}

/// `a < b` as rationals, by cross multiplication.
pub open spec fn distance_lt(a: Distance, b: Distance) -> bool {
    a.num * b.den < b.num * a.den
}

/// `a == b` as rationals, by cross multiplication.
pub open spec fn distance_eq_val(a: Distance, b: Distance) -> bool {
    a.num * b.den == b.num * a.den
}

/// Compares two distances as rationals.
pub fn distance_lt_exec(a: &Distance, b: &Distance) -> (r: bool)
    ensures
        r == distance_lt(*a, *b),
{
    proof {
        assert(a.num * b.den <= 0xFFFF_FFFF_FFFF_FFFFint * 0xFFFF_FFFF_FFFF_FFFFint
            && b.num * a.den <= 0xFFFF_FFFF_FFFF_FFFFint * 0xFFFF_FFFF_FFFF_FFFFint
            && 0xFFFF_FFFF_FFFF_FFFFint * 0xFFFF_FFFF_FFFF_FFFFint < 0x1_0000_0000_0000_0000_0000_0000_0000_0000int)
            by (nonlinear_arith)
            requires
                a.num <= 0xFFFF_FFFF_FFFF_FFFFu64,
                b.num <= 0xFFFF_FFFF_FFFF_FFFFu64,
                a.den <= 0xFFFF_FFFF_FFFF_FFFFu64,
                b.den <= 0xFFFF_FFFF_FFFF_FFFFu64,
        ;
    }
    (a.num as u128) * (b.den as u128) < (b.num as u128) * (a.den as u128)
}

/// Strict rational order is transitive (for positive denominators).
pub proof fn lemma_distance_lt_trans(a: Distance, b: Distance, c: Distance)
    requires
        a.den >= 1,
        b.den >= 1,
        c.den >= 1,
        distance_lt(a, b),
        distance_lt(b, c),
    ensures
        distance_lt(a, c),
{
    assert(a.num * c.den < c.num * a.den) by (nonlinear_arith)
        requires
            a.den >= 1,
            b.den >= 1,
            c.den >= 1,
            a.num * b.den < b.num * a.den,
            b.num * c.den < c.num * b.den,
    ;
}

/// Rational equality chains with strict order (for positive denominators).
pub proof fn lemma_distance_eq_lt_trans(a: Distance, b: Distance, c: Distance)
    requires
        a.den >= 1,
        b.den >= 1,
        c.den >= 1,
        distance_eq_val(a, b),
        distance_lt(b, c),
    ensures
        distance_lt(a, c),
{
    assert(a.num * c.den < c.num * a.den) by (nonlinear_arith)
        requires
            a.den >= 1,
            b.den >= 1,
            c.den >= 1,
            a.num * b.den == b.num * a.den,
            b.num * c.den < c.num * b.den,
    ;
}

/// Strict rational order chains with equality (for positive denominators).
pub proof fn lemma_distance_lt_eq_trans(a: Distance, b: Distance, c: Distance)
    requires
        a.den >= 1,
        b.den >= 1,
        c.den >= 1,
        distance_lt(a, b),
        distance_eq_val(b, c),
    ensures
        distance_lt(a, c),
{
    assert(a.num * c.den < c.num * a.den) by (nonlinear_arith)
        requires
            a.den >= 1,
            b.den >= 1,
            c.den >= 1,
            a.num * b.den < b.num * a.den,
            b.num * c.den == c.num * b.den,
    ;
}

/// Rational equality is transitive (for positive denominators).
pub proof fn lemma_distance_eq_trans(a: Distance, b: Distance, c: Distance)
    requires
        a.den >= 1,
        b.den >= 1,
        c.den >= 1,
        distance_eq_val(a, b),
        distance_eq_val(b, c),
    ensures
        distance_eq_val(a, c),
{
    assert(a.num * c.den == c.num * a.den) by (nonlinear_arith)
        requires
            a.den >= 1,
            b.den >= 1,
            c.den >= 1,
            a.num * b.den == b.num * a.den,
            b.num * c.den == c.num * b.den,
    ;
}

/// Why a distance could not be computed.
#[derive(Clone, Copy, Debug, PartialEq, Eq, Structural)]
pub enum DistanceError {
    /// The two vectors have different lengths.
    LengthMismatch,
    /// At least one vector is empty.
    EmptyVector,
}

/// Number of set bits in a byte.
pub open spec fn popcount8(x: u8) -> int {
    (((x >> 0) & 1) + ((x >> 1) & 1) + ((x >> 2) & 1) + ((x >> 3) & 1) + ((x >> 4) & 1)
        + ((x >> 5) & 1) + ((x >> 6) & 1) + ((x >> 7) & 1)) as int
}

/// Total number of bit positions at which the two vectors differ
/// (over their common prefix).
pub open spec fn hamming_num_spec(a: Seq<u8>, b: Seq<u8>) -> int
    decreases a.len(),
{
    if a.len() == 0 || b.len() == 0 {
        0
    } else {
        hamming_num_spec(a.drop_last(), b.drop_last()) + popcount8(
            (a[a.len() - 1] ^ b[b.len() - 1]),
        )
    }
}

fn popcount8_exec(x: u8) -> (r: u8)
    ensures
        r as int == popcount8(x),
        r <= 8,
{
    proof {
        assert(((x >> 0) & 1) <= 1 && ((x >> 1) & 1) <= 1 && ((x >> 2) & 1) <= 1 && ((x >> 3) & 1)
            <= 1 && ((x >> 4) & 1) <= 1 && ((x >> 5) & 1) <= 1 && ((x >> 6) & 1) <= 1 && ((x >> 7)
            & 1) <= 1) by (bit_vector);
    }
    ((x >> 0) & 1) + ((x >> 1) & 1) + ((x >> 2) & 1) + ((x >> 3) & 1) + ((x >> 4) & 1) + ((x >> 5)
        & 1) + ((x >> 6) & 1) + ((x >> 7) & 1)
}

proof fn lemma_popcount8_bounds(x: u8)
    ensures
        0 <= popcount8(x) <= 8,
{
    assert(((x >> 0) & 1) <= 1 && ((x >> 1) & 1) <= 1 && ((x >> 2) & 1) <= 1 && ((x >> 3) & 1) <= 1
        && ((x >> 4) & 1) <= 1 && ((x >> 5) & 1) <= 1 && ((x >> 6) & 1) <= 1 && ((x >> 7) & 1)
        <= 1) by (bit_vector);
}

proof fn lemma_hamming_num_bounds(a: Seq<u8>, b: Seq<u8>)
    requires
        a.len() == b.len(),
    ensures
        0 <= hamming_num_spec(a, b) <= 8 * a.len(),
    decreases a.len(),
{
    if a.len() > 0 {
        lemma_hamming_num_bounds(a.drop_last(), b.drop_last());
        lemma_popcount8_bounds((a[a.len() - 1] ^ b[b.len() - 1]));
    }
}

/// The bitwise distance between two equal-length, non-empty byte vectors:
/// the fraction of differing bits.  Rejects mismatched or empty input.
pub fn hamming_distance(hash_a: &Vec<u8>, hash_b: &Vec<u8>) -> (r: Result<Distance, DistanceError>)
    requires
        hash_a@.len() <= MAX_HASH_LEN,
        hash_b@.len() <= MAX_HASH_LEN,
    ensures
        hash_a@.len() != hash_b@.len() ==> r == Err::<Distance, DistanceError>(
            DistanceError::LengthMismatch,
        ),
        hash_a@.len() == hash_b@.len() && hash_a@.len() == 0 ==> r == Err::<
            Distance,
            DistanceError,
        >(DistanceError::EmptyVector),
        hash_a@.len() == hash_b@.len() && hash_a@.len() > 0 ==> {
            &&& r is Ok
            &&& r->Ok_0.num == hamming_num_spec(hash_a@, hash_b@)
            &&& r->Ok_0.den == 8 * hash_a@.len()
        },
{
    if hash_a.len() != hash_b.len() {
        return Err(DistanceError::LengthMismatch);
    }
    if hash_a.len() == 0 {
        return Err(DistanceError::EmptyVector);
    }
    let n = hash_a.len();
    let mut acc: u64 = 0;
    let mut i: usize = 0;
    while i < n
        invariant
            n == hash_a@.len() == hash_b@.len(),
            n <= MAX_HASH_LEN,
            0 <= i <= n,
            acc == hamming_num_spec(hash_a@.subrange(0, i as int), hash_b@.subrange(0, i as int)),
            acc <= 8 * i,
        decreases n - i,
    {
        let p = popcount8_exec(hash_a[i] ^ hash_b[i]);
        proof {
            let pa = hash_a@.subrange(0, i + 1);
            let pb = hash_b@.subrange(0, i + 1);
            assert(pa.drop_last() =~= hash_a@.subrange(0, i as int));
            assert(pb.drop_last() =~= hash_b@.subrange(0, i as int));
        }
        acc = acc + p as u64;
        i = i + 1;
    }
    proof {
        assert(hash_a@.subrange(0, n as int) =~= hash_a@);
        assert(hash_b@.subrange(0, n as int) =~= hash_b@);
    }
    Ok(Distance { num: acc, den: 8 * (n as u64) })
}

/// Differing bits of a vector against itself: none.
pub proof fn lemma_hamming_self_zero(a: Seq<u8>)
    ensures
        hamming_num_spec(a, a) == 0,
    decreases a.len(),
{
    if a.len() > 0 {
        lemma_hamming_self_zero(a.drop_last());
        let x = a[a.len() - 1];
        assert((x ^ x) == 0) by (bit_vector);
        assert(popcount8(0) == 0) by (bit_vector);
    }
}

/// The bitwise distance is symmetric in its two arguments.
pub proof fn lemma_hamming_symmetric(a: Seq<u8>, b: Seq<u8>)
    requires
        a.len() == b.len(),
    ensures
        hamming_num_spec(a, b) == hamming_num_spec(b, a),
    decreases a.len(),
{
    if a.len() > 0 {
        lemma_hamming_symmetric(a.drop_last(), b.drop_last());
        let x = a[a.len() - 1];
        let y = b[b.len() - 1];
        assert((x ^ y) == (y ^ x)) by (bit_vector);
    }
}

/// Absolute difference of two bytes.
pub open spec fn abs_diff(a: u8, b: u8) -> int {
    if a >= b {
        a - b
    } else {
        b - a
    }
}

/// Sum of absolute byte differences over the common prefix.
pub open spec fn byte_num_spec(a: Seq<u8>, b: Seq<u8>) -> int
    decreases a.len(),
{
    if a.len() == 0 || b.len() == 0 {
        0
    } else {
        byte_num_spec(a.drop_last(), b.drop_last()) + abs_diff(a[a.len() - 1], b[b.len() - 1])
    }
}

proof fn lemma_byte_num_bounds(a: Seq<u8>, b: Seq<u8>)
    requires
        a.len() == b.len(),
    ensures
        0 <= byte_num_spec(a, b) <= 255 * a.len(),
    decreases a.len(),
{
    if a.len() > 0 {
        lemma_byte_num_bounds(a.drop_last(), b.drop_last());
    }
}

/// The mean absolute byte difference of two equal-length, non-empty
/// vectors, as a fraction of the largest possible difference.
pub fn byte_distance(hash_a: &Vec<u8>, hash_b: &Vec<u8>) -> (r: Result<Distance, DistanceError>)
    requires
        hash_a@.len() <= MAX_HASH_LEN,
        hash_b@.len() <= MAX_HASH_LEN,
    ensures
        hash_a@.len() != hash_b@.len() ==> r == Err::<Distance, DistanceError>(
            DistanceError::LengthMismatch,
        ),
        hash_a@.len() == hash_b@.len() && hash_a@.len() == 0 ==> r == Err::<
            Distance,
            DistanceError,
        >(DistanceError::EmptyVector),
        hash_a@.len() == hash_b@.len() && hash_a@.len() > 0 ==> {
            &&& r is Ok
            &&& r->Ok_0.num == byte_num_spec(hash_a@, hash_b@)
            &&& r->Ok_0.den == 255 * hash_a@.len()
        },
{
    if hash_a.len() != hash_b.len() {
        return Err(DistanceError::LengthMismatch);
    }
    if hash_a.len() == 0 {
        return Err(DistanceError::EmptyVector);
    }
    let n = hash_a.len();
    let mut acc: u64 = 0;
    let mut i: usize = 0;
    while i < n
        invariant
            n == hash_a@.len() == hash_b@.len(),
            n <= MAX_HASH_LEN,
            0 <= i <= n,
            acc == byte_num_spec(hash_a@.subrange(0, i as int), hash_b@.subrange(0, i as int)),
            acc <= 255 * i,
        decreases n - i,
    {
        let x = hash_a[i];
        let y = hash_b[i];
        let d: u8 = if x >= y {
            x - y
        } else {
            y - x
        };
        proof {
            let pa = hash_a@.subrange(0, i + 1);
            let pb = hash_b@.subrange(0, i + 1);
            assert(pa.drop_last() =~= hash_a@.subrange(0, i as int));
            assert(pb.drop_last() =~= hash_b@.subrange(0, i as int));
        }
        acc = acc + d as u64;
        i = i + 1;
    }
    proof {
        assert(hash_a@.subrange(0, n as int) =~= hash_a@);
        assert(hash_b@.subrange(0, n as int) =~= hash_b@);
    }
    Ok(Distance { num: acc, den: 255 * (n as u64) })
}

/// The mean absolute byte difference is symmetric in its two arguments.
pub proof fn lemma_byte_symmetric(a: Seq<u8>, b: Seq<u8>)
    requires
        a.len() == b.len(),
    ensures
        byte_num_spec(a, b) == byte_num_spec(b, a),
    decreases a.len(),
{
    if a.len() > 0 {
        lemma_byte_symmetric(a.drop_last(), b.drop_last());
    }
}

/// A byte mapped affinely onto the odd integers of `[-255, 255]`
/// (255 times the `[-1, 1]` component the cosine distance works over).
pub open spec fn centered(v: u8) -> int {
    2 * (v as int) - 255
}

/// Dot product of two byte vectors after centering, over the common prefix.
pub open spec fn dot_spec(a: Seq<u8>, b: Seq<u8>) -> int
    decreases a.len(),
{
    if a.len() == 0 || b.len() == 0 {
        0
    } else {
        dot_spec(a.drop_last(), b.drop_last()) + centered(a[a.len() - 1]) * centered(
            b[b.len() - 1],
        )
    }
}

proof fn lemma_dot_bounds(a: Seq<u8>, b: Seq<u8>)
    requires
        a.len() == b.len(),
    ensures
        -65025 * a.len() <= dot_spec(a, b) <= 65025 * a.len(),
    decreases a.len(),
{
    if a.len() > 0 {
        lemma_dot_bounds(a.drop_last(), b.drop_last());
        let x = centered(a[a.len() - 1]);
        let y = centered(b[b.len() - 1]);
        assert(-65025 <= x * y <= 65025) by (nonlinear_arith)
            requires
                -255 <= x <= 255,
                -255 <= y <= 255,
        ;
    }
}

proof fn lemma_sq_sum_bounds(a: Seq<u8>)
    ensures
        0 <= dot_spec(a, a) <= 65025 * a.len(),
        a.len() > 0 ==> dot_spec(a, a) >= 1,
    decreases a.len(),
{
    if a.len() > 0 {
        lemma_sq_sum_bounds(a.drop_last());
        let x = centered(a[a.len() - 1]);
        assert(x != 0);
        assert(1 <= x * x <= 65025) by (nonlinear_arith)
            requires
                -255 <= x <= 255,
                x != 0,
        ;
    }
}

/// The dot product is symmetric in its two arguments.
proof fn lemma_dot_symmetric(a: Seq<u8>, b: Seq<u8>)
    requires
        a.len() == b.len(),
    ensures
        dot_spec(a, b) == dot_spec(b, a),
    decreases a.len(),
{
    if a.len() > 0 {
        lemma_dot_symmetric(a.drop_last(), b.drop_last());
    }
}

/// The integer square root: the largest `r` with `r * r <= n`.
pub open spec fn isqrt_spec(n: int) -> int
    decreases n,
{
    if n <= 0 {
        0
    } else {
        let r = isqrt_spec(n - 1);
        if (r + 1) * (r + 1) <= n {
            r + 1
        } else {
            r
        }
    }
}

proof fn lemma_isqrt_props(n: int)
    requires
        n >= 0,
    ensures
        isqrt_spec(n) >= 0,
        isqrt_spec(n) * isqrt_spec(n) <= n,
        n < (isqrt_spec(n) + 1) * (isqrt_spec(n) + 1),
    decreases n,
{
    if n > 0 {
        lemma_isqrt_props(n - 1);
        let r = isqrt_spec(n - 1);
        if (r + 1) * (r + 1) <= n {
            assert((r + 2) * (r + 2) > (r + 1) * (r + 1)) by (nonlinear_arith)
                requires
                    r >= 0,
            ;
        }
    }
}

proof fn lemma_isqrt_unique(n: int, r: int)
    requires
        n >= 0,
        r >= 0,
        r * r <= n,
        n < (r + 1) * (r + 1),
    ensures
        r == isqrt_spec(n),
{
    lemma_isqrt_props(n);
    let s = isqrt_spec(n);
    if r < s {
        assert((r + 1) * (r + 1) <= s * s) by (nonlinear_arith)
            requires
                0 <= r,
                r + 1 <= s,
        ;
    }
    if s < r {
        assert((s + 1) * (s + 1) <= r * r) by (nonlinear_arith)
            requires
                0 <= s,
                s + 1 <= r,
        ;
    }
}

fn isqrt_exec(n: u128) -> (r: u128)
    requires
        n < 0x4000_0000_0000_0000_0000_0000_0000_0000u128,  // 2^126
    ensures
        r as int == isqrt_spec(n as int),
{
    let mut lo: u128 = 0;
    let mut hi: u128 = 0x8000_0000_0000_0000u128;  // 2^63
    proof {
        assert(0x8000_0000_0000_0000int * 0x8000_0000_0000_0000int
            == 0x4000_0000_0000_0000_0000_0000_0000_0000int) by (nonlinear_arith);
    }
    while hi - lo > 1
        invariant
            lo < hi <= 0x8000_0000_0000_0000u128,
            lo * lo <= n,
            hi * hi > n,
        decreases hi - lo,
    {
        let mid = lo + (hi - lo) / 2;
        proof {
            assert(mid * mid < 0x8000_0000_0000_0000 * 0x8000_0000_0000_0000) by (nonlinear_arith)
                requires
                    mid < 0x8000_0000_0000_0000u128,
            ;
        }
        if mid * mid <= n {
            lo = mid;
        } else {
            hi = mid;
        }
    }
    proof {
        lemma_isqrt_unique(n as int, lo as int);
    }
    lo
}

/// The cosine distance of two equal-length vectors, in millionths.
///
/// Zero stands for parallel (identical direction); a similarity at or
/// below `1e-6` — including every anti-parallel pair — is capped at just
/// below one million distance units.  Empty input has zero magnitude and
/// is defined as distance zero.
pub open spec fn cosine_micro_spec(a: Seq<u8>, b: Seq<u8>) -> int {
    if a.len() == 0 {
        0
    } else {
        let d = dot_spec(a, b);
        if d <= 0 {
            COSINE_CAP_MICRO as int
        } else {
            let m = dot_spec(a, a) * dot_spec(b, b);
            let q = isqrt_spec(m * (MICRO as int) * (MICRO as int)) / d;
            if q >= MICRO {
                if q - MICRO <= COSINE_CAP_MICRO {
                    q - MICRO
                } else {
                    COSINE_CAP_MICRO as int
                }
            } else {
                0
            }
        }
    }
}

/// The angular distance between two equal-length, non-empty vectors,
/// in millionths: `1 / max(cosine_similarity, 1e-6) - 1` after mapping
/// each byte onto `[-1, 1]`.  Rejects mismatched or empty input.
pub fn cosine_distance(hash_a: &Vec<u8>, hash_b: &Vec<u8>) -> (r: Result<Distance, DistanceError>)
    requires
        hash_a@.len() <= MAX_HASH_LEN,
        hash_b@.len() <= MAX_HASH_LEN,
    ensures
        hash_a@.len() != hash_b@.len() ==> r == Err::<Distance, DistanceError>(
            DistanceError::LengthMismatch,
        ),
        hash_a@.len() == hash_b@.len() && hash_a@.len() == 0 ==> r == Err::<
            Distance,
            DistanceError,
        >(DistanceError::EmptyVector),
        hash_a@.len() == hash_b@.len() && hash_a@.len() > 0 ==> {
            &&& r is Ok
            &&& r->Ok_0.num == cosine_micro_spec(hash_a@, hash_b@)
            &&& r->Ok_0.den == MICRO
        },
{
    if hash_a.len() != hash_b.len() {
        return Err(DistanceError::LengthMismatch);
    }
    if hash_a.len() == 0 {
        return Err(DistanceError::EmptyVector);
    }
    let n = hash_a.len();
    let mut dot: i128 = 0;
    let mut sq_a: i128 = 0;
    let mut sq_b: i128 = 0;
    let mut i: usize = 0;
    while i < n
        invariant
            n == hash_a@.len() == hash_b@.len(),
            n <= MAX_HASH_LEN,
            0 <= i <= n,
            dot == dot_spec(hash_a@.subrange(0, i as int), hash_b@.subrange(0, i as int)),
            sq_a == dot_spec(hash_a@.subrange(0, i as int), hash_a@.subrange(0, i as int)),
            sq_b == dot_spec(hash_b@.subrange(0, i as int), hash_b@.subrange(0, i as int)),
            -65025 * i <= dot <= 65025 * i,
            0 <= sq_a <= 65025 * i,
            0 <= sq_b <= 65025 * i,
        decreases n - i,
    {
        let x: i128 = 2 * (hash_a[i] as i128) - 255;
        let y: i128 = 2 * (hash_b[i] as i128) - 255;
        proof {
            let pa = hash_a@.subrange(0, i + 1);
            let pb = hash_b@.subrange(0, i + 1);
            assert(pa.drop_last() =~= hash_a@.subrange(0, i as int));
            assert(pb.drop_last() =~= hash_b@.subrange(0, i as int));
            assert(-65025 <= x * y <= 65025 && 0 <= x * x <= 65025 && 0 <= y * y <= 65025)
                by (nonlinear_arith)
                requires
                    -255 <= x <= 255,
                    -255 <= y <= 255,
            ;
        }
        dot = dot + x * y;
        sq_a = sq_a + x * x;
        sq_b = sq_b + y * y;
        i = i + 1;
    }
    proof {
        assert(hash_a@.subrange(0, n as int) =~= hash_a@);
        assert(hash_b@.subrange(0, n as int) =~= hash_b@);
    }
    let num: u64 = if dot <= 0 {
        COSINE_CAP_MICRO
    } else {
        proof {
            assert(sq_a * sq_b <= 6502500000000 * 6502500000000) by (nonlinear_arith)
                requires
                    0 <= sq_a <= 6502500000000,
                    0 <= sq_b <= 6502500000000,
            ;
            assert((6502500000000int * 6502500000000int) * 1000000000000int
                < 0x4000_0000_0000_0000_0000_0000_0000_0000int) by (nonlinear_arith);
            assert(sq_a * sq_b >= 0) by (nonlinear_arith)
                requires
                    0 <= sq_a,
                    0 <= sq_b,
            ;
        }
        let m: u128 = (sq_a as u128) * (sq_b as u128);
        proof {
            assert(m * 1000000000000 <= (6502500000000 * 6502500000000) * 1000000000000)
                by (nonlinear_arith)
                requires
                    m <= 6502500000000u128 * 6502500000000u128,
            ;
        }
        let root: u128 = isqrt_exec(m * 1_000_000_000_000u128);
        let q: u128 = root / (dot as u128);
        proof {
            assert((MICRO as int) * (MICRO as int) == 1000000000000int) by (nonlinear_arith);
        }
        if q >= 1_000_000 {
            if q - 1_000_000 <= COSINE_CAP_MICRO as u128 {
                (q - 1_000_000) as u64
            } else {
                COSINE_CAP_MICRO
            }
        } else {
            0
        }
    };
    Ok(Distance { num, den: MICRO })
}

/// The cosine distance of any non-empty vector to itself is exactly zero.
pub proof fn lemma_cosine_self_zero(a: Seq<u8>)
    requires
        a.len() > 0,
    ensures
        cosine_micro_spec(a, a) == 0,
{
    lemma_sq_sum_bounds(a);
    let m2 = dot_spec(a, a);
    let root = m2 * (MICRO as int);
    assert((m2 * (MICRO as int)) * (m2 * (MICRO as int)) == ((m2 * m2) * (MICRO as int)) * (
    MICRO as int)) by (nonlinear_arith);
    assert(root * root < (root + 1) * (root + 1)) by (nonlinear_arith)
        requires
            root >= 0,
    ;
    lemma_isqrt_unique((m2 * m2) * (MICRO as int) * (MICRO as int), root);
    vstd::arithmetic::div_mod::lemma_fundamental_div_mod_converse(root, m2, MICRO as int, 0);
}

/// The cosine distance is symmetric in its two arguments.
pub proof fn lemma_cosine_symmetric(a: Seq<u8>, b: Seq<u8>)
    requires
        a.len() == b.len(),
    ensures
        cosine_micro_spec(a, b) == cosine_micro_spec(b, a),
{
    lemma_dot_symmetric(a, b);
    if a.len() > 0 && dot_spec(a, b) > 0 {
        assert(dot_spec(a, a) * dot_spec(b, b) == dot_spec(b, b) * dot_spec(a, a))
            by (nonlinear_arith);
    }
}

} // verus!
