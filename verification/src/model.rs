//! The mathematical model of a capture: pairs, clipping, time buckets, and
//! the counting functions that every contract of the crate speaks of.

use vstd::prelude::*;

verus! {

/// One channel value is clipped when it sits at either rail of the 8-bit
/// range.
pub open spec fn clips(v: u8) -> bool {
    v == 0 || v == 255
}

/// The four per-channel clipping extremes that the global counters and the
/// breakout counters distinguish.
#[derive(Clone, Copy, PartialEq, Eq, Structural, Debug)]
pub enum ClipKind {
    ILow,
    IHigh,
    QLow,
    QHigh,
}

/// Whether the pair `p = (i, q)` exhibits the extreme `k`.
pub open spec fn pair_has(p: (u8, u8), k: ClipKind) -> bool {
    match k {
        ClipKind::ILow => p.0 == 0,
        ClipKind::IHigh => p.0 == 255,
        ClipKind::QLow => p.1 == 0,
        ClipKind::QHigh => p.1 == 255,
    }
}

/// Whether the pair is clipped on any channel at any rail.  A pair clipped on
/// both channels still counts once under this predicate: it is the
/// deduplicated rule of the per-second map, as opposed to the
/// per-channel-per-extreme rule of [`pair_has`].
pub open spec fn pair_clipped(p: (u8, u8)) -> bool {
    p.0 == 0 || p.0 == 255 || p.1 == 0 || p.1 == 255
}

/// The I/Q pairs of a raw byte buffer: non-overlapping consecutive 2-byte
/// groups, a trailing odd byte dropped.
pub open spec fn pairs_of(bytes: Seq<u8>) -> Seq<(u8, u8)> {
    Seq::new((bytes.len() / 2) as nat, |k: int| (bytes[2 * k], bytes[2 * k + 1]))
}

/// The second a pair at index `n` belongs to, for an integer sample rate:
/// `floor(n / rate)`.
pub open spec fn time_bucket(n: int, rate: int) -> int
    recommends
        rate > 0,
{
    n / rate
}

/// How many pairs of `h` exhibit the extreme `k`.
pub open spec fn count_kind(h: Seq<(u8, u8)>, k: ClipKind) -> int
    decreases h.len(),
{
    if h.len() == 0 {
        0
    } else {
        count_kind(h.drop_last(), k) + if pair_has(h.last(), k) {
            1int
        } else {
            0int
        }
    }
}

/// How many pairs of `h` lie in time bucket `b` and exhibit the extreme `k`,
/// where the pair at position `n` of `h` lies in bucket `time_bucket(n, rate)`.
pub open spec fn count_kind_in_bucket(h: Seq<(u8, u8)>, rate: int, b: int, k: ClipKind) -> int
    decreases h.len(),
{
    if h.len() == 0 {
        0
    } else {
        count_kind_in_bucket(h.drop_last(), rate, b, k) + if time_bucket(h.len() - 1, rate) == b
            && pair_has(h.last(), k) {
            1int
        } else {
            0int
        }
    }
}

/// How many pairs of `h` lie in time bucket `b` and are clipped on at least
/// one channel: the value the per-second map assigns to `b`.
pub open spec fn count_clipped_in_bucket(h: Seq<(u8, u8)>, rate: int, b: int) -> int
    decreases h.len(),
{
    if h.len() == 0 {
        0
    } else {
        count_clipped_in_bucket(h.drop_last(), rate, b) + if time_bucket(h.len() - 1, rate) == b
            && pair_clipped(h.last()) {
            1int
        } else {
            0int
        }
    }
}

/// Appending a pair extends the kind count by that pair's indicator.
pub proof fn lemma_count_kind_push(h: Seq<(u8, u8)>, p: (u8, u8), k: ClipKind)
    ensures
        count_kind(h.push(p), k) == count_kind(h, k) + if pair_has(p, k) {
            1int
        } else {
            0int
        },
{
    assert(h.push(p).drop_last() =~= h);
}

/// Appending a pair changes the per-bucket kind count only in the bucket of
/// the new index.
pub proof fn lemma_count_kind_in_bucket_push(
    h: Seq<(u8, u8)>,
    p: (u8, u8),
    rate: int,
    b: int,
    k: ClipKind,
)
    ensures
        count_kind_in_bucket(h.push(p), rate, b, k) == count_kind_in_bucket(h, rate, b, k)
            + if time_bucket(h.len() as int, rate) == b && pair_has(p, k) {
            1int
        } else {
            0int
        },
{
    assert(h.push(p).drop_last() =~= h);
}

/// Every counting function stays within `[0, h.len()]`.
pub proof fn lemma_counts_bounded(h: Seq<(u8, u8)>, rate: int, b: int, k: ClipKind)
    ensures
        0 <= count_kind(h, k) <= h.len(),
        0 <= count_kind_in_bucket(h, rate, b, k) <= h.len(),
        0 <= count_clipped_in_bucket(h, rate, b) <= h.len(),
    decreases h.len(),
{
    if h.len() > 0 {
        lemma_counts_bounded(h.drop_last(), rate, b, k);
    }
}

/// Time buckets are monotonically non-decreasing in the pair index.
pub proof fn lemma_time_bucket_monotone(n1: int, n2: int, rate: int)
    requires
        rate > 0,
        n1 <= n2,
    ensures
        time_bucket(n1, rate) <= time_bucket(n2, rate),
{
    vstd::arithmetic::div_mod::lemma_div_is_ordered(n1, n2, rate);
}

/// The pairs of bucket `b` are exactly those at indices
/// `b * rate .. (b + 1) * rate`.
pub proof fn lemma_bucket_of_index(n: int, rate: int, b: int)
    requires
        rate > 0,
        0 <= b,
        b * rate <= n < (b + 1) * rate,
    ensures
        time_bucket(n, rate) == b,
{
    assert((b + 1) * rate == b * rate + rate) by (nonlinear_arith);
    vstd::arithmetic::div_mod::lemma_fundamental_div_mod_converse(n, rate, b, n - b * rate);
}

/// A single pair never counts toward both extremes of one channel: the two
/// I-counters together, like the two Q-counters together, never exceed the
/// number of pairs.
pub proof fn lemma_channel_extremes_disjoint(h: Seq<(u8, u8)>)
    ensures
        count_kind(h, ClipKind::ILow) + count_kind(h, ClipKind::IHigh) <= h.len(),
        count_kind(h, ClipKind::QLow) + count_kind(h, ClipKind::QHigh) <= h.len(),
    decreases h.len(),
{
    if h.len() > 0 {
        lemma_channel_extremes_disjoint(h.drop_last());
    }
}

/// The deduplicated clipped count of a bucket never exceeds that bucket's
/// contribution to the four global counters.
pub proof fn lemma_clipped_in_bucket_le_kind_sum(h: Seq<(u8, u8)>, rate: int, b: int)
    ensures
        count_clipped_in_bucket(h, rate, b) <= count_kind_in_bucket(h, rate, b, ClipKind::ILow)
            + count_kind_in_bucket(h, rate, b, ClipKind::IHigh) + count_kind_in_bucket(
            h,
            rate,
            b,
            ClipKind::QLow,
        ) + count_kind_in_bucket(h, rate, b, ClipKind::QHigh),
    decreases h.len(),
{
    if h.len() > 0 {
        lemma_clipped_in_bucket_le_kind_sum(h.drop_last(), rate, b);
    }
}

/// The four global counters together never exceed twice the number of pairs,
/// i.e. the number of channel samples.
pub proof fn lemma_kind_sum_le_twice_len(h: Seq<(u8, u8)>)
    ensures
        count_kind(h, ClipKind::ILow) + count_kind(h, ClipKind::IHigh) + count_kind(
            h,
            ClipKind::QLow,
        ) + count_kind(h, ClipKind::QHigh) <= 2 * h.len(),
{
    lemma_channel_extremes_disjoint(h);
}

} // verus!
