//! The breakout scanner: clipping detail for exactly one requested second,
//! located by direct byte-offset arithmetic instead of a scan of the whole
//! file.
//!
//! The byte range of second `s` is `[s * rate * 2, (s + 1) * rate * 2)` for
//! an integer sample rate `rate`.  Capture tools that accept a fractional
//! sample rate traditionally truncate it to a whole sample count on this fast
//! path, so its second boundary may drift from a fractional-rate bucket
//! boundary by a fraction of a sample; this crate takes the rate as an
//! integer everywhere, the caller owning any truncation, so for a
//! whole-number rate the breakout and the full scan agree exactly
//! ([`lemma_breakout_matches_full_scan`]).

use vstd::prelude::*;
use crate::model::{
    count_kind, count_kind_in_bucket, lemma_bucket_of_index, lemma_counts_bounded,
    lemma_count_kind_push, lemma_time_bucket_monotone, pairs_of, ClipKind,
};
use vstd::arithmetic::div_mod::{
    lemma_div_is_ordered, lemma_div_multiples_vanish, lemma_fundamental_div_mod,
    lemma_fundamental_div_mod_converse,
};
use vstd::arithmetic::mul::lemma_mul_inequality;

verus! {

/// The four per-channel-per-extreme counters of one scanned byte range, the
/// same shape as the global counters of a full scan but scoped to the range.
#[derive(Clone, Copy, Debug, PartialEq, Eq, Structural)]
pub struct BreakoutCounts {
    /// Pairs whose I channel was 0.
    pub i_low: u64,
    /// Pairs whose I channel was 255.
    pub i_high: u64,
    /// Pairs whose Q channel was 0.
    pub q_low: u64,
    /// Pairs whose Q channel was 255.
    pub q_high: u64,
}

/// A breakout request beyond the end of the file: the requested second, the
/// file's byte length, and the number of complete seconds the file holds,
/// `file_len / (rate * 2)`.
#[derive(Clone, Copy, Debug, PartialEq, Eq, Structural)]
pub struct RangeError {
    /// The second that was requested.
    pub second: u64,
    /// The file's byte length.
    pub file_len: u64,
    /// The number of complete seconds the file holds.
    pub max_full_seconds: u64,
}

/// Classify every complete pair of a fetched byte range and tally the four
/// per-channel extremes independently.  A trailing odd byte is dropped.
pub fn scan_range(buf: &[u8]) -> (r: BreakoutCounts)
    ensures
        r.i_low == count_kind(pairs_of(buf@), ClipKind::ILow),
        r.i_high == count_kind(pairs_of(buf@), ClipKind::IHigh),
        r.q_low == count_kind(pairs_of(buf@), ClipKind::QLow),
        r.q_high == count_kind(pairs_of(buf@), ClipKind::QHigh),
{
    let clen = buf.len();
    let pairs = clen / 2;
    let mut r = BreakoutCounts { i_low: 0, i_high: 0, q_low: 0, q_high: 0 };
    let mut j: usize = 0;
    while j < pairs
        invariant
            j <= pairs,
            clen == buf@.len(),
            pairs == clen / 2,
            r.i_low == count_kind(pairs_of(buf@).take(j as int), ClipKind::ILow),
            r.i_high == count_kind(pairs_of(buf@).take(j as int), ClipKind::IHigh),
            r.q_low == count_kind(pairs_of(buf@).take(j as int), ClipKind::QLow),
            r.q_high == count_kind(pairs_of(buf@).take(j as int), ClipKind::QHigh),
        decreases pairs - j,
    {
        let ghost h0 = pairs_of(buf@).take(j as int);
        let p_i = buf[2 * j];
        let p_q = buf[2 * j + 1];
        let ghost p = (p_i, p_q);
        proof {
            lemma_count_kind_push(h0, p, ClipKind::ILow);
            lemma_count_kind_push(h0, p, ClipKind::IHigh);
            lemma_count_kind_push(h0, p, ClipKind::QLow);
            lemma_count_kind_push(h0, p, ClipKind::QHigh);
            lemma_counts_bounded(h0, 1, 0, ClipKind::ILow);
            lemma_counts_bounded(h0, 1, 0, ClipKind::IHigh);
            lemma_counts_bounded(h0, 1, 0, ClipKind::QLow);
            lemma_counts_bounded(h0, 1, 0, ClipKind::QHigh);
            assert(pairs_of(buf@)[j as int] == p);
            assert(pairs_of(buf@).take(j as int + 1) =~= h0.push(p));
        }
        if p_i == 0 {
            r.i_low = r.i_low + 1;
        }
        if p_i == 255 {
            r.i_high = r.i_high + 1;
        }
        if p_q == 0 {
            r.q_low = r.q_low + 1;
        }
        if p_q == 255 {
            r.q_high = r.q_high + 1;
        }
        j = j + 1;
    }
    proof {
        assert(pairs_of(buf@).take(pairs as int) =~= pairs_of(buf@));
    }
    r
}

/// The byte range of the requested second: its start offset and length, both
/// in bytes, or a [`RangeError`] exactly when the range would run past the
/// end of the file.  No read is attempted here; the caller fetches the range
/// only on success.
pub fn breakout_range(second: u64, rate: u64, file_len: u64) -> (r: Result<
    (u64, u64),
    RangeError,
>)
    requires
        rate > 0,
    ensures
        (r is Ok) <==> (second as int + 1) * (rate as int) * 2 <= file_len as int,
        r matches Ok(sl) ==> sl.0 == second as int * rate as int * 2 && sl.1 == rate as int * 2,
        r matches Err(e) ==> e.second == second && e.file_len == file_len
            && e.max_full_seconds as int == file_len as int / (rate as int * 2),
{
    let per: u128 = (rate as u128) * 2;
    let max_full: u128 = (file_len as u128) / per;
    proof {
        let s = second as int;
        let p = per as int;
        let fl = file_len as int;
        lemma_fundamental_div_mod(fl, p);
        if s + 1 <= fl / p {
            lemma_mul_inequality(s + 1, fl / p, p);
            assert((s + 1) * p <= (fl / p) * p <= fl) by (nonlinear_arith)
                requires
                    (s + 1) * p <= (fl / p) * p,
                    fl == p * (fl / p) + fl % p,
                    fl % p >= 0,
            ;
        } else {
            lemma_mul_inequality(fl / p + 1, s + 1, p);
            assert(fl < (s + 1) * p) by (nonlinear_arith)
                requires
                    (fl / p + 1) * p <= (s + 1) * p,
                    fl == p * (fl / p) + fl % p,
                    fl % p < p,
            ;
        }
        assert((s + 1) * (rate as int) * 2 == (s + 1) * p) by (nonlinear_arith)
            requires
                p == rate as int * 2,
        ;
        lemma_div_is_ordered(0, fl, p);
        lemma_div_is_ordered(fl / p, fl, 1);
        vstd::arithmetic::div_mod::lemma_div_basics_5(fl, p);
    }
    if (second as u128) + 1 <= max_full {
        proof {
            let s = second as int;
            let p = per as int;
            lemma_mul_inequality(s, s + 1, p);
            lemma_mul_inequality(1, s + 1, p);
            assert(s * (rate as int) * 2 == s * p) by (nonlinear_arith)
                requires
                    p == rate as int * 2,
            ;
        }
        let start: u128 = (second as u128) * per;
        Ok((start as u64, (per as u64)))
    } else {
        Err(RangeError { second, file_len, max_full_seconds: max_full as u64 })
    }
}

/// Pairing commutes with taking an even-offset byte range.
pub proof fn lemma_pairs_of_subrange(bytes: Seq<u8>, a: int, b: int)
    requires
        0 <= a <= b,
        2 * b <= bytes.len(),
    ensures
        pairs_of(bytes.subrange(2 * a, 2 * b)) =~= pairs_of(bytes).subrange(a, b),
{
}

/// No pair before index `s * rate` lies in bucket `s`.
proof fn lemma_count_in_bucket_take_below(
    h: Seq<(u8, u8)>,
    rate: int,
    s: int,
    k: ClipKind,
    m: int,
)
    requires
        rate > 0,
        s >= 0,
        0 <= m <= s * rate,
        m <= h.len(),
    ensures
        count_kind_in_bucket(h.take(m), rate, s, k) == 0,
    decreases m,
{
    if m > 0 {
        lemma_count_in_bucket_take_below(h, rate, s, k, m - 1);
        assert(h.take(m).drop_last() =~= h.take(m - 1));
        assert(s >= 1) by (nonlinear_arith)
            requires
                rate > 0,
                s >= 0,
                s * rate > 0,
        ;
        assert((s - 1) * rate + (rate - 1) == s * rate - 1) by (nonlinear_arith);
        lemma_fundamental_div_mod_converse(s * rate - 1, rate, s - 1, rate - 1);
        lemma_time_bucket_monotone(m - 1, s * rate - 1, rate);
    }
}

/// Between indices `s * rate` and `(s + 1) * rate`, the pairs counted toward
/// bucket `s` are exactly the pairs of that index range.
proof fn lemma_count_subrange_in_bucket(
    h: Seq<(u8, u8)>,
    rate: int,
    s: int,
    k: ClipKind,
    m: int,
)
    requires
        rate > 0,
        s >= 0,
        s * rate <= m <= (s + 1) * rate,
        m <= h.len(),
    ensures
        count_kind_in_bucket(h.take(m), rate, s, k) == count_kind(h.subrange(s * rate, m), k),
    decreases m - s * rate,
{
    if m == s * rate {
        lemma_count_in_bucket_take_below(h, rate, s, k, m);
        assert(h.subrange(s * rate, m) =~= Seq::<(u8, u8)>::empty());
    } else {
        lemma_count_subrange_in_bucket(h, rate, s, k, m - 1);
        assert(h.take(m).drop_last() =~= h.take(m - 1));
        assert(h.subrange(s * rate, m).drop_last() =~= h.subrange(s * rate, m - 1));
        assert((s + 1) * rate == s * rate + rate) by (nonlinear_arith);
        lemma_bucket_of_index(m - 1, rate, s);
        assert(h.take(m).last() == h[m - 1]);
        assert(h.subrange(s * rate, m).last() == h[m - 1]);
    }
}

/// Pairs at or past index `(s + 1) * rate` never count toward bucket `s`.
proof fn lemma_count_in_bucket_take_above(
    h: Seq<(u8, u8)>,
    rate: int,
    s: int,
    k: ClipKind,
    m: int,
)
    requires
        rate > 0,
        s >= 0,
        (s + 1) * rate <= m <= h.len(),
    ensures
        count_kind_in_bucket(h.take(m), rate, s, k) == count_kind_in_bucket(
            h.take((s + 1) * rate),
            rate,
            s,
            k,
        ),
    decreases m - (s + 1) * rate,
{
    if m > (s + 1) * rate {
        lemma_count_in_bucket_take_above(h, rate, s, k, m - 1);
        assert(h.take(m).drop_last() =~= h.take(m - 1));
        lemma_div_multiples_vanish(s + 1, rate);
        assert(rate * (s + 1) == (s + 1) * rate) by (nonlinear_arith);
        lemma_time_bucket_monotone((s + 1) * rate, m - 1, rate);
    }
}

/// The pair range of second `s` carries exactly the pairs the full scan
/// classifies into bucket `s`: counting an extreme over
/// `h[s * rate .. (s + 1) * rate]` equals the per-bucket count over all of
/// `h`, whenever that range lies within `h`.
pub proof fn lemma_breakout_matches_bucket(h: Seq<(u8, u8)>, rate: int, s: int, k: ClipKind)
    requires
        rate > 0,
        0 <= s,
        (s + 1) * rate <= h.len(),
    ensures
        count_kind(h.subrange(s * rate, (s + 1) * rate), k) == count_kind_in_bucket(h, rate, s, k),
{
    assert((s + 1) * rate == s * rate + rate) by (nonlinear_arith);
    assert(s * rate >= 0) by (nonlinear_arith)
        requires
            s >= 0,
            rate > 0,
    ;
    lemma_count_subrange_in_bucket(h, rate, s, k, (s + 1) * rate);
    lemma_count_in_bucket_take_above(h, rate, s, k, h.len() as int);
    assert(h.take(h.len() as int) =~= h);
}

/// The breakout agreement law: for an integer sample rate, the counters that
/// [`scan_range`] computes from the byte range that [`breakout_range`] names
/// for second `s` equal the full scan's classification restricted to the
/// pairs of bucket `s`.
pub proof fn lemma_breakout_matches_full_scan(bytes: Seq<u8>, rate: int, s: int, k: ClipKind)
    requires
        rate > 0,
        0 <= s,
        (s + 1) * rate * 2 <= bytes.len(),
    ensures
        count_kind(pairs_of(bytes.subrange(s * rate * 2, (s + 1) * rate * 2)), k)
            == count_kind_in_bucket(pairs_of(bytes), rate, s, k),
{
    assert(s * rate * 2 == 2 * (s * rate) && (s + 1) * rate * 2 == 2 * ((s + 1) * rate) && s * rate
        <= (s + 1) * rate && 0 <= s * rate) by (nonlinear_arith)
        requires
            s >= 0,
            rate > 0,
    ;
    lemma_pairs_of_subrange(bytes, s * rate, (s + 1) * rate);
    assert((s + 1) * rate <= pairs_of(bytes).len()) by {
        assert(2 * ((s + 1) * rate) <= bytes.len());
    }
    lemma_breakout_matches_bucket(pairs_of(bytes), rate, s, k);
}

/// A requested second at or past `file_len / (rate * 2)` never fits in the
/// file, so the breakout rejects it before any read.
pub proof fn lemma_breakout_beyond_fails(second: int, rate: int, file_len: int)
    requires
        rate > 0,
        file_len >= 0,
        second >= file_len / (rate * 2),
    ensures
        (second + 1) * rate * 2 > file_len,
{
    let p = rate * 2;
    lemma_fundamental_div_mod(file_len, p);
    lemma_mul_inequality(file_len / p + 1, second + 1, p);
    assert((second + 1) * rate * 2 > file_len) by (nonlinear_arith)
        requires
            p == rate * 2,
            (file_len / p + 1) * p <= (second + 1) * p,
            file_len == p * (file_len / p) + file_len % p,
            file_len % p < p,
    ;
}

} // verus!
