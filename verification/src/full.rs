//! The full-file scanner: chunk-fed accumulation of the four global clipping
//! counters, the running pair count, and the per-second map of clipped pairs.

use vstd::prelude::*;
use crate::model::{
    count_clipped_in_bucket, count_kind, lemma_channel_extremes_disjoint, lemma_count_kind_push,
    lemma_counts_bounded, lemma_kind_sum_le_twice_len, lemma_time_bucket_monotone, pair_clipped,
    pairs_of, time_bucket, ClipKind,
};

verus! {

/// The per-second map that a scan of the pair history `h` produces, as a
/// sequence of `(bucket, clipped pair count)` entries in order of first
/// appearance.  Buckets are visited in ascending order, so the sequence is
/// sorted by bucket; see [`lemma_per_second_of_props`].
pub open spec fn per_second_of(h: Seq<(u8, u8)>, rate: int) -> Seq<(int, int)>
    decreases h.len(),
{
    if h.len() == 0 {
        Seq::empty()
    } else {
        let prev = per_second_of(h.drop_last(), rate);
        if pair_clipped(h.last()) {
            let b = time_bucket(h.len() - 1, rate);
            if prev.len() > 0 && prev.last().0 == b {
                prev.update(prev.len() - 1, (b, prev.last().1 + 1))
            } else {
                prev.push((b, 1int))
            }
        } else {
            prev
        }
    }
}

/// How one appended pair extends the per-second map: nothing for an unclipped
/// pair; otherwise the entry of the new pair's bucket grows by one, appended
/// as a fresh entry when the bucket is new.
pub proof fn lemma_per_second_of_push(h: Seq<(u8, u8)>, p: (u8, u8), rate: int)
    ensures
        per_second_of(h.push(p), rate) == (if pair_clipped(p) {
            let prev = per_second_of(h, rate);
            let b = time_bucket(h.len() as int, rate);
            if prev.len() > 0 && prev.last().0 == b {
                prev.update(prev.len() - 1, (b, prev.last().1 + 1))
            } else {
                prev.push((b, 1int))
            }
        } else {
            per_second_of(h, rate)
        }),
{
    assert(h.push(p).drop_last() =~= h);
}

/// What the per-second map of a history is: its buckets are strictly
/// ascending and never beyond the bucket of the last pair, each entry carries
/// the exact non-zero clipped pair count of its bucket, and every bucket with
/// a clipped pair has an entry.
pub proof fn lemma_per_second_of_props(h: Seq<(u8, u8)>, rate: int)
    requires
        rate > 0,
    ensures
        forall|j: int, l: int|
            0 <= j < l < per_second_of(h, rate).len() ==> (#[trigger] per_second_of(h, rate)[j]).0
                < (#[trigger] per_second_of(h, rate)[l]).0,
        per_second_of(h, rate).len() > 0 ==> h.len() > 0 && 0 <= per_second_of(h, rate).last().0
            <= time_bucket(h.len() - 1, rate),
        forall|j: int|
            0 <= j < per_second_of(h, rate).len() ==> (#[trigger] per_second_of(h, rate)[j]).1
                == count_clipped_in_bucket(h, rate, per_second_of(h, rate)[j].0) && per_second_of(
                h,
                rate,
            )[j].1 > 0,
        forall|b: int|
            #[trigger] count_clipped_in_bucket(h, rate, b) > 0 ==> exists|j: int|
                0 <= j < per_second_of(h, rate).len() && (#[trigger] per_second_of(h, rate)[j]).0
                    == b,
    decreases h.len(),
{
    if h.len() > 0 {
        let ps = per_second_of(h, rate);
        let h0 = h.drop_last();
        let n = h.len() - 1;
        let bn = time_bucket(n, rate);
        let ps0 = per_second_of(h0, rate);
        lemma_per_second_of_props(h0, rate);
        assert forall|b: int|
            count_clipped_in_bucket(h, rate, b) == count_clipped_in_bucket(h0, rate, b) + (
            if bn == b && pair_clipped(h.last()) {
                1int
            } else {
                0int
            }) by {}
        assert forall|b: int| count_clipped_in_bucket(h0, rate, b) >= 0 by {
            lemma_counts_bounded(h0, rate, b, ClipKind::ILow);
        }
        if ps0.len() > 0 {
            // The last bucket seen so far cannot lie beyond the new bucket.
            lemma_time_bucket_monotone(n - 1, n, rate);
            assert(ps0.last().0 <= bn);
        }
        if pair_clipped(h.last()) {
            if ps0.len() > 0 && ps0.last().0 == bn {
                let last = ps0.len() - 1;
                assert(ps =~= ps0.update(last, (bn, ps0.last().1 + 1)));
                assert forall|j: int| 0 <= j < ps.len() implies (#[trigger] ps[j]).1
                    == count_clipped_in_bucket(h, rate, ps[j].0) && ps[j].1 > 0 by {
                    if j < last {
                        assert(ps0[j].0 < bn);
                        assert(ps[j] == ps0[j]);
                    }
                }
                assert forall|b: int| #[trigger] count_clipped_in_bucket(h, rate, b) > 0 implies
                    exists|j: int| 0 <= j < ps.len() && (#[trigger] ps[j]).0 == b by {
                    if b == bn {
                        assert(ps[last].0 == b);
                    } else {
                        assert(count_clipped_in_bucket(h0, rate, b) > 0);
                        let j = choose|j: int|
                            0 <= j < ps0.len() && (#[trigger] ps0[j]).0 == b;
                        assert(ps[j].0 == b);
                    }
                }
            } else {
                assert(ps =~= ps0.push((bn, 1int)));
                // Every earlier bucket lies strictly below the new one.
                assert forall|j: int| 0 <= j < ps0.len() implies (#[trigger] ps0[j]).0 < bn by {
                    if j < ps0.len() - 1 {
                        assert(ps0[j].0 < ps0.last().0);
                    }
                }
                // So the new bucket had no clipped pairs before this one.
                if count_clipped_in_bucket(h0, rate, bn) > 0 {
                    let j = choose|j: int|
                        0 <= j < ps0.len() && (#[trigger] ps0[j]).0 == bn;
                    assert(false);
                }
                assert forall|j: int| 0 <= j < ps.len() implies (#[trigger] ps[j]).1
                    == count_clipped_in_bucket(h, rate, ps[j].0) && ps[j].1 > 0 by {
                    if j < ps0.len() {
                        assert(ps[j] == ps0[j]);
                        assert(ps0[j].0 < bn);
                    } else {
                        assert(ps[j] == (bn, 1int));
                    }
                }
                assert forall|b: int| #[trigger] count_clipped_in_bucket(h, rate, b) > 0 implies
                    exists|j: int| 0 <= j < ps.len() && (#[trigger] ps[j]).0 == b by {
                    if b == bn {
                        assert(ps[ps0.len() as int].0 == b);
                    } else {
                        assert(count_clipped_in_bucket(h0, rate, b) > 0);
                        let j = choose|j: int|
                            0 <= j < ps0.len() && (#[trigger] ps0[j]).0 == b;
                        assert(ps[j].0 == b);
                    }
                }
            }
        } else {
            assert(ps =~= ps0);
        }
    }
}

/// A `(bucket, count)` entry list seen as a sequence of unbounded integer
/// pairs, so that contracts can compare it with [`per_second_of`].
pub open spec fn entries_view(s: Seq<(u64, u64)>) -> Seq<(int, int)> {
    Seq::new(s.len(), |j: int| (s[j].0 as int, s[j].1 as int))
}

/// The state of a full scan.  The caller opens the file and feeds its bytes
/// through [`FullScan::process_chunk`] in order, in chunks of any size; an
/// odd trailing byte of a chunk is dropped, as it cannot form a pair.
///
/// `history` is the ghost record of every pair processed so far; the
/// well-formedness invariant [`FullScan::wf`] ties each counter and the
/// per-second map to it exactly.
pub struct FullScan {
    /// Samples per second; fixed at construction, must be positive.
    pub rate: u64,
    /// Pairs whose I channel was 0.
    pub i_low: u64,
    /// Pairs whose I channel was 255.
    pub i_high: u64,
    /// Pairs whose Q channel was 0.
    pub q_low: u64,
    /// Pairs whose Q channel was 255.
    pub q_high: u64,
    /// Pairs processed so far.
    pub total_pairs: u64,
    /// `(bucket, clipped pair count)` entries, ascending by bucket.
    pub per_second: Vec<(u64, u64)>,
    /// Ghost record of the pairs processed so far.
    pub history: Ghost<Seq<(u8, u8)>>,
}

impl FullScan {
    /// Every counter and the per-second map agree exactly with the pair
    /// history.  The bound on the history keeps twice the pair count — the
    /// number of channel samples — within `u64`; it holds of any input file,
    /// whose byte length already fits in `u64`.
    pub open spec fn wf(self) -> bool {
        &&& self.rate > 0
        &&& self.total_pairs == self.history@.len()
        &&& 2 * self.history@.len() <= u64::MAX
        &&& self.i_low == count_kind(self.history@, ClipKind::ILow)
        &&& self.i_high == count_kind(self.history@, ClipKind::IHigh)
        &&& self.q_low == count_kind(self.history@, ClipKind::QLow)
        &&& self.q_high == count_kind(self.history@, ClipKind::QHigh)
        &&& entries_view(self.per_second@) == per_second_of(self.history@, self.rate as int)
    }

    /// A fresh scan with all counters at zero.
    pub fn new(rate: u64) -> (r: FullScan)
        requires
            rate > 0,
        ensures
            r.wf(),
            r.rate == rate,
            r.history@ == Seq::<(u8, u8)>::empty(),
    {
        let r = FullScan {
            rate,
            i_low: 0,
            i_high: 0,
            q_low: 0,
            q_high: 0,
            total_pairs: 0,
            per_second: Vec::new(),
            history: Ghost(Seq::empty()),
        };
        proof {
            assert(entries_view(r.per_second@) =~= per_second_of(r.history@, rate as int));
        }
        r
    }

    /// Consume the next chunk of raw bytes: classify each complete pair,
    /// advance the four global counters and the pair count, and extend the
    /// per-second map.  A trailing odd byte of the chunk is dropped silently.
    ///
    /// The second precondition states the machine limit that twice the total
    /// pair count fits in `u64`; it holds whenever the chunks come from one
    /// file, whose byte length fits in `u64`.
    pub fn process_chunk(&mut self, chunk: &[u8])
        requires
            old(self).wf(),
            2 * (old(self).history@.len() + chunk@.len() / 2) <= u64::MAX,
        ensures
            final(self).wf(),
            final(self).rate == old(self).rate,
            final(self).history@ == old(self).history@ + pairs_of(chunk@),
            final(self).total_pairs == old(self).total_pairs + chunk@.len() / 2,
    {
        let ghost orig = *old(self);
        let rate = self.rate;
        let clen = chunk.len();
        let pairs = clen / 2;
        let mut j: usize = 0;
        while j < pairs
            invariant
                self.wf(),
                self.rate == orig.rate,
                rate == orig.rate,
                j <= pairs,
                clen == chunk@.len(),
                pairs == clen / 2,
                2 * (orig.history@.len() + pairs) <= u64::MAX,
                self.history@ == orig.history@ + pairs_of(chunk@).take(j as int),
            decreases pairs - j,
        {
            let ghost hist0 = self.history@;
            assert(2 * j < chunk@.len());
            let p_i = chunk[2 * j];
            let p_q = chunk[2 * j + 1];
            let ghost p = (p_i, p_q);
            proof {
                assert(hist0.len() == orig.history@.len() + j);
                lemma_count_kind_push(hist0, p, ClipKind::ILow);
                lemma_count_kind_push(hist0, p, ClipKind::IHigh);
                lemma_count_kind_push(hist0, p, ClipKind::QLow);
                lemma_count_kind_push(hist0, p, ClipKind::QHigh);
                lemma_counts_bounded(hist0, rate as int, 0, ClipKind::ILow);
                lemma_counts_bounded(hist0, rate as int, 0, ClipKind::IHigh);
                lemma_counts_bounded(hist0, rate as int, 0, ClipKind::QLow);
                lemma_counts_bounded(hist0, rate as int, 0, ClipKind::QHigh);
            }
            let bucket = self.total_pairs / rate;
            let mut clipped = false;
            if p_i == 0 {
                self.i_low = self.i_low + 1;
                clipped = true;
            } else if p_i == 255 {
                self.i_high = self.i_high + 1;
                clipped = true;
            }
            if p_q == 0 {
                self.q_low = self.q_low + 1;
                clipped = true;
            } else if p_q == 255 {
                self.q_high = self.q_high + 1;
                clipped = true;
            }
            assert(clipped == pair_clipped(p));
            assert(bucket as int == time_bucket(hist0.len() as int, rate as int));
            let ghost ps0 = self.per_second@;
            proof {
                lemma_per_second_of_push(hist0, p, rate as int);
            }
            if clipped {
                let len = self.per_second.len();
                if len > 0 && self.per_second[len - 1].0 == bucket {
                    proof {
                        lemma_per_second_of_props(hist0, rate as int);
                        lemma_counts_bounded(hist0, rate as int, bucket as int, ClipKind::ILow);
                        assert(entries_view(ps0)[len - 1].1 == count_clipped_in_bucket(
                            hist0,
                            rate as int,
                            bucket as int,
                        ));
                    }
                    let cur = self.per_second[len - 1].1;
                    self.per_second[len - 1] = (bucket, cur + 1);
                    proof {
                        assert(entries_view(self.per_second@) =~= entries_view(ps0).update(
                            len - 1,
                            (bucket as int, cur as int + 1),
                        ));
                    }
                } else {
                    self.per_second.push((bucket, 1));
                    proof {
                        assert(entries_view(self.per_second@) =~= entries_view(ps0).push(
                            (bucket as int, 1int),
                        ));
                    }
                }
            }
            self.total_pairs = self.total_pairs + 1;
            proof {
                self.history@ = hist0.push(p);
                assert(pairs_of(chunk@)[j as int] == p);
                assert(pairs_of(chunk@).take(j as int + 1) =~= pairs_of(chunk@).take(
                    j as int,
                ).push(p));
                assert(self.history@ =~= orig.history@ + pairs_of(chunk@).take(j as int + 1));
            }
            j = j + 1;
        }
        proof {
            assert(pairs_of(chunk@).take(pairs as int) =~= pairs_of(chunk@));
        }
    }

    /// The per-second map law of a well-formed scan: buckets are strictly
    /// ascending; each entry holds the exact, non-zero count of pairs of its
    /// bucket that clipped on at least one channel, a pair clipped on both
    /// counting once; and every bucket with a clipped pair has an entry.
    pub proof fn lemma_per_second_map_exact(self)
        requires
            self.wf(),
        ensures
            forall|j: int, l: int|
                0 <= j < l < self.per_second@.len() ==> (#[trigger] self.per_second@[j]).0
                    < (#[trigger] self.per_second@[l]).0,
            forall|j: int|
                0 <= j < self.per_second@.len() ==> (#[trigger] self.per_second@[j]).1 as int
                    == count_clipped_in_bucket(
                    self.history@,
                    self.rate as int,
                    self.per_second@[j].0 as int,
                ) && self.per_second@[j].1 > 0,
            forall|b: int|
                #[trigger] count_clipped_in_bucket(self.history@, self.rate as int, b) > 0
                    ==> exists|j: int|
                    0 <= j < self.per_second@.len() && (#[trigger] self.per_second@[j]).0 as int
                        == b,
    {
        let ps = per_second_of(self.history@, self.rate as int);
        lemma_per_second_of_props(self.history@, self.rate as int);
        assert forall|j: int| 0 <= j < self.per_second@.len() implies (
        #[trigger] self.per_second@[j]).0 as int == ps[j].0 && self.per_second@[j].1 as int
            == ps[j].1 by {
            assert(entries_view(self.per_second@)[j] == ps[j]);
        }
        assert forall|b: int|
            #[trigger] count_clipped_in_bucket(self.history@, self.rate as int, b)
                > 0 implies exists|j: int|
            0 <= j < self.per_second@.len() && (#[trigger] self.per_second@[j]).0 as int == b by {
            let j = choose|j: int| 0 <= j < ps.len() && (#[trigger] ps[j]).0 == b;
            assert((self.per_second@[j]).0 as int == b);
        }
    }

    /// The total number of clipped channel events: the sum of the four global
    /// counters.  At most twice the pair count, since a pair contributes at
    /// most one I event and one Q event.
    pub fn total_clipped(&self) -> (r: u64)
        requires
            self.wf(),
        ensures
            r as int == self.i_low as int + self.i_high as int + self.q_low as int
                + self.q_high as int,
            r <= 2 * self.total_pairs,
    {
        proof {
            lemma_channel_extremes_disjoint(self.history@);
            lemma_kind_sum_le_twice_len(self.history@);
            lemma_counts_bounded(self.history@, self.rate as int, 0, ClipKind::QLow);
            lemma_counts_bounded(self.history@, self.rate as int, 0, ClipKind::QHigh);
        }
        self.i_low + self.i_high + self.q_low + self.q_high
    }

    /// The clipping percentage in millionths of a percent, truncated:
    /// `100_000_000 * total_clipped / (2 * total_pairs)`.  `None` exactly
    /// when no pair was processed, where the ratio is undefined.  The result
    /// never exceeds `100_000_000`, i.e. the percentage lies in `[0, 100]`.
    pub fn percent_micro(&self) -> (r: Option<u64>)
        requires
            self.wf(),
        ensures
            (r is None) <==> self.total_pairs == 0,
            r matches Some(v) ==> v as int == 100_000_000 * (self.i_low as int + self.i_high as int
                + self.q_low as int + self.q_high as int) / (2 * self.total_pairs as int) && v
                <= 100_000_000,
    {
        if self.total_pairs == 0 {
            None
        } else {
            let tc = self.total_clipped();
            let denom: u128 = (self.total_pairs as u128) * 2;
            let scaled: u128 = (tc as u128) * 100_000_000;
            let v: u128 = scaled / denom;
            proof {
                vstd::arithmetic::mul::lemma_mul_inequality(
                    tc as int,
                    2 * self.total_pairs as int,
                    100_000_000,
                );
                vstd::arithmetic::div_mod::lemma_div_is_ordered(
                    tc as int * 100_000_000,
                    (2 * self.total_pairs as int) * 100_000_000,
                    2 * self.total_pairs as int,
                );
                vstd::arithmetic::div_mod::lemma_div_multiples_vanish(
                    100_000_000,
                    2 * self.total_pairs as int,
                );
            }
            Some(v as u64)
        }
    }
}

} // verus!
