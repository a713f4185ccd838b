//! The aggregator: a rolling window of classification counts per symbol, and
//! the downsampled record that is made of it.

use crate::db::{MarketAnalysisRecord, Ratio};
use crate::decimal::quotient_toward_zero;
use crate::symbols::{first_index, lemma_first_index_is, same_text};
use vstd::prelude::*;

verus! {

/// How long a sample stays in the window, in milliseconds.
pub const WINDOW_HORIZON_MS: u64 = 5000;

/// One observation of a symbol's classification.
#[derive(Debug, Clone, Copy, PartialEq, Eq, Structural)]
pub struct AggregationSample {
    /// Milliseconds on the caller's clock.
    pub observed_at: u64,
    pub total_orders: usize,
    pub human_orders: usize,
}

/// The window of one symbol, oldest sample first.
#[derive(Debug)]
pub struct SymbolWindow {
    pub symbol: String,
    pub samples: Vec<AggregationSample>,
}

/// The rolling windows of all symbols that were recorded.
#[derive(Debug)]
pub struct Aggregator {
    pub windows: Vec<SymbolWindow>,
}

/// The sums over a window that its means are made of.
#[derive(Debug, Clone, Copy, PartialEq, Eq, Structural)]
pub struct WindowAverage {
    pub total_sum: u128,
    pub human_sum: u128,
    /// Number of samples in the window, never zero.
    pub samples: usize,
}

/// The 64-bit count nearest to `x`.
pub open spec fn clamp_i64(x: int) -> i64 {
    if x > i64::MAX {
        i64::MAX
    } else if x < i64::MIN {
        i64::MIN
    } else {
        x as i64
    }
}

/// The share of human levels: the mean human count over the mean total
/// count, and zero where the mean total count is zero.
pub open spec fn human_ratio(human_sum: u128, total_sum: u128) -> Ratio {
    if total_sum == 0 {
        Ratio { numerator: 0, denominator: 1 }
    } else {
        Ratio { numerator: human_sum, denominator: total_sum }
    }
}

fn clamp_count(x: u128) -> (r: i64)
    ensures
        r == clamp_i64(x as int),
{
    if x > 0x7fff_ffff_ffff_ffff {
        i64::MAX
    } else {
        x as i64
    }
}

impl WindowAverage {
    /// The mean total count, rounded down.
    pub open spec fn mean_total(self) -> int
        recommends
            self.samples > 0,
    {
        self.total_sum as int / self.samples as int
    }

    /// The mean human count, rounded down.
    pub open spec fn mean_human(self) -> int
        recommends
            self.samples > 0,
    {
        self.human_sum as int / self.samples as int
    }

    /// The mean count of levels that are not human, rounded toward zero.
    pub open spec fn mean_bot(self) -> int
        recommends
            self.samples > 0,
    {
        quotient_toward_zero(self.total_sum - self.human_sum, self.samples as int)
    }

    /// Builds the record that is persisted for a window: the means as whole
    /// counts, and the human ratio, which is zero where the mean total is
    /// zero.
    pub fn to_record(&self, symbol: String, timestamp: u64) -> (r: MarketAnalysisRecord)
        requires
            self.samples > 0,
        ensures
            r.symbol == symbol,
            r.timestamp == timestamp,
            r.total_orders == clamp_i64(self.mean_total()),
            r.human_orders == clamp_i64(self.mean_human()),
            r.bot_orders == clamp_i64(self.mean_bot()),
            r.human_ratio == human_ratio(self.human_sum, self.total_sum),
            r.human_ratio.wf(),
            self.total_sum == 0 ==> r.human_ratio.is_zero(),
    {
        let n: u128 = self.samples as u128;
        let bot_orders: i64 = if self.total_sum >= self.human_sum {
            clamp_count((self.total_sum - self.human_sum) / n)
        } else {
            let q: u128 = (self.human_sum - self.total_sum) / n;
            if q > 0x7fff_ffff_ffff_ffff {
                i64::MIN
            } else {
                -(q as i64)
            }
        };
        MarketAnalysisRecord {
            symbol,
            timestamp,
            total_orders: clamp_count(self.total_sum / n),
            human_orders: clamp_count(self.human_sum / n),
            bot_orders,
            human_ratio: if self.total_sum == 0 {
                Ratio { numerator: 0, denominator: 1 }
            } else {
                Ratio { numerator: self.human_sum, denominator: self.total_sum }
            },
        }
    }
}

/// How long the flush timer runs between two records, in milliseconds.
pub const FLUSH_INTERVAL_MS: u64 = 5000;

/// The flush timer, last reset at `last_flush`, has run out at `now`.
pub open spec fn flush_due(last_flush: u64, now: u64) -> bool {
    now - last_flush >= FLUSH_INTERVAL_MS
}

/// Decides whether the flush timer has run out.
pub fn is_flush_due(last_flush: u64, now: u64) -> (r: bool)
    ensures
        r == flush_due(last_flush, now),
{
    now >= last_flush && now - last_flush >= FLUSH_INTERVAL_MS
}

/// `record` is the downsampled record of a window that is not empty: the
/// means of its counts as whole numbers, and the human ratio, which is zero
/// where the mean total is zero.
pub open spec fn is_record_of(
    record: MarketAnalysisRecord,
    symbol: Seq<char>,
    timestamp: u64,
    window: Seq<AggregationSample>,
) -> bool {
    let n = window.len() as int;
    &&& record.symbol@ == symbol
    &&& record.timestamp == timestamp
    &&& record.total_orders == clamp_i64(total_sum(window) as int / n)
    &&& record.human_orders == clamp_i64(human_sum(window) as int / n)
    &&& record.bot_orders == clamp_i64(
        quotient_toward_zero(total_sum(window) - human_sum(window), n),
    )
    &&& record.human_ratio == human_ratio(human_sum(window) as u128, total_sum(window) as u128)
}

/// The ratio guard: the record of a window whose counts sum to zero has a
/// human ratio of zero, and every record has a ratio with a denominator.
pub proof fn lemma_ratio_guard(
    record: MarketAnalysisRecord,
    symbol: Seq<char>,
    timestamp: u64,
    window: Seq<AggregationSample>,
)
    requires
        is_record_of(record, symbol, timestamp, window),
    ensures
        record.human_ratio.wf(),
        total_sum(window) == 0 ==> record.human_ratio == (Ratio { numerator: 0, denominator: 1 }),
{
}

/// A sample is kept at `now` unless it is older than the horizon.
pub open spec fn is_recent(sample: AggregationSample, now: u64) -> bool {
    now - sample.observed_at <= WINDOW_HORIZON_MS
}

/// The samples that are kept at `now`, in their order.
pub open spec fn recent(samples: Seq<AggregationSample>, now: u64) -> Seq<AggregationSample>
    decreases samples.len(),
{
    if samples.len() == 0 {
        Seq::empty()
    } else if is_recent(samples.last(), now) {
        recent(samples.drop_last(), now).push(samples.last())
    } else {
        recent(samples.drop_last(), now)
    }
}

/// The sum of the total counts of a window.
pub open spec fn total_sum(samples: Seq<AggregationSample>) -> nat
    decreases samples.len(),
{
    if samples.len() == 0 {
        0
    } else {
        total_sum(samples.drop_last()) + samples.last().total_orders as nat
    }
}

/// The sum of the human counts of a window.
pub open spec fn human_sum(samples: Seq<AggregationSample>) -> nat
    decreases samples.len(),
{
    if samples.len() == 0 {
        0
    } else {
        human_sum(samples.drop_last()) + samples.last().human_orders as nat
    }
}

/// The symbols of a list of windows.
pub open spec fn window_symbols(windows: Seq<SymbolWindow>) -> Seq<Seq<char>> {
    Seq::new(windows.len(), |i: int| windows[i].symbol@)
}

/// Every sample that is kept is within the horizon, and every sample within
/// the horizon is kept.
pub proof fn lemma_recent_members(samples: Seq<AggregationSample>, now: u64)
    ensures
        forall|k: int|
            0 <= k < recent(samples, now).len() ==> is_recent(
                #[trigger] recent(samples, now)[k],
                now,
            ) && samples.contains(recent(samples, now)[k]),
        forall|k: int|
            0 <= k < samples.len() && is_recent(#[trigger] samples[k], now) ==> recent(
                samples,
                now,
            ).contains(samples[k]),
        recent(samples, now).len() <= samples.len(),
    decreases samples.len(),
{
    if samples.len() > 0 {
        let init = samples.drop_last();
        let last = samples.last();
        lemma_recent_members(init, now);
        let kept = recent(samples, now);
        assert forall|k: int| 0 <= k < kept.len() implies is_recent(#[trigger] kept[k], now)
            && samples.contains(kept[k]) by {
            if k < recent(init, now).len() {
                assert(kept[k] == recent(init, now)[k]);
                let w = choose|w: int| 0 <= w < init.len() && init[w] == kept[k];
                assert(samples[w] == kept[k]);
            } else {
                assert(samples[samples.len() - 1] == kept[k]);
            }
        }
        assert forall|k: int| 0 <= k < samples.len() && is_recent(
            #[trigger] samples[k],
            now,
        ) implies kept.contains(samples[k]) by {
            if k < init.len() {
                assert(init[k] == samples[k]);
                let w = choose|w: int|
                    0 <= w < recent(init, now).len() && recent(init, now)[w] == samples[k];
                assert(kept[w] == samples[k]);
            } else {
                assert(kept[kept.len() - 1] == samples[k]);
            }
        }
    }
}

impl Aggregator {
    /// The window of a symbol: that of the first entry under its name, empty
    /// where there is none.
    pub open spec fn window(&self, symbol: Seq<char>) -> Seq<AggregationSample> {
        let i = first_index(window_symbols(self.windows@), symbol);
        if i < self.windows.len() {
            self.windows[i].samples@
        } else {
            Seq::empty()
        }
    }

    /// An aggregator with every window empty.
    pub fn new() -> (r: Aggregator)
        ensures
            forall|symbol: Seq<char>| r.window(symbol) == Seq::<AggregationSample>::empty(),
    {
        Aggregator { windows: Vec::new() }
    }

    /// Adds a sample observed at `now` to the window of `symbol`, then drops
    /// from that window every sample older than the horizon. The windows of
    /// other symbols stay as they are.
    pub fn record(&mut self, symbol: &str, total_orders: usize, human_orders: usize, now: u64)
        ensures
            final(self).window(symbol@) == recent(
                old(self).window(symbol@).push(
                    AggregationSample { observed_at: now, total_orders, human_orders },
                ),
                now,
            ),
            forall|other: Seq<char>|
                other != symbol@ ==> final(self).window(other) == old(self).window(other),
    {
        let key = symbol.to_owned();
        let sample = AggregationSample { observed_at: now, total_orders, human_orders };
        let i = self.find(&key);
        let ghost before = window_symbols(self.windows@);
        let ghost held = self.window(symbol@);
        proof {
            assert(held.push(sample).drop_last() =~= held);
            assert(held.push(sample).last() == sample);
            crate::symbols::lemma_first_index(before, symbol@);
        }
        if i < self.windows.len() {
            let mut kept = keep_recent(&self.windows[i].samples, now);
            kept.push(sample);
            self.windows[i].samples = kept;
            proof {
                assert(window_symbols(self.windows@) =~= before);
                assert forall|other: Seq<char>| other != symbol@ implies self.window(other) == old(
                    self,
                ).window(other) by {
                    crate::symbols::lemma_first_index(before, other);
                }
            }
        } else {
            let mut samples: Vec<AggregationSample> = Vec::new();
            samples.push(sample);
            self.windows.push(SymbolWindow { symbol: key, samples });
            proof {
                let after = window_symbols(self.windows@);
                assert(after =~= before.push(symbol@));
                lemma_first_index_is(after, symbol@, i as int);
                assert(recent(Seq::<AggregationSample>::empty(), now) =~= Seq::<
                    AggregationSample,
                >::empty());
                assert(self.windows[i as int].samples@ =~= Seq::<AggregationSample>::empty().push(
                    sample,
                ));
                assert forall|other: Seq<char>| other != symbol@ implies self.window(other) == old(
                    self,
                ).window(other) by {
                    crate::symbols::lemma_first_index(before, other);
                    let f = first_index(before, other);
                    if f < before.len() {
                        lemma_first_index_is(after, other, f);
                    } else {
                        lemma_first_index_is(after, other, after.len() as int);
                    }
                }
            }
        }
    }

    /// The sums over the window of `symbol`, or `None` where it is empty.
    /// The arithmetic means of the window are `total_sum / samples` and
    /// `human_sum / samples`.
    pub fn average(&self, symbol: &str) -> (r: Option<WindowAverage>)
        ensures
            match r {
                None => self.window(symbol@).len() == 0,
                Some(avg) => {
                    &&& avg.samples > 0
                    &&& avg.samples == self.window(symbol@).len()
                    &&& avg.total_sum == total_sum(self.window(symbol@))
                    &&& avg.human_sum == human_sum(self.window(symbol@))
                },
            },
    {
        let key = symbol.to_owned();
        let i = self.find(&key);
        if i >= self.windows.len() {
            return None;
        }
        let samples = &self.windows[i].samples;
        if samples.len() == 0 {
            return None;
        }
        let mut totals: u128 = 0;
        let mut humans: u128 = 0;
        let mut k: usize = 0;
        proof {
            assert(samples@.take(0) =~= Seq::<AggregationSample>::empty());
        }
        while k < samples.len()
            invariant
                k <= samples.len(),
                totals == total_sum(samples@.take(k as int)),
                humans == human_sum(samples@.take(k as int)),
                totals <= k * usize::MAX,
                humans <= k * usize::MAX,
            decreases samples.len() - k,
        {
            proof {
                assert(samples@.take(k + 1).drop_last() =~= samples@.take(k as int));
                assert(samples@.take(k + 1).last() == samples[k as int]);
                assert(k * usize::MAX + usize::MAX <= u128::MAX) by (nonlinear_arith)
                    requires
                        k <= usize::MAX,
                        usize::MAX <= 0xffff_ffff_ffff_ffff,
                        u128::MAX == 0xffff_ffff_ffff_ffff_ffff_ffff_ffff_ffff,
                ;
                assert((k + 1) * usize::MAX == k * usize::MAX + usize::MAX) by (nonlinear_arith);
            }
            totals = totals + samples[k].total_orders as u128;
            humans = humans + samples[k].human_orders as u128;
            k = k + 1;
        }
        proof {
            assert(samples@.take(k as int) =~= samples@);
        }
        Some(WindowAverage { total_sum: totals, human_sum: humans, samples: samples.len() })
    }

    /// Builds the record of the window of `symbol`, or `None` where the
    /// window is empty.
    pub fn summarize(&self, symbol: &str, timestamp: u64) -> (r: Option<MarketAnalysisRecord>)
        ensures
            match r {
                None => self.window(symbol@).len() == 0,
                Some(record) => self.window(symbol@).len() > 0 && is_record_of(
                    record,
                    symbol@,
                    timestamp,
                    self.window(symbol@),
                ),
            },
    {
        match self.average(symbol) {
            None => None,
            Some(avg) => Some(avg.to_record(symbol.to_owned(), timestamp)),
        }
    }

    fn find(&self, symbol: &String) -> (r: usize)
        ensures
            r == first_index(window_symbols(self.windows@), symbol@),
            r <= self.windows.len(),
    {
        let mut i: usize = 0;
        while i < self.windows.len() && !same_text(&self.windows[i].symbol, symbol)
            invariant
                i <= self.windows.len(),
                forall|j: int| 0 <= j < i ==> window_symbols(self.windows@)[j] != symbol@,
            decreases self.windows.len() - i,
        {
            i = i + 1;
        }
        proof {
            lemma_first_index_is(window_symbols(self.windows@), symbol@, i as int);
        }
        i
    }
}

/// Copies the samples that are kept at `now`.
fn keep_recent(samples: &Vec<AggregationSample>, now: u64) -> (kept: Vec<AggregationSample>)
    ensures
        kept@ == recent(samples@, now),
{
    let mut kept: Vec<AggregationSample> = Vec::new();
    let mut k: usize = 0;
    proof {
        assert(samples@.take(0) =~= Seq::<AggregationSample>::empty());
    }
    while k < samples.len()
        invariant
            k <= samples.len(),
            kept@ == recent(samples@.take(k as int), now),
        decreases samples.len() - k,
    {
        proof {
            assert(samples@.take(k + 1).drop_last() =~= samples@.take(k as int));
            assert(samples@.take(k + 1).last() == samples[k as int]);
        }
        let sample = samples[k];
        if now <= sample.observed_at || now - sample.observed_at <= WINDOW_HORIZON_MS {
            kept.push(sample);
        }
        k = k + 1;
    }
    proof {
        assert(samples@.take(k as int) =~= samples@);
    }
    kept
}

} // verus!
