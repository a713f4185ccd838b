//! The classifier: a fixed set of rules that scores each price level of a
//! book as likely human or likely automated.
//!
//! Three rules are applied to a level: whether its price is round, whether
//! its quantity is round, and whether the gap to the next level on its side
//! is irregular. The confidence of a level is the share of the rules that
//! held among those that applied. The gap rule does not apply to the last
//! level of a side, nor where the next price does not parse: such a level is
//! scored on two rules, not three.

use crate::book::{entry_levels, level_price, level_quantity, Level, OrderBookEntry};
use crate::decimal::{fraction_part, magnitude, parse_decimal, whole_part, Decimal, SCALE};
use crate::symbols::{same_text, texts};
use vstd::prelude::*;
use vstd::string::StringExecFns;

verus! {

/// The fractional part is exactly 0, 0.5 or 0.25.
pub open spec fn has_round_fraction(units: int) -> bool {
    let f = fraction_part(units);
    f == 0 || f == SCALE / 2 || f == SCALE / 4
}

/// The round-price rule: a round fraction, or an integer part divisible by
/// 1000, 500 or 100.
pub open spec fn is_round_price(units: int) -> bool {
    let w = whole_part(units);
    has_round_fraction(units) || w % 1000 == 0 || w % 500 == 0 || w % 100 == 0
}

/// The round-size rule: a round fraction, or an integer part that is at most
/// 10 or a multiple of 5.
pub open spec fn is_round_size(units: int) -> bool {
    let w = whole_part(units);
    has_round_fraction(units) || w <= 10 || w % 5 == 0
}

/// The spacing rule for two neighbouring prices: their distance is above
/// 0.01, is no whole number, and is no multiple of 0.1.
pub open spec fn is_irregular_gap(first: int, second: int) -> bool {
    let d = magnitude(second - first);
    d > SCALE / 100 && fraction_part(d) != 0 && d % (SCALE / 10) != 0
}

/// A number and its negation have the same divisors.
proof fn lemma_divides_negation(w: int, d: int)
    requires
        d > 0,
    ensures
        ((-w) % d == 0) == (w % d == 0),
{
    if w % d == 0 {
        vstd::arithmetic::div_mod::lemma_fundamental_div_mod(w, d);
        assert(-w == (-(w / d)) * d + 0) by (nonlinear_arith)
            requires
                w == d * (w / d) + 0,
        ;
        vstd::arithmetic::div_mod::lemma_fundamental_div_mod_converse_mod(-w, d, -(w / d), 0);
    }
    if (-w) % d == 0 {
        vstd::arithmetic::div_mod::lemma_fundamental_div_mod(-w, d);
        assert(w == (-((-w) / d)) * d + 0) by (nonlinear_arith)
            requires
                -w == d * ((-w) / d) + 0,
        ;
        vstd::arithmetic::div_mod::lemma_fundamental_div_mod_converse_mod(w, d, -((-w) / d), 0);
    }
}

fn round_fraction(negative: bool, fraction: u128) -> (r: bool)
    ensures
        r == (fraction == 0 || (!negative && (fraction == SCALE / 2 || fraction == SCALE / 4))),
{
    fraction == 0 || (!negative && (fraction == 500_000_000_000_000_000u128 || fraction
        == 250_000_000_000_000_000u128))
}

/// Decides the round-price rule.
pub fn round_price(price: &Decimal) -> (r: bool)
    ensures
        r == is_round_price(price.value()),
{
    let (whole, fraction) = price.parts();
    proof {
        lemma_divides_negation(whole as int, 1000);
        lemma_divides_negation(whole as int, 500);
        lemma_divides_negation(whole as int, 100);
    }
    round_fraction(price.units < 0, fraction) || whole % 1000 == 0 || whole % 500 == 0 || whole
        % 100 == 0
}

/// Decides the round-size rule.
pub fn round_size(quantity: &Decimal) -> (r: bool)
    ensures
        r == is_round_size(quantity.value()),
{
    let (whole, fraction) = quantity.parts();
    proof {
        lemma_divides_negation(whole as int, 5);
    }
    round_fraction(quantity.units < 0, fraction) || quantity.units < 0 || whole <= 10 || whole % 5
        == 0
}

/// Decides the spacing rule for two neighbouring prices.
pub fn irregular_gap(first: &Decimal, second: &Decimal) -> (r: bool)
    ensures
        r == is_irregular_gap(first.value(), second.value()),
{
    let d: u128 = first.distance(second);
    d > 10_000_000_000_000_000u128 && d % 1_000_000_000_000_000_000u128 != 0 && d
        % 100_000_000_000_000_000u128 != 0
}

/// A confidence: `hits` of the `checks` rules that applied to a level held.
#[derive(Debug, Clone, Copy, PartialEq, Eq, Structural)]
pub struct Confidence {
    pub hits: u8,
    pub checks: u8,
}

impl Confidence {
    /// The score `hits / checks` is a fraction between 0 and 1.
    pub open spec fn in_unit_interval(self) -> bool {
        0 < self.checks && 0 <= self.hits <= self.checks
    }

    /// The score is above 0.6.
    pub open spec fn is_human(self) -> bool {
        5 * self.hits > 3 * self.checks
    }

    /// Whether the score is above the threshold of 0.6 that labels a level
    /// human.
    pub fn above_threshold(&self) -> (r: bool)
        ensures
            r == self.is_human(),
    {
        let hits: u16 = self.hits as u16;
        let checks: u16 = self.checks as u16;
        5 * hits > 3 * checks
    }

    /// Whether this score is strictly higher than `other`, as fractions.
    pub fn exceeds(&self, other: &Confidence) -> (r: bool)
        ensures
            r == (self.hits * other.checks > other.hits * self.checks),
    {
        let a: u32 = self.hits as u32;
        let b: u32 = other.checks as u32;
        let c: u32 = other.hits as u32;
        let d: u32 = self.checks as u32;
        assert(a * b <= 255 * 255) by (nonlinear_arith)
            requires
                a <= 255,
                b <= 255,
        ;
        assert(c * d <= 255 * 255) by (nonlinear_arith)
            requires
                c <= 255,
                d <= 255,
        ;
        a * b > c * d
    }
}

/// The score of one classified level.
#[derive(Debug, Clone)]
pub struct LevelScore {
    pub price: String,
    pub confidence: Confidence,
}

/// What a level's score says: the price as written and the confidence.
pub struct Score {
    pub price: Seq<char>,
    pub confidence: Confidence,
}

impl View for LevelScore {
    type V = Score;

    open spec fn view(&self) -> Score {
        Score { price: self.price@, confidence: self.confidence }
    }
}

/// The result of classifying one book.
#[derive(Debug)]
pub struct MarketAnalysis {
    /// Levels in the book, classified or not.
    pub total_orders: usize,
    /// Classified levels whose confidence is above 0.6.
    pub likely_human_orders: usize,
    pub bot_patterns: Vec<String>,
    pub human_patterns: Vec<String>,
    /// One score per classified level, bids first, in book order.
    pub confidence_scores: Vec<LevelScore>,
}

/// The spacing verdict of level `i` of a side, where the rule applies: the
/// level has a successor and both prices parse.
pub open spec fn gap_verdict(side: Seq<Level>, i: int) -> Option<bool> {
    if 0 <= i && i + 1 < side.len() {
        match (level_price(side[i]), level_price(side[i + 1])) {
            (Some(first), Some(second)) => Some(is_irregular_gap(first, second)),
            _ => None,
        }
    } else {
        None
    }
}

/// One for a rule that held, zero for one that did not.
pub open spec fn count(held: bool) -> int {
    if held {
        1
    } else {
        0
    }
}

/// The score of level `i` of a side, or `None` where its price or its
/// quantity does not parse.
pub open spec fn level_score(side: Seq<Level>, i: int) -> Option<Score> {
    match (level_price(side[i]), level_quantity(side[i])) {
        (Some(price), Some(quantity)) => {
            let base = count(is_round_price(price)) + count(is_round_size(quantity));
            Some(
                Score {
                    price: side[i].price,
                    confidence: match gap_verdict(side, i) {
                        Some(irregular) => Confidence {
                            hits: (base + count(irregular)) as u8,
                            checks: 3,
                        },
                        None => Confidence { hits: base as u8, checks: 2 },
                    },
                },
            )
        },
        _ => None,
    }
}

/// The scores of the first `n` levels of a side, in order.
pub open spec fn side_scores(side: Seq<Level>, n: int) -> Seq<Score>
    decreases n,
{
    if n <= 0 {
        Seq::empty()
    } else {
        match level_score(side, n - 1) {
            Some(score) => side_scores(side, n - 1).push(score),
            None => side_scores(side, n - 1),
        }
    }
}

/// The scores of a book: those of the bids, then those of the asks.
pub open spec fn book_scores(bids: Seq<Level>, asks: Seq<Level>) -> Seq<Score> {
    side_scores(bids, bids.len() as int) + side_scores(asks, asks.len() as int)
}

/// The display text for a level that is labeled human.
pub open spec fn human_label(price: Seq<char>) -> Seq<char> {
    "Order at "@ + price + " shows human behavior"@
}

/// The display text for a level that is labeled automated.
pub open spec fn bot_label(price: Seq<char>) -> Seq<char> {
    "Order at "@ + price + " likely automated"@
}

/// The texts for the scores above the threshold, in order.
pub open spec fn human_labels(scores: Seq<Score>) -> Seq<Seq<char>>
    decreases scores.len(),
{
    if scores.len() == 0 {
        Seq::empty()
    } else if scores.last().confidence.is_human() {
        human_labels(scores.drop_last()).push(human_label(scores.last().price))
    } else {
        human_labels(scores.drop_last())
    }
}

/// The texts for the scores at or below the threshold, in order.
pub open spec fn bot_labels(scores: Seq<Score>) -> Seq<Seq<char>>
    decreases scores.len(),
{
    if scores.len() == 0 {
        Seq::empty()
    } else if scores.last().confidence.is_human() {
        bot_labels(scores.drop_last())
    } else {
        bot_labels(scores.drop_last()).push(bot_label(scores.last().price))
    }
}

/// What a vector of scores says.
pub open spec fn scores_of(v: Seq<LevelScore>) -> Seq<Score> {
    Seq::new(v.len(), |i: int| v[i]@)
}

/// The sum of two lengths, held at the largest count where it would pass it.
pub open spec fn capped_sum(a: nat, b: nat) -> usize {
    if a + b > usize::MAX {
        usize::MAX
    } else {
        (a + b) as usize
    }
}

impl MarketAnalysis {
    /// This analysis is the classification of the book with these sides.
    pub open spec fn is_analysis_of(&self, bids: Seq<Level>, asks: Seq<Level>) -> bool {
        &&& self.total_orders == capped_sum(bids.len(), asks.len())
        &&& scores_of(self.confidence_scores@) == book_scores(bids, asks)
        &&& texts(self.human_patterns@) == human_labels(book_scores(bids, asks))
        &&& texts(self.bot_patterns@) == bot_labels(book_scores(bids, asks))
        &&& self.likely_human_orders == self.human_patterns.len()
    }

    /// The analysis holds nothing: that of a book that is not there.
    pub open spec fn is_empty(&self) -> bool {
        &&& self.total_orders == 0
        &&& self.likely_human_orders == 0
        &&& self.bot_patterns@.len() == 0
        &&& self.human_patterns@.len() == 0
        &&& self.confidence_scores@.len() == 0
    }
}

impl Default for MarketAnalysis {
    fn default() -> (r: MarketAnalysis)
        ensures
            r.is_empty(),
    {
        MarketAnalysis {
            total_orders: 0,
            likely_human_orders: 0,
            bot_patterns: Vec::new(),
            human_patterns: Vec::new(),
            confidence_scores: Vec::new(),
        }
    }
}

/// Every score that the rules give lies between 0 and 1.
pub proof fn lemma_level_score_in_unit_interval(side: Seq<Level>, i: int)
    requires
        level_score(side, i) is Some,
    ensures
        level_score(side, i).unwrap().confidence.in_unit_interval(),
{
}

/// Every score of a side lies between 0 and 1.
pub proof fn lemma_side_scores_in_unit_interval(side: Seq<Level>, n: int)
    ensures
        forall|k: int|
            0 <= k < side_scores(side, n).len() ==> (#[trigger] side_scores(
                side,
                n,
            )[k]).confidence.in_unit_interval(),
    decreases n,
{
    if n > 0 {
        lemma_side_scores_in_unit_interval(side, n - 1);
        let init = side_scores(side, n - 1);
        assert forall|k: int| 0 <= k < side_scores(side, n).len() implies (#[trigger] side_scores(
            side,
            n,
        )[k]).confidence.in_unit_interval() by {
            if k < init.len() {
                assert(side_scores(side, n)[k] == init[k]);
            } else {
                lemma_level_score_in_unit_interval(side, n - 1);
            }
        }
    }
}

/// Every confidence score of a classification lies between 0 and 1.
pub proof fn lemma_scores_in_unit_interval(bids: Seq<Level>, asks: Seq<Level>)
    ensures
        forall|k: int|
            0 <= k < book_scores(bids, asks).len() ==> (#[trigger] book_scores(
                bids,
                asks,
            )[k]).confidence.in_unit_interval(),
{
    lemma_side_scores_in_unit_interval(bids, bids.len() as int);
    lemma_side_scores_in_unit_interval(asks, asks.len() as int);
}

/// Every score is labeled once: human or automated.
pub proof fn lemma_labels_partition(scores: Seq<Score>)
    ensures
        human_labels(scores).len() + bot_labels(scores).len() == scores.len(),
    decreases scores.len(),
{
    if scores.len() > 0 {
        lemma_labels_partition(scores.drop_last());
    }
}

/// A side has at most one score per level.
pub proof fn lemma_side_scores_len(side: Seq<Level>, n: int)
    requires
        0 <= n,
    ensures
        side_scores(side, n).len() <= n,
    decreases n,
{
    if n > 0 {
        lemma_side_scores_len(side, n - 1);
    }
}

/// The human texts of two runs of scores laid end to end.
pub proof fn lemma_human_labels_concat(a: Seq<Score>, b: Seq<Score>)
    ensures
        human_labels(a + b) == human_labels(a) + human_labels(b),
    decreases b.len(),
{
    if b.len() == 0 {
        assert(a + b =~= a);
        assert(human_labels(a) + human_labels(b) =~= human_labels(a));
    } else {
        lemma_human_labels_concat(a, b.drop_last());
        assert((a + b).drop_last() =~= a + b.drop_last());
        assert((a + b).last() == b.last());
        if b.last().confidence.is_human() {
            let label = human_label(b.last().price);
            assert((human_labels(a) + human_labels(b.drop_last())).push(label) =~= human_labels(a)
                + human_labels(b.drop_last()).push(label));
        }
    }
}

/// The automated texts of two runs of scores laid end to end.
pub proof fn lemma_bot_labels_concat(a: Seq<Score>, b: Seq<Score>)
    ensures
        bot_labels(a + b) == bot_labels(a) + bot_labels(b),
    decreases b.len(),
{
    if b.len() == 0 {
        assert(a + b =~= a);
        assert(bot_labels(a) + bot_labels(b) =~= bot_labels(a));
    } else {
        lemma_bot_labels_concat(a, b.drop_last());
        assert((a + b).drop_last() =~= a + b.drop_last());
        assert((a + b).last() == b.last());
        if !b.last().confidence.is_human() {
            let label = bot_label(b.last().price);
            assert((bot_labels(a) + bot_labels(b.drop_last())).push(label) =~= bot_labels(a)
                + bot_labels(b.drop_last()).push(label));
        }
    }
}

/// Scores level `i` of a side.
fn score_level(side: &Vec<OrderBookEntry>, i: usize) -> (r: Option<LevelScore>)
    requires
        i < side.len(),
    ensures
        match r {
            Some(score) => level_score(entry_levels(side@), i as int) == Some(score@),
            None => level_score(entry_levels(side@), i as int) is None,
        },
{
    let price = match parse_decimal(side[i].price.as_str()) {
        Some(d) => d,
        None => {
            return None;
        },
    };
    let quantity = match parse_decimal(side[i].quantity.as_str()) {
        Some(d) => d,
        None => {
            return None;
        },
    };
    let mut hits: u8 = 0;
    let mut checks: u8 = 2;
    if round_price(&price) {
        hits = hits + 1;
    }
    if round_size(&quantity) {
        hits = hits + 1;
    }
    if i + 1 < side.len() {
        match parse_decimal(side[i + 1].price.as_str()) {
            Some(next) => {
                checks = 3;
                if irregular_gap(&price, &next) {
                    hits = hits + 1;
                }
            },
            None => {},
        }
    }
    Some(LevelScore { price: side[i].price.clone(), confidence: Confidence { hits, checks } })
}

/// Builds the text `"Order at " + price + ending`.
fn label(price: &str, ending: &str) -> (r: String)
    ensures
        r@ == "Order at "@ + price@ + ending@,
{
    let mut text = String::from_str("Order at ");
    text.append(price);
    text.append(ending);
    text
}

/// Scores one side and adds the scores and texts to an analysis.
fn score_side(side: &Vec<OrderBookEntry>, analysis: &mut MarketAnalysis)
    ensures
        scores_of(final(analysis).confidence_scores@) == scores_of(old(analysis).confidence_scores@)
            + side_scores(entry_levels(side@), side.len() as int),
        texts(final(analysis).human_patterns@) == texts(old(analysis).human_patterns@)
            + human_labels(side_scores(entry_levels(side@), side.len() as int)),
        texts(final(analysis).bot_patterns@) == texts(old(analysis).bot_patterns@) + bot_labels(
            side_scores(entry_levels(side@), side.len() as int),
        ),
        final(analysis).total_orders == old(analysis).total_orders,
        final(analysis).likely_human_orders == old(analysis).likely_human_orders,
{
    let ghost levels = entry_levels(side@);
    let ghost scores_before = scores_of(analysis.confidence_scores@);
    let ghost human_before = texts(analysis.human_patterns@);
    let ghost bot_before = texts(analysis.bot_patterns@);
    let mut i: usize = 0;
    proof {
        assert(scores_before + side_scores(levels, 0) =~= scores_before);
        assert(human_before + human_labels(side_scores(levels, 0)) =~= human_before);
        assert(bot_before + bot_labels(side_scores(levels, 0)) =~= bot_before);
    }
    while i < side.len()
        invariant
            i <= side.len(),
            levels == entry_levels(side@),
            scores_of(analysis.confidence_scores@) == scores_before + side_scores(levels, i as int),
            texts(analysis.human_patterns@) == human_before + human_labels(
                side_scores(levels, i as int),
            ),
            texts(analysis.bot_patterns@) == bot_before + bot_labels(side_scores(levels, i as int)),
            analysis.total_orders == old(analysis).total_orders,
            analysis.likely_human_orders == old(analysis).likely_human_orders,
        decreases side.len() - i,
    {
        match score_level(side, i) {
            None => {},
            Some(score) => {
                let ghost so_far = side_scores(levels, i as int);
                let ghost now = side_scores(levels, i + 1);
                let ghost held_scores = scores_of(analysis.confidence_scores@);
                let ghost held_human = texts(analysis.human_patterns@);
                let ghost held_bot = texts(analysis.bot_patterns@);
                proof {
                    assert(now == so_far.push(score@));
                    assert(now.drop_last() =~= so_far);
                    assert(now.last() == score@);
                }
                if score.confidence.above_threshold() {
                    let text = label(score.price.as_str(), " shows human behavior");
                    analysis.human_patterns.push(text);
                    proof {
                        assert(texts(analysis.human_patterns@) =~= held_human.push(
                            human_label(score@.price),
                        ));
                        assert(held_human.push(human_label(score@.price)) =~= human_before
                            + human_labels(now));
                    }
                } else {
                    let text = label(score.price.as_str(), " likely automated");
                    analysis.bot_patterns.push(text);
                    proof {
                        assert(texts(analysis.bot_patterns@) =~= held_bot.push(
                            bot_label(score@.price),
                        ));
                        assert(held_bot.push(bot_label(score@.price)) =~= bot_before + bot_labels(
                            now,
                        ));
                    }
                }
                analysis.confidence_scores.push(score);
                proof {
                    assert(scores_of(analysis.confidence_scores@) =~= held_scores.push(score@));
                    assert(held_scores.push(score@) =~= scores_before + now);
                }
            },
        }
        i = i + 1;
    }
}

/// Classifies a book: scores every level of both sides whose price and
/// quantity parse, and labels each score human or automated.
///
/// The result is a function of the two sides alone. Every confidence in it
/// lies between 0 and 1.
pub fn classify(bids: &Vec<OrderBookEntry>, asks: &Vec<OrderBookEntry>) -> (r: MarketAnalysis)
    ensures
        r.is_analysis_of(entry_levels(bids@), entry_levels(asks@)),
        forall|k: int|
            0 <= k < r.confidence_scores.len() ==> (#[trigger] r.confidence_scores[k]).confidence.in_unit_interval(),
        r.human_patterns.len() + r.bot_patterns.len() == r.confidence_scores.len(),
        r.confidence_scores.len() <= bids.len() + asks.len(),
{
    let mut analysis = MarketAnalysis::default();
    analysis.total_orders = bids.len().saturating_add(asks.len());
    proof {
        assert(scores_of(analysis.confidence_scores@) =~= Seq::<Score>::empty());
        assert(texts(analysis.human_patterns@) =~= Seq::<Seq<char>>::empty());
        assert(texts(analysis.bot_patterns@) =~= Seq::<Seq<char>>::empty());
    }
    score_side(bids, &mut analysis);
    score_side(asks, &mut analysis);
    analysis.likely_human_orders = analysis.human_patterns.len();
    proof {
        let b = side_scores(entry_levels(bids@), bids.len() as int);
        let a = side_scores(entry_levels(asks@), asks.len() as int);
        lemma_human_labels_concat(b, a);
        lemma_bot_labels_concat(b, a);
        assert(Seq::<Score>::empty() + b + a =~= b + a);
        assert(Seq::<Seq<char>>::empty() + human_labels(b) + human_labels(a) =~= human_labels(b)
            + human_labels(a));
        assert(Seq::<Seq<char>>::empty() + bot_labels(b) + bot_labels(a) =~= bot_labels(b)
            + bot_labels(a));
        assert(entry_levels(bids@).len() == bids.len());
        assert(entry_levels(asks@).len() == asks.len());
        lemma_scores_in_unit_interval(entry_levels(bids@), entry_levels(asks@));
        lemma_labels_partition(b + a);
        lemma_side_scores_len(entry_levels(bids@), bids.len() as int);
        lemma_side_scores_len(entry_levels(asks@), asks.len() as int);
        assert(texts(analysis.human_patterns@).len() == analysis.human_patterns.len());
        assert(texts(analysis.bot_patterns@).len() == analysis.bot_patterns.len());
        assert(scores_of(analysis.confidence_scores@).len() == analysis.confidence_scores.len());
        assert forall|k: int| 0 <= k < analysis.confidence_scores.len() implies (
        #[trigger] analysis.confidence_scores[k]).confidence.in_unit_interval() by {
            assert(scores_of(analysis.confidence_scores@)[k] == analysis.confidence_scores[k]@);
            assert(book_scores(entry_levels(bids@), entry_levels(asks@))[k].confidence.in_unit_interval());
        }
    }
    analysis
}

/// The confidence that a list of scores holds for a price as written: that
/// of the last score under that price, as in a table where a later entry
/// replaces an earlier one.
pub open spec fn score_for(scores: Seq<Score>, price: Seq<char>) -> Option<Confidence>
    decreases scores.len(),
{
    if scores.len() == 0 {
        None
    } else if scores.last().price == price {
        Some(scores.last().confidence)
    } else {
        score_for(scores.drop_last(), price)
    }
}

/// Looks up the confidence of a price as written.
pub fn find_score(scores: &Vec<LevelScore>, price: &String) -> (r: Option<Confidence>)
    ensures
        r == score_for(scores_of(scores@), price@),
{
    let ghost all = scores_of(scores@);
    let mut i: usize = scores.len();
    proof {
        assert(all.take(i as int) =~= all);
    }
    while i > 0
        invariant
            i <= scores.len(),
            all == scores_of(scores@),
            score_for(all, price@) == score_for(all.take(i as int), price@),
        decreases i,
    {
        proof {
            assert(all.take(i as int).last() == scores[i - 1]@);
            assert(all.take(i as int).drop_last() =~= all.take(i - 1));
        }
        if same_text(&scores[i - 1].price, price) {
            return Some(scores[i - 1].confidence);
        }
        i = i - 1;
    }
    None
}

/// `after` is `before` with each level marked by the score of its price:
/// human where the score is above the threshold, automated where it is not,
/// and as it was where the price has no score. Prices and quantities are as
/// they were.
pub open spec fn is_marked_side(
    after: Seq<OrderBookEntry>,
    before: Seq<OrderBookEntry>,
    scores: Seq<Score>,
) -> bool {
    &&& after.len() == before.len()
    &&& forall|i: int|
        0 <= i < before.len() ==> {
            &&& (#[trigger] after[i]).price == before[i].price
            &&& after[i].quantity == before[i].quantity
            &&& after[i].is_likely_human == match score_for(scores, before[i].price@) {
                Some(confidence) => confidence.is_human(),
                None => before[i].is_likely_human,
            }
        }
}

/// Marking changes no price and no quantity: the levels of a marked side
/// are those of the side before.
pub proof fn lemma_marked_side_levels(
    after: Seq<OrderBookEntry>,
    before: Seq<OrderBookEntry>,
    scores: Seq<Score>,
)
    requires
        is_marked_side(after, before, scores),
    ensures
        entry_levels(after) == entry_levels(before),
{
    assert(entry_levels(after) =~= entry_levels(before));
}

/// Marks each level of a side by the score of its price.
pub fn mark_side(side: &mut Vec<OrderBookEntry>, scores: &Vec<LevelScore>)
    ensures
        is_marked_side(final(side)@, old(side)@, scores_of(scores@)),
{
    let mut i: usize = 0;
    while i < side.len()
        invariant
            i <= side.len(),
            side.len() == old(side).len(),
            is_marked_side(side@.take(i as int), old(side)@.take(i as int), scores_of(scores@)),
            forall|j: int| i <= j < side.len() ==> side[j] == old(side)[j],
        decreases side.len() - i,
    {
        let ghost done = side@.take(i as int);
        let found = find_score(scores, &side[i].price);
        match found {
            Some(confidence) => {
                side[i].is_likely_human = confidence.above_threshold();
            },
            None => {},
        }
        proof {
            assert(side@.take(i as int) =~= done);
            let now = side@.take(i + 1);
            let then = old(side)@.take(i + 1);
            assert forall|j: int| 0 <= j < then.len() implies {
                &&& (#[trigger] now[j]).price == then[j].price
                &&& now[j].quantity == then[j].quantity
                &&& now[j].is_likely_human == match score_for(scores_of(scores@), then[j].price@) {
                    Some(confidence) => confidence.is_human(),
                    None => then[j].is_likely_human,
                }
            } by {
                if j < i {
                    assert(now[j] == done[j]);
                    assert(then[j] == old(side)@.take(i as int)[j]);
                }
            }
        }
        i = i + 1;
    }
    proof {
        assert(side@.take(i as int) =~= side@);
        assert(old(side)@.take(i as int) =~= old(side)@);
    }
}

} // verus!
