//! Order-book analysis for an exchange depth feed: exact decimal parsing,
//! per-symbol book state, a rule-based classifier of price levels, a rolling
//! aggregation window, and the reconnect state machine of the feed connector.

pub mod aggregator;
pub mod book;
pub mod classify;
pub mod connector;
pub mod db;
pub mod decimal;
pub mod feed;
pub mod json;
pub mod symbols;

use crate::aggregator::{flush_due, is_flush_due, is_record_of, recent, AggregationSample, Aggregator};
use crate::book::{
    book_symbols, entry_levels, find_book, non_decreasing, non_increasing, OrderBook,
    OrderBookEntry, OrderBookMessage, OrderSide,
};
use crate::classify::{classify, is_marked_side, mark_side, scores_of, MarketAnalysis, Score};
use crate::db::MarketAnalysisRecord;
use crate::feed::{decode_update, update_of, DepthUpdate, Update};
use crate::json::json_of;
use crate::symbols::{all_distinct, first_index};
use vstd::prelude::*;

verus! {

/// The most messages that the history keeps.
pub const HISTORY_LIMIT: usize = 10000;

/// How many of the oldest messages go when a book change overfills the
/// history.
pub const HISTORY_DROP: usize = 5000;

/// The state of the analysis: the books, the symbol on display, the message
/// history, the flush timer and the rolling windows.
#[derive(Debug)]
pub struct App {
    /// One book per symbol, in the order of the configured symbols.
    pub order_books: Vec<OrderBook>,
    pub current_symbol: String,
    /// Oldest message first.
    pub message_history: Vec<OrderBookMessage>,
    /// Milliseconds on the caller's clock at the last flush.
    pub last_db_write: u64,
    pub analysis_buffer: Aggregator,
}

/// The configured symbols, in upper case.
pub open spec fn configured_symbols() -> Seq<Seq<char>> {
    seq!["BTCUSDT"@, "ETHUSDT"@, "BNBUSDT"@, "XRPUSDT"@]
}

/// The configured symbols are four different names.
pub proof fn lemma_configured_symbols_distinct()
    ensures
        all_distinct(configured_symbols()),
        configured_symbols().len() == 4,
{
    reveal_strlit("BTCUSDT");
    reveal_strlit("ETHUSDT");
    reveal_strlit("BNBUSDT");
    reveal_strlit("XRPUSDT");
    let s = configured_symbols();
    assert(s[0][0] == 'B' && s[0][1] == 'T');
    assert(s[1][0] == 'E');
    assert(s[2][0] == 'B' && s[2][1] == 'N');
    assert(s[3][0] == 'X');
}

/// The message that notes the level `entry` of `side` for `symbol` at
/// `timestamp`.
pub open spec fn note_for(
    timestamp: u64,
    symbol: String,
    entry: OrderBookEntry,
    side: OrderSide,
) -> OrderBookMessage {
    OrderBookMessage {
        timestamp,
        symbol,
        is_human: entry.is_likely_human,
        price: entry.price,
        quantity: entry.quantity,
        side,
    }
}

/// A history with one more message at its end; where that makes more than
/// `HISTORY_LIMIT` messages, without its oldest `drop` messages.
pub open spec fn history_with(
    history: Seq<OrderBookMessage>,
    message: OrderBookMessage,
    drop: int,
) -> Seq<OrderBookMessage> {
    if history.len() + 1 > HISTORY_LIMIT {
        history.push(message).skip(drop)
    } else {
        history.push(message)
    }
}

/// A history after every level of `entries` was noted in turn, the oldest
/// message going whenever the history is overfull.
pub open spec fn history_with_side(
    history: Seq<OrderBookMessage>,
    timestamp: u64,
    symbol: String,
    entries: Seq<OrderBookEntry>,
    side: OrderSide,
) -> Seq<OrderBookMessage>
    decreases entries.len(),
{
    if entries.len() == 0 {
        history
    } else {
        history_with(
            history_with_side(history, timestamp, symbol, entries.drop_last(), side),
            note_for(timestamp, symbol, entries.last(), side),
            1,
        )
    }
}

fn note_of(timestamp: u64, symbol: &String, entry: &OrderBookEntry, side: OrderSide) -> (r:
    OrderBookMessage)
    ensures
        r == note_for(timestamp, *symbol, *entry, side),
{
    OrderBookMessage {
        timestamp,
        symbol: symbol.clone(),
        is_human: entry.is_likely_human,
        price: entry.price.clone(),
        quantity: entry.quantity.clone(),
        side,
    }
}

impl App {
    /// The book of the symbol on display, where there is one.
    pub open spec fn current_index(&self) -> int {
        first_index(book_symbols(self.order_books@), self.current_symbol@)
    }

    /// The invariant of the store: in every book the bids never rise and the
    /// asks never fall by parsed price.
    pub open spec fn books_ordered(&self) -> bool {
        forall|i: int|
            0 <= i < self.order_books.len() ==> {
                &&& non_increasing(entry_levels((#[trigger] self.order_books[i]).bids@))
                &&& non_decreasing(entry_levels(self.order_books[i].asks@))
            }
    }

    /// The symbol on display, the flush timer and the windows are the same
    /// in both states.
    pub open spec fn same_analysis_state(&self, other: &App) -> bool {
        &&& self.current_symbol == other.current_symbol
        &&& self.last_db_write == other.last_db_write
        &&& self.analysis_buffer == other.analysis_buffer
    }

    /// The state at startup: an empty book for each configured symbol, the
    /// first symbol on display, no history, every window empty, and the
    /// flush timer started at `now`.
    pub fn new(now: u64) -> (r: App)
        ensures
            book_symbols(r.order_books@) == configured_symbols(),
            all_distinct(book_symbols(r.order_books@)),
            r.books_ordered(),
            forall|i: int|
                0 <= i < r.order_books.len() ==> {
                    &&& (#[trigger] r.order_books[i]).bids@.len() == 0
                    &&& r.order_books[i].asks@.len() == 0
                    &&& r.order_books[i].last_update == now
                },
            r.current_symbol@ == "BTCUSDT"@,
            r.message_history@.len() == 0,
            r.last_db_write == now,
            forall|symbol: Seq<char>|
                r.analysis_buffer.window(symbol) == Seq::<AggregationSample>::empty(),
    {
        let mut order_books: Vec<OrderBook> = Vec::new();
        order_books.push(OrderBook::new("BTCUSDT".to_owned(), now));
        order_books.push(OrderBook::new("ETHUSDT".to_owned(), now));
        order_books.push(OrderBook::new("BNBUSDT".to_owned(), now));
        order_books.push(OrderBook::new("XRPUSDT".to_owned(), now));
        proof {
            assert(book_symbols(order_books@) =~= configured_symbols());
            lemma_configured_symbols_distinct();
        }
        App {
            order_books,
            current_symbol: "BTCUSDT".to_owned(),
            message_history: Vec::new(),
            last_db_write: now,
            analysis_buffer: Aggregator::new(),
        }
    }

    /// Puts a message at the end of the history and, where that overfills
    /// it, drops the oldest `HISTORY_DROP` messages.
    fn remember(&mut self, message: OrderBookMessage)
        ensures
            final(self).message_history@ == history_with(
                old(self).message_history@,
                message,
                HISTORY_DROP as int,
            ),
            final(self).order_books == old(self).order_books,
            final(self).same_analysis_state(old(self)),
    {
        self.message_history.push(message);
        if self.message_history.len() > HISTORY_LIMIT {
            let kept = self.message_history.split_off(HISTORY_DROP);
            self.message_history = kept;
        }
    }

    /// Notes the level `entry` of `side` under the symbol on display, at the
    /// end of the history. Where the history then holds more than
    /// `HISTORY_LIMIT` messages, the oldest one goes.
    pub fn add_to_history(&mut self, entry: OrderBookEntry, side: OrderSide, now: u64)
        ensures
            final(self).message_history@ == history_with(
                old(self).message_history@,
                note_for(now, old(self).current_symbol, entry, side),
                1,
            ),
            final(self).order_books == old(self).order_books,
            final(self).same_analysis_state(old(self)),
    {
        let message = note_of(now, &self.current_symbol, &entry, side);
        self.message_history.push(message);
        if self.message_history.len() > HISTORY_LIMIT {
            self.message_history.remove(0);
        }
        proof {
            assert(self.message_history@ =~= history_with(
                old(self).message_history@,
                note_for(now, old(self).current_symbol, entry, side),
                1,
            ));
        }
    }

    /// Notes every level of `bids`, then every level of `asks`, under the
    /// symbol on display.
    pub fn update_history_for_orders(
        &mut self,
        bids: &Vec<OrderBookEntry>,
        asks: &Vec<OrderBookEntry>,
        now: u64,
    )
        ensures
            final(self).message_history@ == history_with_side(
                history_with_side(
                    old(self).message_history@,
                    now,
                    old(self).current_symbol,
                    bids@,
                    OrderSide::Bid,
                ),
                now,
                old(self).current_symbol,
                asks@,
                OrderSide::Ask,
            ),
            final(self).order_books == old(self).order_books,
            final(self).same_analysis_state(old(self)),
    {
        self.note_side(bids, OrderSide::Bid, now);
        self.note_side(asks, OrderSide::Ask, now);
    }

    fn note_side(&mut self, entries: &Vec<OrderBookEntry>, side: OrderSide, now: u64)
        ensures
            final(self).message_history@ == history_with_side(
                old(self).message_history@,
                now,
                old(self).current_symbol,
                entries@,
                side,
            ),
            final(self).order_books == old(self).order_books,
            final(self).same_analysis_state(old(self)),
    {
        let mut i: usize = 0;
        proof {
            assert(entries@.take(0) =~= Seq::<OrderBookEntry>::empty());
        }
        while i < entries.len()
            invariant
                i <= entries.len(),
                self.message_history@ == history_with_side(
                    old(self).message_history@,
                    now,
                    old(self).current_symbol,
                    entries@.take(i as int),
                    side,
                ),
                self.order_books == old(self).order_books,
                self.same_analysis_state(old(self)),
            decreases entries.len() - i,
        {
            proof {
                assert(entries@.take(i + 1).drop_last() =~= entries@.take(i as int));
                assert(entries@.take(i + 1).last() == entries[i as int]);
            }
            let message = note_of(now, &self.current_symbol, &entries[i], side);
            self.message_history.push(message);
            if self.message_history.len() > HISTORY_LIMIT {
                self.message_history.remove(0);
            }
            proof {
                assert(self.message_history@ =~= history_with_side(
                    old(self).message_history@,
                    now,
                    old(self).current_symbol,
                    entries@.take(i + 1),
                    side,
                ));
            }
            i = i + 1;
        }
        proof {
            assert(entries@.take(i as int) =~= entries@);
        }
    }

    /// This state is `before` with the display moved on: to the symbol after
    /// the current one, the first coming after the last. Where the current
    /// symbol has no book, nothing has changed.
    pub open spec fn is_next_symbol_of(&self, before: &App) -> bool {
        let at = before.current_index();
        let count = before.order_books.len() as int;
        &&& self.order_books == before.order_books
        &&& self.message_history == before.message_history
        &&& self.last_db_write == before.last_db_write
        &&& self.analysis_buffer == before.analysis_buffer
        &&& if at < count {
            self.current_symbol@ == before.order_books[(at + 1) % count].symbol@
        } else {
            self.current_symbol == before.current_symbol
        }
    }

    /// Moves the display to the next symbol.
    pub fn next_symbol(&mut self)
        ensures
            final(self).is_next_symbol_of(old(self)),
    {
        let at = find_book(&self.order_books, &self.current_symbol);
        if at < self.order_books.len() {
            let following: usize = (at + 1) % self.order_books.len();
            self.current_symbol = self.order_books[following].symbol.clone();
        }
    }

    /// What `apply` leaves in the history: where the replaced book has a
    /// level, a note of its best bid, or of its best ask where it has no bid,
    /// follows the messages that were there; where that overfills the history,
    /// the oldest `HISTORY_DROP` messages are gone.
    pub open spec fn history_after_apply(
        before: Seq<OrderBookMessage>,
        book: OrderBook,
        now: u64,
    ) -> Seq<OrderBookMessage> {
        if book.bids@.len() > 0 {
            history_with(
                before,
                note_for(now, book.symbol, book.bids@[0], OrderSide::Bid),
                HISTORY_DROP as int,
            )
        } else if book.asks@.len() > 0 {
            history_with(
                before,
                note_for(now, book.symbol, book.asks@[0], OrderSide::Ask),
                HISTORY_DROP as int,
            )
        } else {
            before
        }
    }

    /// This state is `before` with `update` applied at `now`.
    ///
    /// The book of the update's symbol holds what the update carried: its
    /// bids never rise and its asks never fall by parsed price. Every other
    /// book is as it was. An update for a symbol without a book has changed
    /// nothing.
    pub open spec fn is_update_of(&self, before: &App, update: Update, now: u64) -> bool {
        let at = first_index(book_symbols(before.order_books@), update.symbol);
        &&& self.same_analysis_state(before)
        &&& self.order_books.len() == before.order_books.len()
        &&& book_symbols(self.order_books@) == book_symbols(before.order_books@)
        &&& if at < before.order_books.len() {
            &&& self.order_books[at].holds(update, now)
            &&& non_increasing(entry_levels(self.order_books[at].bids@))
            &&& non_decreasing(entry_levels(self.order_books[at].asks@))
            &&& forall|j: int|
                0 <= j < before.order_books.len() && j != at ==> self.order_books[j]
                    == before.order_books[j]
            &&& self.message_history@ == Self::history_after_apply(
                before.message_history@,
                self.order_books[at],
                now,
            )
        } else {
            &&& self.order_books == before.order_books
            &&& self.message_history == before.message_history
        }
    }

    /// Applies a depth update at `now`: replaces the book of its symbol
    /// wholesale and notes the new top of that book in the history.
    pub fn apply(&mut self, update: &DepthUpdate, now: u64)
        ensures
            final(self).is_update_of(old(self), update@, now),
            old(self).books_ordered() ==> final(self).books_ordered(),
    {
        let at = find_book(&self.order_books, &update.symbol);
        if at >= self.order_books.len() {
            return;
        }
        let ghost symbols = book_symbols(self.order_books@);
        self.order_books[at].replace(update, now);
        proof {
            assert(book_symbols(self.order_books@) =~= symbols);
        }
        let book = &self.order_books[at];
        let note: Option<OrderBookMessage> = if book.bids.len() > 0 {
            Some(note_of(now, &book.symbol, &book.bids[0], OrderSide::Bid))
        } else if book.asks.len() > 0 {
            Some(note_of(now, &book.symbol, &book.asks[0], OrderSide::Ask))
        } else {
            None
        };
        match note {
            Some(message) => {
                self.remember(message);
            },
            None => {},
        }
    }

    /// This state is `before` after a run of the flush timer at `now` that
    /// gave `flushed`.
    ///
    /// Where the timer has run out and the window of the symbol on display
    /// holds a sample, `flushed` is the record of that window, stamped
    /// `timestamp`, and the timer is reset to `now`. Otherwise there is no
    /// record and the timer runs on: an empty window does not reset it.
    pub open spec fn is_flush_of(
        &self,
        before: &App,
        flushed: Option<MarketAnalysisRecord>,
        now: u64,
        timestamp: u64,
    ) -> bool {
        let window = before.analysis_buffer.window(before.current_symbol@);
        &&& self.order_books == before.order_books
        &&& self.message_history == before.message_history
        &&& self.current_symbol == before.current_symbol
        &&& self.analysis_buffer == before.analysis_buffer
        &&& if flush_due(before.last_db_write, now) && window.len() > 0 {
            &&& flushed is Some
            &&& is_record_of(flushed.unwrap(), before.current_symbol@, timestamp, window)
            &&& self.last_db_write == now
        } else {
            &&& flushed is None
            &&& self.last_db_write == before.last_db_write
        }
    }

    /// Runs the flush timer at `now`: hands out the record to persist where
    /// one is due. `timestamp` is the wall clock in seconds since the epoch.
    /// The timer is reset whether or not the record is then stored.
    pub fn flush(&mut self, now: u64, timestamp: u64) -> (flushed: Option<MarketAnalysisRecord>)
        ensures
            final(self).is_flush_of(old(self), flushed, now, timestamp),
    {
        if !is_flush_due(self.last_db_write, now) {
            return None;
        }
        let flushed = self.analysis_buffer.summarize(self.current_symbol.as_str(), timestamp);
        if flushed.is_some() {
            self.last_db_write = now;
        }
        flushed
    }

    /// This state is `before` after one classification cycle at `now` that
    /// gave `analysis` and `flushed`.
    ///
    /// Where the symbol on display has a book, `analysis` classifies it, its
    /// counts are recorded in the window of that symbol at `now`, and the
    /// flush timer is then run. Where it has none, the analysis is empty and
    /// nothing has changed.
    pub open spec fn is_cycle_of(
        &self,
        before: &App,
        analysis: MarketAnalysis,
        flushed: Option<MarketAnalysisRecord>,
        now: u64,
        timestamp: u64,
    ) -> bool {
        let at = before.current_index();
        let symbol = before.current_symbol@;
        &&& self.order_books == before.order_books
        &&& self.message_history == before.message_history
        &&& self.current_symbol == before.current_symbol
        &&& if at < before.order_books.len() {
            let window = recent(
                before.analysis_buffer.window(symbol).push(
                    AggregationSample {
                        observed_at: now,
                        total_orders: analysis.total_orders,
                        human_orders: analysis.likely_human_orders,
                    },
                ),
                now,
            );
            &&& analysis.is_analysis_of(
                entry_levels(before.order_books[at].bids@),
                entry_levels(before.order_books[at].asks@),
            )
            &&& self.analysis_buffer.window(symbol) == window
            &&& forall|other: Seq<char>|
                other != symbol ==> self.analysis_buffer.window(other)
                    == before.analysis_buffer.window(other)
            &&& window.len() > 0
            &&& if flush_due(before.last_db_write, now) {
                &&& flushed is Some
                &&& is_record_of(flushed.unwrap(), symbol, timestamp, window)
                &&& self.last_db_write == now
            } else {
                &&& flushed is None
                &&& self.last_db_write == before.last_db_write
            }
        } else {
            &&& analysis.is_empty()
            &&& flushed is None
            &&& self.analysis_buffer == before.analysis_buffer
            &&& self.last_db_write == before.last_db_write
        }
    }

    /// Runs one classification cycle at `now` for the symbol on display:
    /// classifies its book, records the counts in its window, and runs the
    /// flush timer. Returns the analysis and the record to persist, where one
    /// is due. `timestamp` is the wall clock in seconds since the epoch.
    pub fn analyze_market(&mut self, now: u64, timestamp: u64) -> (r: (
        MarketAnalysis,
        Option<MarketAnalysisRecord>,
    ))
        ensures
            final(self).is_cycle_of(old(self), r.0, r.1, now, timestamp),
            forall|k: int|
                0 <= k < r.0.confidence_scores.len() ==> (
                #[trigger] r.0.confidence_scores[k]).confidence.in_unit_interval(),
    {
        let at = find_book(&self.order_books, &self.current_symbol);
        if at >= self.order_books.len() {
            return (MarketAnalysis::default(), None);
        }
        let analysis = classify(&self.order_books[at].bids, &self.order_books[at].asks);
        let ghost held = self.analysis_buffer.window(self.current_symbol@);
        let ghost sample = AggregationSample {
            observed_at: now,
            total_orders: analysis.total_orders,
            human_orders: analysis.likely_human_orders,
        };
        self.analysis_buffer.record(
            self.current_symbol.as_str(),
            analysis.total_orders,
            analysis.likely_human_orders,
            now,
        );
        proof {
            assert(held.push(sample).drop_last() =~= held);
            assert(held.push(sample).last() == sample);
        }
        let flushed = self.flush(now, timestamp);
        (analysis, flushed)
    }

    /// This state is `before` with the book on display marked by `scores`:
    /// each of its levels is marked human or automated by the score of its
    /// price, and is as it was where its price has no score. Nothing else
    /// has changed; without a book on display nothing has changed at all.
    pub open spec fn is_marking_of(&self, before: &App, scores: Seq<Score>) -> bool {
        let at = before.current_index();
        &&& self.same_analysis_state(before)
        &&& self.message_history == before.message_history
        &&& self.order_books.len() == before.order_books.len()
        &&& forall|j: int|
            0 <= j < before.order_books.len() && j != at ==> self.order_books[j]
                == before.order_books[j]
        &&& at < before.order_books.len() ==> {
            &&& self.order_books[at].symbol == before.order_books[at].symbol
            &&& self.order_books[at].last_update == before.order_books[at].last_update
            &&& self.order_books[at].last_update_id == before.order_books[at].last_update_id
            &&& is_marked_side(self.order_books[at].bids@, before.order_books[at].bids@, scores)
            &&& is_marked_side(self.order_books[at].asks@, before.order_books[at].asks@, scores)
        }
    }

    /// Marks the levels of the book on display by the scores of an analysis.
    pub fn mark_levels(&mut self, analysis: &MarketAnalysis)
        ensures
            final(self).is_marking_of(old(self), scores_of(analysis.confidence_scores@)),
            old(self).books_ordered() ==> final(self).books_ordered(),
    {
        let at = find_book(&self.order_books, &self.current_symbol);
        if at < self.order_books.len() {
            mark_side(&mut self.order_books[at].bids, &analysis.confidence_scores);
            mark_side(&mut self.order_books[at].asks, &analysis.confidence_scores);
            proof {
                let scores = scores_of(analysis.confidence_scores@);
                crate::classify::lemma_marked_side_levels(
                    self.order_books[at as int].bids@,
                    old(self).order_books[at as int].bids@,
                    scores,
                );
                crate::classify::lemma_marked_side_levels(
                    self.order_books[at as int].asks@,
                    old(self).order_books[at as int].asks@,
                    scores,
                );
            }
        }
    }

    /// Decodes a normalized update object and applies it at `now`. An object
    /// that does not decode is dropped and changes nothing.
    pub fn update_orders(&mut self, result: &serde_json::Value, now: u64) -> (applied: Option<
        DepthUpdate,
    >)
        ensures
            match applied {
                Some(update) => update_of(json_of(*result)) == Some(update@) && final(self).is_update_of(
                    old(self),
                    update@,
                    now,
                ),
                None => update_of(json_of(*result)) is None && *final(self) == *old(self),
            },
    {
        match decode_update(result) {
            None => None,
            Some(update) => {
                self.apply(&update, now);
                Some(update)
            },
        }
    }
}

} // verus!
