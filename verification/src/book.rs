//! The order book store: one book per symbol, replaced wholesale by every
//! update and kept sorted by parsed price.

use crate::decimal::{decimal_of_text, parse_decimal, product, Decimal};
use crate::feed::{DepthUpdate, Update};
use crate::symbols::{first_index, lemma_first_index_is, same_text};
use vstd::prelude::*;

verus! {

/// One price level of a book, as it was received.
#[derive(Debug, Clone)]
pub struct OrderBookEntry {
    pub price: String,
    pub quantity: String,
    pub is_likely_human: bool,
}

/// The side of the book that a level or a message belongs to.
#[derive(Debug, Clone, Copy, PartialEq, Eq, Structural)]
pub enum OrderSide {
    Bid,
    Ask,
}

/// A note of one book change, kept for display.
#[derive(Debug, Clone)]
pub struct OrderBookMessage {
    /// Milliseconds on the caller's clock.
    pub timestamp: u64,
    pub symbol: String,
    pub is_human: bool,
    pub price: String,
    pub quantity: String,
    pub side: OrderSide,
}

/// The current depth of one symbol.
#[derive(Debug)]
pub struct OrderBook {
    pub symbol: String,
    pub bids: Vec<OrderBookEntry>,
    pub asks: Vec<OrderBookEntry>,
    /// Milliseconds on the caller's clock at the last replacement.
    pub last_update: u64,
    /// The update id carried by the last replacement.
    pub last_update_id: u64,
}

/// The text of a price level: what contracts say about a level.
pub struct Level {
    pub price: Seq<char>,
    pub quantity: Seq<char>,
}

/// The value of a text in units of 10^-18, text that is no numeral counting
/// as zero.
pub open spec fn units_or_zero(text: Seq<char>) -> int {
    match decimal_of_text(text) {
        Some(d) => d.value(),
        None => 0,
    }
}

/// The total of a level: its price times its quantity, or `None` where the
/// product does not fit.
pub open spec fn level_total(l: Level) -> Option<Decimal> {
    product(units_or_zero(l.price), units_or_zero(l.quantity))
}

fn parse_or_zero(text: &str) -> (r: Decimal)
    ensures
        r.value() == units_or_zero(text@),
{
    match parse_decimal(text) {
        Some(d) => d,
        None => Decimal { units: 0 },
    }
}

impl OrderBookEntry {
    /// The text of this level.
    pub open spec fn level(self) -> Level {
        Level { price: self.price@, quantity: self.quantity@ }
    }

    /// The total of the level: price times quantity, rounded toward zero at
    /// the eighteenth fractional digit. A price or quantity that is no
    /// numeral counts as zero.
    pub fn total(&self) -> (r: Option<Decimal>)
        ensures
            r == level_total(self.level()),
    {
        let price = parse_or_zero(self.price.as_str());
        let quantity = parse_or_zero(self.quantity.as_str());
        price.times(&quantity)
    }
}

/// The levels of a stored side.
pub open spec fn entry_levels(s: Seq<OrderBookEntry>) -> Seq<Level> {
    Seq::new(s.len(), |i: int| s[i].level())
}

/// The levels of a received side, each a pair of price and quantity.
pub open spec fn pair_levels(s: Seq<(String, String)>) -> Seq<Level> {
    Seq::new(s.len(), |i: int| Level { price: s[i].0@, quantity: s[i].1@ })
}

/// The price of a level in units of 10^-18, where its text is a numeral.
pub open spec fn level_price(l: Level) -> Option<int> {
    match decimal_of_text(l.price) {
        Some(d) => Some(d.value()),
        None => None,
    }
}

/// The quantity of a level in units of 10^-18, where its text is a numeral.
pub open spec fn level_quantity(l: Level) -> Option<int> {
    match decimal_of_text(l.quantity) {
        Some(d) => Some(d.value()),
        None => None,
    }
}

/// The levels of `s` whose price is `v`, in their order in `s`.
pub open spec fn levels_at(s: Seq<Level>, v: int) -> Seq<Level>
    decreases s.len(),
{
    if s.len() == 0 {
        Seq::empty()
    } else if level_price(s.last()) == Some(v) {
        levels_at(s.drop_last(), v).push(s.last())
    } else {
        levels_at(s.drop_last(), v)
    }
}

/// Every level has a price that parses.
pub open spec fn all_priced(s: Seq<Level>) -> bool {
    forall|i: int| 0 <= i < s.len() ==> (#[trigger] level_price(s[i])) is Some
}

/// Prices never rise along `s`.
pub open spec fn non_increasing(s: Seq<Level>) -> bool {
    forall|i: int, j: int|
        0 <= i < j < s.len() ==> level_price(s[i]).unwrap() >= level_price(s[j]).unwrap()
}

/// Prices never fall along `s`.
pub open spec fn non_decreasing(s: Seq<Level>) -> bool {
    forall|i: int, j: int|
        0 <= i < j < s.len() ==> level_price(s[i]).unwrap() <= level_price(s[j]).unwrap()
}

/// `stored` is what a side of the book holds after `received` replaced it:
/// the received levels whose price parses, ordered by price (falling for
/// bids, rising for asks), levels of one price in the order they arrived.
pub open spec fn is_side_of(stored: Seq<Level>, received: Seq<Level>, falling: bool) -> bool {
    &&& all_priced(stored)
    &&& if falling {
        non_increasing(stored)
    } else {
        non_decreasing(stored)
    }
    &&& forall|v: int| levels_at(stored, v) == levels_at(received, v)
}

/// The levels at one price of two runs laid end to end are those of the
/// first followed by those of the second.
pub proof fn lemma_levels_at_concat(a: Seq<Level>, b: Seq<Level>, v: int)
    ensures
        levels_at(a + b, v) == levels_at(a, v) + levels_at(b, v),
    decreases b.len(),
{
    if b.len() == 0 {
        assert(a + b =~= a);
        assert(levels_at(a, v) + levels_at(b, v) =~= levels_at(a, v));
    } else {
        lemma_levels_at_concat(a, b.drop_last(), v);
        assert((a + b).drop_last() =~= a + b.drop_last());
        assert((a + b).last() == b.last());
        if level_price(b.last()) == Some(v) {
            assert((levels_at(a, v) + levels_at(b.drop_last(), v)).push(b.last()) =~= levels_at(a, v)
                + levels_at(b.drop_last(), v).push(b.last()));
        }
    }
}

/// A run that holds no level at a price contributes nothing at that price.
pub proof fn lemma_levels_at_absent(s: Seq<Level>, v: int)
    requires
        forall|i: int| 0 <= i < s.len() ==> level_price(#[trigger] s[i]) != Some(v),
    ensures
        levels_at(s, v) == Seq::<Level>::empty(),
    decreases s.len(),
{
    if s.len() > 0 {
        assert(level_price(s[s.len() - 1]) != Some(v));
        assert forall|i: int| 0 <= i < s.drop_last().len() implies level_price(
            #[trigger] s.drop_last()[i],
        ) != Some(v) by {
            assert(s.drop_last()[i] == s[i]);
        }
        lemma_levels_at_absent(s.drop_last(), v);
    }
}

/// Placing a level into a run, with no level of its price behind it, adds it
/// after the levels of its price and leaves every other price as it was.
pub proof fn lemma_levels_at_insert(s: Seq<Level>, k: int, e: Level, v: int)
    requires
        0 <= k <= s.len(),
        forall|j: int| k <= j < s.len() ==> level_price(#[trigger] s[j]) != level_price(e),
    ensures
        levels_at(s.insert(k, e), v) == if level_price(e) == Some(v) {
            levels_at(s, v).push(e)
        } else {
            levels_at(s, v)
        },
{
    let head = s.subrange(0, k);
    let tail = s.subrange(k, s.len() as int);
    assert(s =~= head + tail);
    assert(s.insert(k, e) =~= head.push(e) + tail);
    lemma_levels_at_concat(head, tail, v);
    lemma_levels_at_concat(head.push(e), tail, v);
    assert(head.push(e).drop_last() =~= head);
    if level_price(e) == Some(v) {
        assert forall|i: int| 0 <= i < tail.len() implies level_price(#[trigger] tail[i]) != Some(
            v,
        ) by {
            assert(tail[i] == s[k + i]);
        }
        lemma_levels_at_absent(tail, v);
        assert(levels_at(head, v).push(e) + Seq::<Level>::empty() =~= (levels_at(head, v)
            + Seq::<Level>::empty()).push(e));
    }
}

/// The levels at one price, read from the front: the first level where it
/// is at that price, then those of the rest.
pub proof fn lemma_levels_at_first(s: Seq<Level>, v: int)
    requires
        s.len() > 0,
    ensures
        levels_at(s, v) == if level_price(s[0]) == Some(v) {
            seq![s[0]] + levels_at(s.drop_first(), v)
        } else {
            levels_at(s.drop_first(), v)
        },
{
    let head = seq![s[0]];
    assert(s =~= head + s.drop_first());
    lemma_levels_at_concat(head, s.drop_first(), v);
    assert(head.drop_last() =~= Seq::<Level>::empty());
    assert(levels_at(head.drop_last(), v) =~= Seq::<Level>::empty());
    if level_price(s[0]) == Some(v) {
        assert(levels_at(head, v) =~= head);
    } else {
        assert(levels_at(head, v) =~= Seq::<Level>::empty());
        assert(Seq::<Level>::empty() + levels_at(s.drop_first(), v) =~= levels_at(
            s.drop_first(),
            v,
        ));
    }
}

/// A run holds a level at every price of one of its levels.
pub proof fn lemma_levels_at_present(s: Seq<Level>, i: int, v: int)
    requires
        0 <= i < s.len(),
        level_price(s[i]) == Some(v),
    ensures
        levels_at(s, v).len() > 0,
    decreases s.len(),
{
    if i < s.len() - 1 {
        assert(s.drop_last()[i] == s[i]);
        lemma_levels_at_present(s.drop_last(), i, v);
    }
}

/// Two ordered runs that hold the same levels at every price, in the same
/// order, are the same run.
proof fn lemma_same_levels_same_run(a: Seq<Level>, b: Seq<Level>, falling: bool)
    requires
        all_priced(a),
        all_priced(b),
        if falling {
            non_increasing(a) && non_increasing(b)
        } else {
            non_decreasing(a) && non_decreasing(b)
        },
        forall|v: int| levels_at(a, v) == levels_at(b, v),
    ensures
        a == b,
    decreases a.len(),
{
    if a.len() == 0 {
        if b.len() > 0 {
            let w = level_price(b[0]).unwrap();
            lemma_levels_at_present(b, 0, w);
            assert(levels_at(a, w) == levels_at(b, w));
        }
        assert(a =~= b);
    } else {
        let v0 = level_price(a[0]).unwrap();
        lemma_levels_at_present(a, 0, v0);
        assert(levels_at(a, v0) == levels_at(b, v0));
        if b.len() == 0 {
            assert(levels_at(b, v0) =~= Seq::<Level>::empty());
        }
        let w0 = level_price(b[0]).unwrap();
        lemma_levels_at_present(b, 0, w0);
        assert(levels_at(a, w0) == levels_at(b, w0));
        // Each run holds a level at the first price of the other.
        if forall|i: int| 0 <= i < a.len() ==> level_price(#[trigger] a[i]) != Some(w0) {
            lemma_levels_at_absent(a, w0);
        }
        let i = choose|i: int| 0 <= i < a.len() && level_price(#[trigger] a[i]) == Some(w0);
        if forall|j: int| 0 <= j < b.len() ==> level_price(#[trigger] b[j]) != Some(v0) {
            lemma_levels_at_absent(b, v0);
        }
        let j = choose|j: int| 0 <= j < b.len() && level_price(#[trigger] b[j]) == Some(v0);
        assert(v0 == w0) by {
            if i > 0 {
                assert(level_price(a[0]).unwrap() >= level_price(a[i]).unwrap() || !falling);
                assert(level_price(a[0]).unwrap() <= level_price(a[i]).unwrap() || falling);
            }
            if j > 0 {
                assert(level_price(b[0]).unwrap() >= level_price(b[j]).unwrap() || !falling);
                assert(level_price(b[0]).unwrap() <= level_price(b[j]).unwrap() || falling);
            }
        }
        let ta = a.drop_first();
        let tb = b.drop_first();
        lemma_levels_at_first(a, v0);
        lemma_levels_at_first(b, v0);
        let la = seq![a[0]] + levels_at(ta, v0);
        let lb = seq![b[0]] + levels_at(tb, v0);
        assert(la == lb);
        assert(a[0] == b[0]) by {
            assert(la[0] == a[0]);
            assert(lb[0] == b[0]);
        }
        assert forall|v: int| levels_at(ta, v) == levels_at(tb, v) by {
            lemma_levels_at_first(a, v);
            lemma_levels_at_first(b, v);
            assert(levels_at(a, v) == levels_at(b, v));
            if v == v0 {
                assert(la.drop_first() =~= levels_at(ta, v0));
                assert(lb.drop_first() =~= levels_at(tb, v0));
            }
        }
        assert forall|k: int| 0 <= k < ta.len() implies (#[trigger] level_price(ta[k])) is Some by {
            assert(ta[k] == a[k + 1]);
        }
        assert forall|k: int| 0 <= k < tb.len() implies (#[trigger] level_price(tb[k])) is Some by {
            assert(tb[k] == b[k + 1]);
        }
        if falling {
            assert forall|x: int, y: int| 0 <= x < y < ta.len() implies level_price(
                ta[x],
            ).unwrap() >= level_price(ta[y]).unwrap() by {
                assert(ta[x] == a[x + 1] && ta[y] == a[y + 1]);
            }
            assert forall|x: int, y: int| 0 <= x < y < tb.len() implies level_price(
                tb[x],
            ).unwrap() >= level_price(tb[y]).unwrap() by {
                assert(tb[x] == b[x + 1] && tb[y] == b[y + 1]);
            }
        } else {
            assert forall|x: int, y: int| 0 <= x < y < ta.len() implies level_price(
                ta[x],
            ).unwrap() <= level_price(ta[y]).unwrap() by {
                assert(ta[x] == a[x + 1] && ta[y] == a[y + 1]);
            }
            assert forall|x: int, y: int| 0 <= x < y < tb.len() implies level_price(
                tb[x],
            ).unwrap() <= level_price(tb[y]).unwrap() by {
                assert(tb[x] == b[x + 1] && tb[y] == b[y + 1]);
            }
        }
        lemma_same_levels_same_run(ta, tb, falling);
        assert(a =~= seq![a[0]] + ta);
        assert(b =~= seq![b[0]] + tb);
    }
}

/// What a side holds after a replacement is settled by what was received:
/// two sides that both answer to `is_side_of` for the same received levels
/// are the same side.
pub proof fn lemma_side_is_unique(a: Seq<Level>, b: Seq<Level>, received: Seq<Level>, falling: bool)
    requires
        is_side_of(a, received, falling),
        is_side_of(b, received, falling),
    ensures
        a == b,
{
    assert forall|v: int| levels_at(a, v) == levels_at(b, v) by {
        assert(levels_at(a, v) == levels_at(received, v));
        assert(levels_at(b, v) == levels_at(received, v));
    }
    lemma_same_levels_same_run(a, b, falling);
}

/// Orders one received side for the book.
///
/// Levels whose price does not parse are left out. The others are ordered by
/// price, falling where `falling` is set and rising otherwise; levels of one
/// price stay in the order they were received. No level is marked human.
pub fn sorted_side(received: &Vec<(String, String)>, falling: bool) -> (stored: Vec<OrderBookEntry>)
    ensures
        is_side_of(entry_levels(stored@), pair_levels(received@), falling),
        forall|i: int| 0 <= i < stored.len() ==> !(#[trigger] stored[i]).is_likely_human,
{
    let mut stored: Vec<OrderBookEntry> = Vec::new();
    let mut keys: Vec<i128> = Vec::new();
    let mut i: usize = 0;
    proof {
        assert(pair_levels(received@).take(0) =~= Seq::<Level>::empty());
        assert(entry_levels(stored@) =~= Seq::<Level>::empty());
    }
    while i < received.len()
        invariant
            i <= received.len(),
            keys.len() == stored.len(),
            forall|j: int|
                0 <= j < stored.len() ==> level_price((#[trigger] stored[j]).level()) == Some(
                    if falling {
                        -(keys[j] as int)
                    } else {
                        keys[j] as int
                    },
                ),
            forall|a: int, b: int| 0 <= a < b < keys.len() ==> keys[a] <= keys[b],
            forall|v: int|
                levels_at(entry_levels(stored@), v) == levels_at(
                    pair_levels(received@).take(i as int),
                    v,
                ),
            forall|j: int| 0 <= j < stored.len() ==> !(#[trigger] stored[j]).is_likely_human,
        decreases received.len() - i,
    {
        let ghost before = pair_levels(received@).take(i as int);
        let ghost after = pair_levels(received@).take(i + 1);
        let ghost arrived = pair_levels(received@)[i as int];
        proof {
            assert(after.drop_last() =~= before);
            assert(after.last() == arrived);
        }
        match parse_decimal(received[i].0.as_str()) {
            None => {},
            Some(price) => {
                proof {
                    crate::decimal::lemma_decimal_bound(vstd::utf8::encode_utf8(received[i as int].0@));
                }
                let key: i128 = if falling {
                    -price.units
                } else {
                    price.units
                };
                let mut k: usize = keys.len();
                while k > 0 && keys[k - 1] > key
                    invariant
                        k <= keys.len(),
                        forall|j: int| k <= j < keys.len() ==> keys[j] > key,
                    decreases k,
                {
                    k = k - 1;
                }
                let entry = OrderBookEntry {
                    price: received[i].0.clone(),
                    quantity: received[i].1.clone(),
                    is_likely_human: false,
                };
                let ghost old_levels = entry_levels(stored@);
                let ghost old_keys = keys@;
                proof {
                    assert(entry.level() == arrived);
                    assert forall|j: int| k <= j < old_levels.len() implies level_price(
                        #[trigger] old_levels[j],
                    ) != level_price(arrived) by {
                        assert(old_levels[j] == stored[j].level());
                        assert(keys[j] > key);
                    }
                    assert forall|v: int|
                        levels_at(old_levels.insert(k as int, arrived), v) == levels_at(
                            after,
                            v,
                        ) by {
                        lemma_levels_at_insert(old_levels, k as int, arrived, v);
                    }
                }
                keys.insert(k, key);
                stored.insert(k, entry);
                proof {
                    assert(entry_levels(stored@) =~= old_levels.insert(k as int, arrived));
                    assert forall|a: int, b: int| 0 <= a < b < keys.len() implies keys[a]
                        <= keys[b] by {
                        let oa = if a < k { a } else { a - 1 };
                        let ob = if b < k { b } else { b - 1 };
                        if a != k && b != k {
                            assert(old_keys[oa] <= old_keys[ob]);
                        } else if a == k {
                            assert(old_keys[ob] > key);
                        } else {
                            if k > 0 {
                                assert(old_keys[k - 1] <= key);
                                assert(oa <= k - 1);
                                if oa < k - 1 {
                                    assert(old_keys[oa] <= old_keys[k - 1]);
                                }
                            }
                        }
                    }
                }
            },
        }
        i = i + 1;
    }
    proof {
        assert(pair_levels(received@).take(i as int) =~= pair_levels(received@));
        let levels = entry_levels(stored@);
        assert forall|j: int| 0 <= j < levels.len() implies (#[trigger] level_price(
            levels[j],
        )) is Some by {
            assert(levels[j] == stored[j].level());
        }
        if falling {
            assert forall|a: int, b: int| 0 <= a < b < levels.len() implies level_price(
                levels[a],
            ).unwrap() >= level_price(levels[b]).unwrap() by {
                assert(levels[a] == stored[a].level());
                assert(levels[b] == stored[b].level());
                assert(keys[a] <= keys[b]);
            }
        } else {
            assert forall|a: int, b: int| 0 <= a < b < levels.len() implies level_price(
                levels[a],
            ).unwrap() <= level_price(levels[b]).unwrap() by {
                assert(levels[a] == stored[a].level());
                assert(levels[b] == stored[b].level());
                assert(keys[a] <= keys[b]);
            }
        }
    }
    stored
}

/// The whole seconds between a message's timestamp and `now`, zero where
/// `now` is the earlier.
pub open spec fn age_seconds(timestamp: u64, now: u64) -> int {
    if now >= timestamp {
        (now - timestamp) / 1000
    } else {
        0
    }
}

impl OrderBookMessage {
    /// The age of the message at `now` as hours, minutes and seconds.
    pub fn age(&self, now: u64) -> (r: (u64, u64, u64))
        ensures
            r.0 * 3600 + r.1 * 60 + r.2 == age_seconds(self.timestamp, now),
            r.1 < 60,
            r.2 < 60,
    {
        let seconds: u64 = if now >= self.timestamp {
            (now - self.timestamp) / 1000
        } else {
            0
        };
        (seconds / 3600, (seconds % 3600) / 60, seconds % 60)
    }
}

/// The symbols of a list of books.
pub open spec fn book_symbols(books: Seq<OrderBook>) -> Seq<Seq<char>> {
    Seq::new(books.len(), |i: int| books[i].symbol@)
}

/// Finds the book of a symbol: the index of the first book under that name,
/// or the number of books where there is none.
pub fn find_book(books: &Vec<OrderBook>, symbol: &String) -> (r: usize)
    ensures
        r == first_index(book_symbols(books@), symbol@),
        r <= books.len(),
{
    let mut i: usize = 0;
    while i < books.len() && !same_text(&books[i].symbol, symbol)
        invariant
            i <= books.len(),
            forall|j: int| 0 <= j < i ==> book_symbols(books@)[j] != symbol@,
        decreases books.len() - i,
    {
        i = i + 1;
    }
    proof {
        lemma_first_index_is(book_symbols(books@), symbol@, i as int);
    }
    i
}

impl OrderBook {
    /// An empty book for a symbol.
    pub fn new(symbol: String, now: u64) -> (r: OrderBook)
        ensures
            r.symbol == symbol,
            r.bids@.len() == 0,
            r.asks@.len() == 0,
            r.last_update == now,
            r.last_update_id == 0,
    {
        OrderBook { symbol, bids: Vec::new(), asks: Vec::new(), last_update: now, last_update_id: 0 }
    }

    /// This book holds exactly what `update` carried, applied at `now`: both
    /// sides replaced and ordered, no level marked, the stamps renewed.
    pub open spec fn holds(&self, update: Update, now: u64) -> bool {
        &&& is_side_of(entry_levels(self.bids@), update.bids, true)
        &&& is_side_of(entry_levels(self.asks@), update.asks, false)
        &&& forall|i: int| 0 <= i < self.bids.len() ==> !(#[trigger] self.bids[i]).is_likely_human
        &&& forall|i: int| 0 <= i < self.asks.len() ==> !(#[trigger] self.asks[i]).is_likely_human
        &&& self.last_update == now
        &&& self.last_update_id == update.update_id
    }

    /// Replaces both sides of the book by those of `update`, whatever the
    /// book held before. Bids are ordered by falling price and asks by rising
    /// price; levels whose price does not parse are left out.
    pub fn replace(&mut self, update: &DepthUpdate, now: u64)
        ensures
            final(self).holds(update@, now),
            final(self).symbol == old(self).symbol,
            non_increasing(entry_levels(final(self).bids@)),
            non_decreasing(entry_levels(final(self).asks@)),
    {
        self.bids = sorted_side(&update.bids, true);
        self.asks = sorted_side(&update.asks, false);
        self.last_update = now;
        self.last_update_id = update.update_id;
    }
}

} // verus!
