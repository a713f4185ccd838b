//! The typed decode step at the connector boundary: JSON from the exchange
//! becomes a `DepthUpdate`, or is dropped.

use crate::book::Level;
use crate::json::{items, json_of, json_of_all, json_parse, member, parse_json, text, unsigned, Json};
use crate::symbols::texts;
use vstd::prelude::*;
use vstd::string::StringExecFns;

verus! {

/// A normalized depth update: the complete current depth of one symbol.
#[derive(Debug)]
pub struct DepthUpdate {
    pub symbol: String,
    /// Pairs of price and quantity, as received.
    pub bids: Vec<(String, String)>,
    /// Pairs of price and quantity, as received.
    pub asks: Vec<(String, String)>,
    pub update_id: u64,
}

/// What a depth update says.
pub struct Update {
    pub symbol: Seq<char>,
    pub bids: Seq<Level>,
    pub asks: Seq<Level>,
    pub update_id: u64,
}

impl View for DepthUpdate {
    type V = Update;

    open spec fn view(&self) -> Update {
        Update {
            symbol: self.symbol@,
            bids: crate::book::pair_levels(self.bids@),
            asks: crate::book::pair_levels(self.asks@),
            update_id: self.update_id,
        }
    }
}

/// The level that one JSON entry writes: an array that starts with two
/// strings, the price and the quantity.
pub open spec fn json_level(j: Json) -> Option<Level> {
    match j {
        Json::Array(pair) => if pair.len() >= 2 {
            match (pair[0], pair[1]) {
                (Json::Text(price), Json::Text(quantity)) => Some(Level { price, quantity }),
                _ => None,
            }
        } else {
            None
        },
        _ => None,
    }
}

/// The side that a JSON value writes: an array whose every entry is a level.
pub open spec fn json_levels(j: Json) -> Option<Seq<Level>> {
    match j {
        Json::Array(entries) => if forall|i: int|
            0 <= i < entries.len() ==> (#[trigger] json_level(entries[i])) is Some {
            Some(Seq::new(entries.len(), |i: int| json_level(entries[i]).unwrap()))
        } else {
            None
        },
        _ => None,
    }
}

/// The entry of an object under `key`.
pub open spec fn json_member(j: Json, key: Seq<char>) -> Option<Json> {
    match j {
        Json::Object(entries) => if entries.contains_key(key) {
            Some(entries[key])
        } else {
            None
        },
        _ => None,
    }
}

/// The side written under `key` in an object.
pub open spec fn json_side(j: Json, key: Seq<char>) -> Option<Seq<Level>> {
    match json_member(j, key) {
        Some(m) => json_levels(m),
        None => None,
    }
}

/// The update id written under `key` in an object.
pub open spec fn json_id(j: Json, key: Seq<char>) -> Option<u64> {
    match json_member(j, key) {
        Some(Json::Number(n)) => n,
        _ => None,
    }
}

/// The string written under `key` in an object.
pub open spec fn json_string(j: Json, key: Seq<char>) -> Option<Seq<char>> {
    match json_member(j, key) {
        Some(Json::Text(s)) => Some(s),
        _ => None,
    }
}

/// Decodes one entry of a side.
fn decode_level(v: &serde_json::Value) -> (r: Option<(String, String)>)
    ensures
        match r {
            Some(pair) => json_level(json_of(*v)) == Some(
                Level { price: pair.0@, quantity: pair.1@ },
            ),
            None => json_level(json_of(*v)) is None,
        },
{
    match items(v) {
        None => None,
        Some(pair) => {
            if pair.len() < 2 {
                return None;
            }
            match text(&pair[0]) {
                None => None,
                Some(price) => match text(&pair[1]) {
                    None => None,
                    Some(quantity) => Some((price.to_owned(), quantity.to_owned())),
                },
            }
        },
    }
}

/// Decodes a side: every entry must be a level, or the side is refused.
fn decode_levels(v: &serde_json::Value) -> (r: Option<Vec<(String, String)>>)
    ensures
        match r {
            Some(side) => json_levels(json_of(*v)) == Some(crate::book::pair_levels(side@)),
            None => json_levels(json_of(*v)) is None,
        },
{
    match items(v) {
        None => None,
        Some(entries) => {
            let mut side: Vec<(String, String)> = Vec::new();
            let mut i: usize = 0;
            while i < entries.len()
                invariant
                    i <= entries.len(),
                    side.len() == i,
                    json_of(*v) == Json::Array(json_of_all(entries@)),
                    forall|j: int|
                        0 <= j < i ==> (#[trigger] json_level(json_of_all(entries@)[j])) == Some(
                            Level { price: side[j].0@, quantity: side[j].1@ },
                        ),
                decreases entries.len() - i,
            {
                match decode_level(&entries[i]) {
                    None => {
                        proof {
                            assert(json_of_all(entries@)[i as int] == json_of(entries[i as int]));
                        }
                        return None;
                    },
                    Some(pair) => {
                        proof {
                            assert(json_of_all(entries@)[i as int] == json_of(entries[i as int]));
                        }
                        side.push(pair);
                    },
                }
                i = i + 1;
            }
            proof {
                let written = json_of_all(entries@);
                assert(Seq::new(written.len(), |i: int| json_level(written[i]).unwrap())
                    =~= crate::book::pair_levels(side@));
            }
            Some(side)
        },
    }
}

/// Decodes the side written under `key`.
fn decode_side(v: &serde_json::Value, key: &str) -> (r: Option<Vec<(String, String)>>)
    ensures
        match r {
            Some(side) => json_side(json_of(*v), key@) == Some(crate::book::pair_levels(side@)),
            None => json_side(json_of(*v), key@) is None,
        },
{
    match member(v, key) {
        None => None,
        Some(m) => decode_levels(m),
    }
}

/// Decodes the update id written under `key`.
fn decode_id(v: &serde_json::Value, key: &str) -> (r: Option<u64>)
    ensures
        r == json_id(json_of(*v), key@),
{
    match member(v, key) {
        None => None,
        Some(m) => unsigned(m),
    }
}

/// Decodes the string written under `key`.
fn decode_string(v: &serde_json::Value, key: &str) -> (r: Option<String>)
    ensures
        match r {
            Some(s) => json_string(json_of(*v), key@) == Some(s@),
            None => json_string(json_of(*v), key@) is None,
        },
{
    match member(v, key) {
        None => None,
        Some(m) => match text(m) {
            None => None,
            Some(s) => Some(s.to_owned()),
        },
    }
}

/// The update that an object carries for a known symbol: both sides and
/// the update id under the given keys, each present and of its type.
pub open spec fn depth_of(
    j: Json,
    symbol: Seq<char>,
    bids_key: Seq<char>,
    asks_key: Seq<char>,
    id_key: Seq<char>,
) -> Option<Update> {
    match (json_side(j, bids_key), json_side(j, asks_key), json_id(j, id_key)) {
        (Some(bids), Some(asks), Some(update_id)) => Some(Update { symbol, bids, asks, update_id }),
        _ => None,
    }
}

fn decode_depth(
    v: &serde_json::Value,
    symbol: String,
    bids_key: &str,
    asks_key: &str,
    id_key: &str,
) -> (r: Option<DepthUpdate>)
    ensures
        match r {
            Some(u) => depth_of(json_of(*v), symbol@, bids_key@, asks_key@, id_key@) == Some(u@),
            None => depth_of(json_of(*v), symbol@, bids_key@, asks_key@, id_key@) is None,
        },
{
    let bids = match decode_side(v, bids_key) {
        Some(s) => s,
        None => {
            return None;
        },
    };
    let asks = match decode_side(v, asks_key) {
        Some(s) => s,
        None => {
            return None;
        },
    };
    let update_id = match decode_id(v, id_key) {
        Some(n) => n,
        None => {
            return None;
        },
    };
    Some(DepthUpdate { symbol, bids, asks, update_id })
}

/// The update that a normalized JSON object carries: `symbol`, `bids`,
/// `asks` and `lastUpdateId`, each present and of its type. The symbol is
/// taken as written.
pub open spec fn update_of(j: Json) -> Option<Update> {
    match json_string(j, "symbol"@) {
        Some(symbol) => depth_of(j, symbol, "bids"@, "asks"@, "lastUpdateId"@),
        None => None,
    }
}

/// Decodes a normalized update object. Any missing or mistyped field drops
/// the whole update.
pub fn decode_update(v: &serde_json::Value) -> (r: Option<DepthUpdate>)
    ensures
        match r {
            Some(u) => update_of(json_of(*v)) == Some(u@),
            None => update_of(json_of(*v)) is None,
        },
{
    match decode_string(v, "symbol") {
        Some(symbol) => decode_depth(v, symbol, "bids", "asks", "lastUpdateId"),
        None => None,
    }
}

/// The upper-case form of a text, as `str::to_uppercase` gives it.
pub uninterp spec fn uppercase(text: Seq<char>) -> Seq<char>;

/// Calls `str::to_uppercase`. Trusted: the result is the named upper-case
/// form of the argument.
#[verifier::external_body]
pub(crate) fn to_upper(text: &str) -> (r: String)
    ensures
        r@ == uppercase(text@),
{
    text.to_uppercase()
}

/// The update that a stream frame carries: under `data`, the symbol `s`
/// re-cased to upper case, the sides `b` and `a`, and the update id `u`.
pub open spec fn frame_update_of(j: Json) -> Option<Update> {
    match json_member(j, "data"@) {
        Some(data) => match json_string(data, "s"@) {
            Some(symbol) => depth_of(data, uppercase(symbol), "b"@, "a"@, "u"@),
            None => None,
        },
        None => None,
    }
}

/// Decodes a parsed stream frame. A frame without the `data` envelope, or
/// with any field missing or mistyped, is dropped.
pub fn decode_frame_value(v: &serde_json::Value) -> (r: Option<DepthUpdate>)
    ensures
        match r {
            Some(u) => frame_update_of(json_of(*v)) == Some(u@),
            None => frame_update_of(json_of(*v)) is None,
        },
{
    match member(v, "data") {
        None => None,
        Some(data) => match member(data, "s") {
            None => None,
            Some(m) => match text(m) {
                None => None,
                Some(symbol) => decode_depth(data, to_upper(symbol), "b", "a", "u"),
            },
        },
    }
}

/// The update that the text of a stream frame carries.
pub open spec fn frame_update(frame: Seq<char>) -> Option<Update> {
    match json_parse(frame) {
        Some(j) => frame_update_of(j),
        None => None,
    }
}

/// Decodes the text of one stream frame. Text that is not JSON is dropped,
/// as is a frame that `decode_frame_value` drops.
pub fn decode_stream_frame(frame: &str) -> (r: Option<DepthUpdate>)
    ensures
        match r {
            Some(u) => frame_update(frame@) == Some(u@),
            None => frame_update(frame@) is None,
        },
{
    match parse_json(frame) {
        None => None,
        Some(v) => decode_frame_value(&v),
    }
}

/// The update that a depth snapshot carries for `symbol`: the symbol
/// re-cased to upper case, `bids`, `asks` and `lastUpdateId`.
pub open spec fn snapshot_update_of(symbol: Seq<char>, j: Json) -> Option<Update> {
    depth_of(j, uppercase(symbol), "bids"@, "asks"@, "lastUpdateId"@)
}

/// Decodes a parsed depth snapshot fetched for `symbol`.
pub fn decode_snapshot_value(symbol: &str, v: &serde_json::Value) -> (r: Option<DepthUpdate>)
    ensures
        match r {
            Some(u) => snapshot_update_of(symbol@, json_of(*v)) == Some(u@),
            None => snapshot_update_of(symbol@, json_of(*v)) is None,
        },
{
    decode_depth(v, to_upper(symbol), "bids", "asks", "lastUpdateId")
}

/// The update that the body of a snapshot response carries for `symbol`.
pub open spec fn snapshot_update(symbol: Seq<char>, body: Seq<char>) -> Option<Update> {
    match json_parse(body) {
        Some(j) => snapshot_update_of(symbol, j),
        None => None,
    }
}

/// Decodes the body of a snapshot response fetched for `symbol`. A body that
/// is not JSON, or lacks a field, is dropped.
pub fn decode_snapshot(symbol: &str, body: &str) -> (r: Option<DepthUpdate>)
    ensures
        match r {
            Some(u) => snapshot_update(symbol@, body@) == Some(u@),
            None => snapshot_update(symbol@, body@) is None,
        },
{
    match parse_json(body) {
        None => None,
        Some(v) => decode_snapshot_value(symbol, &v),
    }
}

/// The configured symbols as the stream names them, in lower case.
pub open spec fn stream_symbol_names() -> Seq<Seq<char>> {
    seq!["btcusdt"@, "ethusdt"@, "bnbusdt"@, "xrpusdt"@]
}

/// The configured symbols as the stream names them.
pub fn stream_symbols() -> (r: Vec<String>)
    ensures
        texts(r@) == stream_symbol_names(),
{
    let mut names: Vec<String> = Vec::new();
    names.push("btcusdt".to_owned());
    names.push("ethusdt".to_owned());
    names.push("bnbusdt".to_owned());
    names.push("xrpusdt".to_owned());
    proof {
        assert(texts(names@) =~= stream_symbol_names());
    }
    names
}

/// The depth topic of a symbol: updates every 100 milliseconds.
pub open spec fn stream_topic(symbol: Seq<char>) -> Seq<char> {
    symbol + "@depth@100ms"@
}

/// The topics of some symbols, with `/` between them.
pub open spec fn joined_topics(symbols: Seq<Seq<char>>) -> Seq<char>
    decreases symbols.len(),
{
    if symbols.len() == 0 {
        Seq::empty()
    } else if symbols.len() == 1 {
        stream_topic(symbols[0])
    } else {
        joined_topics(symbols.drop_last()) + "/"@ + stream_topic(symbols.last())
    }
}

/// The address of the one multiplexed stream that carries the depth topics
/// of all `symbols`.
pub fn stream_url(symbols: &Vec<String>) -> (r: String)
    ensures
        r@ == "wss://stream.binance.com:9443/stream?streams="@ + joined_topics(
            texts(symbols@),
        ),
{
    let ghost names = texts(symbols@);
    let ghost head = "wss://stream.binance.com:9443/stream?streams="@;
    let mut url = String::from_str("wss://stream.binance.com:9443/stream?streams=");
    let mut i: usize = 0;
    proof {
        assert(names.take(0) =~= Seq::<Seq<char>>::empty());
        assert(head + Seq::<char>::empty() =~= head);
    }
    while i < symbols.len()
        invariant
            i <= symbols.len(),
            names == texts(symbols@),
            url@ == head + joined_topics(names.take(i as int)),
        decreases symbols.len() - i,
    {
        let ghost so_far = joined_topics(names.take(i as int));
        proof {
            assert(names.take(i + 1).drop_last() =~= names.take(i as int));
            assert(names.take(i + 1).last() == symbols[i as int]@);
            if i == 0 {
                assert(names.take(1)[0] == symbols[0]@);
                assert(so_far =~= Seq::<char>::empty());
            }
        }
        if i > 0 {
            url.append("/");
        }
        url.append(symbols[i].as_str());
        url.append("@depth@100ms");
        proof {
            let topic = stream_topic(symbols[i as int]@);
            if i == 0 {
                assert(url@ =~= head + topic);
            } else {
                assert(url@ =~= head + (so_far + "/"@ + topic));
            }
        }
        i = i + 1;
    }
    proof {
        assert(names.take(i as int) =~= names);
    }
    url
}

/// The address of the depth snapshot of a symbol, twenty levels deep.
pub fn snapshot_url(symbol: &str) -> (r: String)
    ensures
        r@ == "https://api.binance.com/api/v3/depth?symbol="@ + uppercase(symbol@) + "&limit=20"@,
{
    let mut url = String::from_str("https://api.binance.com/api/v3/depth?symbol=");
    let upper = to_upper(symbol);
    url.append(upper.as_str());
    url.append("&limit=20");
    url
}

} // verus!
