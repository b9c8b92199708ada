//! Books, best offers and trades as Hyperliquid delivers them.
use serde_json::Value;
use vstd::prelude::*;
use vstd::utf8::encode_utf8;

use crate::domain::{MarketCoin, Price, Quantity, Symbol, Venue};
use crate::market_data::event::{
    AggressorSide, AggressorSideClassification, BboView, BestBidOffer, EventTimestamps,
    ExchangeTimeKind, ExchangeTimeObservation, ExchangeTimeUnit, IdentityView, MarketTrade,
    MarketTradeIdentity, MarketTradeKind, MarketTradeReportingKind, TimestampsView, TradeView,
};
use crate::market_data::order_book::{lemma_order_count, OrderCount, SnapshotView};
use crate::market_data::{BookLevel, LocalObservationTime, OrderBookSnapshot};
use crate::text::{decimal, decimal_text, same_text};
use crate::venue::feed::decoded_book;
use crate::venue::levels::{
    level_error, level_error_text, too_many_levels, too_many_levels_text, BookSide,
};
use crate::venue::streams::{
    event_times, event_timestamps, snapshot_reading, trade_part_error, trade_part_error_text,
};
use crate::venue::wire::{
    all_of, contents_of, decode_list, decode_text, decode_u32, field, json_contents, json_field,
    json_get, json_is_null, json_is_object, json_list, json_reading, json_shaped, lemma_all_of_step,
    lemma_read_all_step, list_rejection, member, missing_field, missing_field_text, parse_json,
    price_reading, quantity_reading, re_end, re_ended, read_all, read_price, read_quantity,
    read_text_at, read_text_field, read_u32_field, read_u64_at, read_u64_field, shaped, text_at,
    text_field, text_rejection, u32_field, u32_rejection, u64_at, u64_field, unsigned_value,
    wrong_length, wrong_length_text, JsonView,
};

verus! {

/// The most levels that one side of a book has.
pub const MAX_LEVELS_PER_SIDE: usize = 20;

/// A level: price, size and number of orders.
#[derive(Debug)]
pub struct WireLevel {
    pub px: String,
    pub sz: String,
    pub n: u32,
}

/// The model of `WireLevel`.
pub struct WireLevelView {
    pub px: Seq<char>,
    pub sz: Seq<char>,
    pub n: u32,
}

impl View for WireLevel {
    type V = WireLevelView;

    open spec fn view(&self) -> WireLevelView {
        WireLevelView { px: self.px@, sz: self.sz@, n: self.n }
    }
}

/// The models of levels.
pub open spec fn level_views(levels: Seq<WireLevel>) -> Seq<WireLevelView> {
    levels.map_values(|level: WireLevel| level@)
}

/// A book.
#[derive(Debug)]
pub struct WireBook {
    pub coin: String,
    pub bids: Vec<WireLevel>,
    pub asks: Vec<WireLevel>,
    pub time: u64,
}

/// The model of `WireBook`.
pub struct WireBookView {
    pub coin: Seq<char>,
    pub bids: Seq<WireLevelView>,
    pub asks: Seq<WireLevelView>,
    pub time: u64,
}

impl View for WireBook {
    type V = WireBookView;

    open spec fn view(&self) -> WireBookView {
        WireBookView {
            coin: self.coin@,
            bids: level_views(self.bids@),
            asks: level_views(self.asks@),
            time: self.time,
        }
    }
}

/// A best bid and offer, either of which may be absent.
#[derive(Debug)]
pub struct WireBbo {
    pub coin: String,
    pub bid: Option<WireLevel>,
    pub ask: Option<WireLevel>,
    pub time: u64,
}

/// The model of `WireBbo`.
pub struct WireBboView {
    pub coin: Seq<char>,
    pub bid: Option<WireLevelView>,
    pub ask: Option<WireLevelView>,
    pub time: u64,
}

/// The model of an optional level.
pub open spec fn optional_level(level: Option<WireLevel>) -> Option<WireLevelView> {
    match level {
        Some(level) => Some(level@),
        None => None,
    }
}

impl View for WireBbo {
    type V = WireBboView;

    open spec fn view(&self) -> WireBboView {
        WireBboView {
            coin: self.coin@,
            bid: optional_level(self.bid),
            ask: optional_level(self.ask),
            time: self.time,
        }
    }
}

/// A trade.
#[derive(Debug)]
pub struct WireTrade {
    pub coin: String,
    pub side: String,
    pub px: String,
    pub sz: String,
    pub hash: String,
    pub time: u64,
    pub tid: u64,
}

/// The model of `WireTrade`.
pub struct WireTradeView {
    pub coin: Seq<char>,
    pub side: Seq<char>,
    pub px: Seq<char>,
    pub sz: Seq<char>,
    pub hash: Seq<char>,
    pub time: u64,
    pub tid: u64,
}

impl View for WireTrade {
    type V = WireTradeView;

    open spec fn view(&self) -> WireTradeView {
        WireTradeView {
            coin: self.coin@,
            side: self.side@,
            px: self.px@,
            sz: self.sz@,
            hash: self.hash@,
            time: self.time,
            tid: self.tid,
        }
    }
}

/// The level that a value stands for: an object, or a list with the parts in their places.
/// What is there but unfit is named first, then what is missing.
pub open spec fn level_value(value: JsonView) -> Result<WireLevelView, Seq<char>> {
    match value {
        JsonView::Object(_) => if u32_field(value, "n"@) is Err {
            Err(u32_field(value, "n"@)->Err_0)
        } else if text_field(value, "px"@) is Err {
            Err(text_field(value, "px"@)->Err_0)
        } else if text_field(value, "sz"@) is Err {
            Err(text_field(value, "sz"@)->Err_0)
        } else if text_field(value, "px"@)->Ok_0 is None {
            Err(missing_field("px"@))
        } else if text_field(value, "sz"@)->Ok_0 is None {
            Err(missing_field("sz"@))
        } else if u32_field(value, "n"@)->Ok_0 is None {
            Err(missing_field("n"@))
        } else {
            Ok(
                WireLevelView {
                    px: text_field(value, "px"@)->Ok_0->Some_0,
                    sz: text_field(value, "sz"@)->Ok_0->Some_0,
                    n: u32_field(value, "n"@)->Ok_0->Some_0,
                },
            )
        },
        JsonView::List(parts) => if parts.len() == 0 {
            Err(wrong_length(0, "struct WireLevel with 3 elements"@))
        } else if !(parts[0] is Text) {
            Err(text_rejection(parts[0]))
        } else if parts.len() == 1 {
            Err(wrong_length(1, "struct WireLevel with 3 elements"@))
        } else if !(parts[1] is Text) {
            Err(text_rejection(parts[1]))
        } else if parts.len() == 2 {
            Err(wrong_length(2, "struct WireLevel with 3 elements"@))
        } else if unsigned_value(parts[2]) is None || unsigned_value(parts[2])->Some_0 > u32::MAX {
            Err(u32_rejection(parts[2]))
        } else if parts.len() > 3 {
            Err(wrong_length(parts.len(), "fewer elements in array"@))
        } else {
            Ok(
                WireLevelView {
                    px: parts[0]->Text_0,
                    sz: parts[1]->Text_0,
                    n: unsigned_value(parts[2])->Some_0 as u32,
                },
            )
        },
        _ => Err(re_ended(list_rejection(value), "a sequence"@, "struct WireLevel"@)),
    }
}

/// Reads the levels of a side.
pub open spec fn level_value_reader() -> spec_fn(int, JsonView) -> Result<
    WireLevelView,
    Seq<char>,
> {
    |place: int, item: JsonView| level_value(item)
}

/// The levels that a value stands for.
pub open spec fn side_value(value: JsonView) -> Result<Seq<WireLevelView>, Seq<char>> {
    match value {
        JsonView::List(items) => read_all(items, level_value_reader()),
        _ => Err(list_rejection(value)),
    }
}

/// The two sides that a value stands for.
pub open spec fn sides_value(value: JsonView) -> Result<
    (Seq<WireLevelView>, Seq<WireLevelView>),
    Seq<char>,
> {
    match value {
        JsonView::List(sides) => if sides.len() == 0 {
            Err(wrong_length(0, "an array of length 2"@))
        } else if side_value(sides[0]) is Err {
            Err(side_value(sides[0])->Err_0)
        } else if sides.len() == 1 {
            Err(wrong_length(1, "an array of length 2"@))
        } else if side_value(sides[1]) is Err {
            Err(side_value(sides[1])->Err_0)
        } else if sides.len() > 2 {
            Err(wrong_length(sides.len(), "fewer elements in array"@))
        } else {
            Ok((side_value(sides[0])->Ok_0, side_value(sides[1])->Ok_0))
        },
        _ => Err(re_ended(list_rejection(value), "a sequence"@, "an array of length 2"@)),
    }
}

/// The two sides of an object under a key, if there is anything; or why what is there are
/// no sides.
pub open spec fn sides_field(value: JsonView, key: Seq<char>) -> Result<
    Option<(Seq<WireLevelView>, Seq<WireLevelView>)>,
    Seq<char>,
> {
    match member(value, key) {
        None => Ok(None),
        Some(inner) => match sides_value(inner) {
            Ok(sides) => Ok(Some(sides)),
            Err(error) => Err(error),
        },
    }
}

/// The book that an object stands for, or what is said of the object. What is there but
/// unfit is named first, then what is missing.
pub open spec fn book_fields(value: JsonView) -> Result<WireBookView, Seq<char>> {
    if text_field(value, "coin"@) is Err {
        Err(text_field(value, "coin"@)->Err_0)
    } else if sides_field(value, "levels"@) is Err {
        Err(sides_field(value, "levels"@)->Err_0)
    } else if u64_field(value, "time"@) is Err {
        Err(u64_field(value, "time"@)->Err_0)
    } else if text_field(value, "coin"@)->Ok_0 is None {
        Err(missing_field("coin"@))
    } else if sides_field(value, "levels"@)->Ok_0 is None {
        Err(missing_field("levels"@))
    } else if u64_field(value, "time"@)->Ok_0 is None {
        Err(missing_field("time"@))
    } else {
        Ok(
            WireBookView {
                coin: text_field(value, "coin"@)->Ok_0->Some_0,
                bids: sides_field(value, "levels"@)->Ok_0->Some_0.0,
                asks: sides_field(value, "levels"@)->Ok_0->Some_0.1,
                time: u64_field(value, "time"@)->Ok_0->Some_0,
            },
        )
    }
}

/// One side of a best bid and offer: nothing, or a level.
pub open spec fn offer_value(value: JsonView) -> Option<Option<WireLevelView>> {
    match value {
        JsonView::Null => Some(None),
        _ => match level_value(value) {
            Ok(level) => Some(Some(level)),
            Err(_) => None,
        },
    }
}

/// The best bid and offer that a value stands for.
pub open spec fn bbo_value(value: JsonView) -> Option<WireBboView> {
    if !shaped(value, 3, 3) {
        None
    } else {
        match (text_at(value, "coin"@, 0), field(value, "bbo"@, 1), u64_at(value, "time"@, 2)) {
            (Some(coin), Some(JsonView::List(offers)), Some(time)) => if offers.len() != 2 {
                None
            } else {
                match (offer_value(offers[0]), offer_value(offers[1])) {
                    (Some(bid), Some(ask)) => Some(WireBboView { coin, bid, ask, time }),
                    _ => None,
                }
            },
            _ => None,
        }
    }
}

/// The trade that a value stands for: an object, or a list with the parts in their places.
pub open spec fn trade_value(value: JsonView) -> Option<WireTradeView> {
    if shaped(value, 7, 7) && text_at(value, "coin"@, 0) is Some && text_at(value, "side"@, 1)
        is Some && text_at(value, "px"@, 2) is Some && text_at(value, "sz"@, 3) is Some && text_at(
        value,
        "hash"@,
        4,
    ) is Some && u64_at(value, "time"@, 5) is Some && u64_at(value, "tid"@, 6) is Some {
        Some(
            WireTradeView {
                coin: text_at(value, "coin"@, 0)->Some_0,
                side: text_at(value, "side"@, 1)->Some_0,
                px: text_at(value, "px"@, 2)->Some_0,
                sz: text_at(value, "sz"@, 3)->Some_0,
                hash: text_at(value, "hash"@, 4)->Some_0,
                time: u64_at(value, "time"@, 5)->Some_0,
                tid: u64_at(value, "tid"@, 6)->Some_0,
            },
        )
    } else {
        None
    }
}

/// Reads trades.
pub open spec fn trade_value_reader() -> spec_fn(JsonView) -> Option<WireTradeView> {
    |item: JsonView| trade_value(item)
}

/// The trades that a value stands for.
pub open spec fn trades_value(value: JsonView) -> Option<Seq<WireTradeView>> {
    match value {
        JsonView::List(items) => all_of(items, trade_value_reader()),
        _ => None,
    }
}

/// The model of a level that may be rejected.
pub open spec fn level_result(result: Result<WireLevel, String>) -> Result<
    WireLevelView,
    Seq<char>,
> {
    match result {
        Ok(level) => Ok(level@),
        Err(error) => Err(error@),
    }
}

fn read_level(value: &Value) -> (result: Result<WireLevel, String>)
    ensures
        level_result(result) == level_value(json_contents(*value)),
{
    if json_is_object(value) {
        let n = match read_u32_field(value, "n") {
            Ok(found) => found,
            Err(error) => return Err(error),
        };
        let px = match read_text_field(value, "px") {
            Ok(found) => found,
            Err(error) => return Err(error),
        };
        let sz = match read_text_field(value, "sz") {
            Ok(found) => found,
            Err(error) => return Err(error),
        };
        let px = match px {
            Some(found) => found,
            None => return Err(missing_field_text("px")),
        };
        let sz = match sz {
            Some(found) => found,
            None => return Err(missing_field_text("sz")),
        };
        let n: u32 = match n {
            Some(found) => found,
            None => return Err(missing_field_text("n")),
        };
        return Ok(WireLevel { px, sz, n });
    }
    let parts: Vec<Value> = match decode_list(value) {
        Ok(parts) => parts,
        Err(error) => return Err(re_end(error.as_str(), "a sequence", "struct WireLevel")),
    };
    if parts.len() == 0 {
        return Err(wrong_length_text(0, "struct WireLevel with 3 elements"));
    }
    assert(contents_of(parts@)[0] == json_contents(parts@[0]));
    let px: String = match decode_text(&parts[0]) {
        Ok(text) => text,
        Err(error) => return Err(error),
    };
    if parts.len() == 1 {
        return Err(wrong_length_text(1, "struct WireLevel with 3 elements"));
    }
    assert(contents_of(parts@)[1] == json_contents(parts@[1]));
    let sz: String = match decode_text(&parts[1]) {
        Ok(text) => text,
        Err(error) => return Err(error),
    };
    if parts.len() == 2 {
        return Err(wrong_length_text(2, "struct WireLevel with 3 elements"));
    }
    assert(contents_of(parts@)[2] == json_contents(parts@[2]));
    let n: u32 = match decode_u32(&parts[2]) {
        Ok(number) => number,
        Err(error) => return Err(error),
    };
    if parts.len() > 3 {
        return Err(wrong_length_text(parts.len(), "fewer elements in array"));
    }
    Ok(WireLevel { px, sz, n })
}

fn read_side(value: &Value) -> (result: Result<Vec<WireLevel>, String>)
    ensures
        side_value(json_contents(*value)) == (match result {
            Ok(levels) => Ok::<Seq<WireLevelView>, Seq<char>>(level_views(levels@)),
            Err(error) => Err(error@),
        }),
{
    let items: Vec<Value> = match decode_list(value) {
        Ok(items) => items,
        Err(error) => return Err(error),
    };
    let ghost contents = contents_of(items@);
    let mut levels: Vec<WireLevel> = Vec::new();
    let mut i: usize = 0;
    assert(contents.take(0) =~= Seq::<JsonView>::empty());
    assert(level_views(levels@) =~= Seq::<WireLevelView>::empty());
    while i < items.len()
        invariant
            i <= items.len(),
            contents == contents_of(items@),
            json_contents(*value) == JsonView::List(contents),
            read_all(contents.take(i as int), level_value_reader()) == Ok::<
                Seq<WireLevelView>,
                Seq<char>,
            >(level_views(levels@)),
        decreases items.len() - i,
    {
        proof {
            assert(contents[i as int] == json_contents(items@[i as int]));
            lemma_read_all_step(contents, i as int, level_value_reader());
        }
        let ghost before = levels@;
        match read_level(&items[i]) {
            Ok(level) => {
                levels.push(level);
                assert(level_views(levels@) =~= level_views(before).push(level@));
            },
            Err(error) => {
                return Err(error);
            },
        }
        i = i + 1;
    }
    assert(contents.take(i as int) =~= contents);
    Ok(levels)
}

fn read_sides(value: &Value) -> (result: Result<(Vec<WireLevel>, Vec<WireLevel>), String>)
    ensures
        sides_value(json_contents(*value)) == (match result {
            Ok(sides) => Ok::<(Seq<WireLevelView>, Seq<WireLevelView>), Seq<char>>(
                (level_views(sides.0@), level_views(sides.1@)),
            ),
            Err(error) => Err(error@),
        }),
{
    let sides: Vec<Value> = match decode_list(value) {
        Ok(sides) => sides,
        Err(error) => return Err(re_end(error.as_str(), "a sequence", "an array of length 2")),
    };
    if sides.len() == 0 {
        return Err(wrong_length_text(0, "an array of length 2"));
    }
    assert(contents_of(sides@)[0] == json_contents(sides@[0]));
    let bids: Vec<WireLevel> = match read_side(&sides[0]) {
        Ok(levels) => levels,
        Err(error) => return Err(error),
    };
    if sides.len() == 1 {
        return Err(wrong_length_text(1, "an array of length 2"));
    }
    assert(contents_of(sides@)[1] == json_contents(sides@[1]));
    let asks: Vec<WireLevel> = match read_side(&sides[1]) {
        Ok(levels) => levels,
        Err(error) => return Err(error),
    };
    if sides.len() > 2 {
        return Err(wrong_length_text(sides.len(), "fewer elements in array"));
    }
    Ok((bids, asks))
}

pub(crate) fn read_book(value: &Value) -> (result: Result<WireBook, String>)
    ensures
        book_fields(json_contents(*value)) == (match result {
            Ok(book) => Ok::<WireBookView, Seq<char>>(book@),
            Err(error) => Err(error@),
        }),
{
    let coin = match read_text_field(value, "coin") {
        Ok(found) => found,
        Err(error) => return Err(error),
    };
    let sides = match json_get(value, "levels") {
        None => None,
        Some(inner) => match read_sides(inner) {
            Ok(sides) => Some(sides),
            Err(error) => return Err(error),
        },
    };
    let time = match read_u64_field(value, "time") {
        Ok(found) => found,
        Err(error) => return Err(error),
    };
    let coin = match coin {
        Some(found) => found,
        None => return Err(missing_field_text("coin")),
    };
    let (bids, asks) = match sides {
        Some(found) => found,
        None => return Err(missing_field_text("levels")),
    };
    let time: u64 = match time {
        Some(found) => found,
        None => return Err(missing_field_text("time")),
    };
    Ok(WireBook { coin, bids, asks, time })
}

fn read_offer(value: &Value) -> (offer: Option<Option<WireLevel>>)
    ensures
        offer_value(json_contents(*value)) == (match offer {
            Some(level) => Some(optional_level(level)),
            None => None,
        }),
{
    if json_is_null(value) {
        return Some(None);
    }
    match read_level(value) {
        Ok(level) => Some(Some(level)),
        Err(_) => None,
    }
}

pub(crate) fn read_bbo(value: &Value) -> (bbo: Option<WireBbo>)
    ensures
        bbo_value(json_contents(*value)) == (match bbo {
            Some(bbo) => Some(bbo@),
            None => None,
        }),
{
    if !json_shaped(value, 3, 3) {
        return None;
    }
    let coin: String = match read_text_at(value, "coin", 0) {
        Some(coin) => coin,
        None => return None,
    };
    let offers: &Vec<Value> = match json_field(value, "bbo", 1) {
        Some(inner) => match json_list(inner) {
            Some(offers) => offers,
            None => return None,
        },
        None => return None,
    };
    let time: u64 = match read_u64_at(value, "time", 2) {
        Some(time) => time,
        None => return None,
    };
    if offers.len() != 2 {
        return None;
    }
    assert(contents_of(offers@)[0] == json_contents(offers@[0]));
    assert(contents_of(offers@)[1] == json_contents(offers@[1]));
    let bid = match read_offer(&offers[0]) {
        Some(bid) => bid,
        None => return None,
    };
    let ask = match read_offer(&offers[1]) {
        Some(ask) => ask,
        None => return None,
    };
    Some(WireBbo { coin, bid, ask, time })
}

/// The model of an optional trade.
pub open spec fn optional_trade(trade: Option<WireTrade>) -> Option<WireTradeView> {
    match trade {
        Some(trade) => Some(trade@),
        None => None,
    }
}

fn read_trade(value: &Value) -> (trade: Option<WireTrade>)
    ensures
        optional_trade(trade) == trade_value(json_contents(*value)),
{
    if !json_shaped(value, 7, 7) {
        return None;
    }
    match (
        read_text_at(value, "coin", 0),
        read_text_at(value, "side", 1),
        read_text_at(value, "px", 2),
        read_text_at(value, "sz", 3),
        read_text_at(value, "hash", 4),
        read_u64_at(value, "time", 5),
        read_u64_at(value, "tid", 6),
    ) {
        (
            Some(coin),
            Some(side),
            Some(px),
            Some(sz),
            Some(hash),
            Some(time),
            Some(tid),
        ) => Some(WireTrade { coin, side, px, sz, hash, time, tid }),
        _ => None,
    }
}

/// The models of trades.
pub open spec fn trade_views(trades: Seq<WireTrade>) -> Seq<WireTradeView> {
    trades.map_values(|trade: WireTrade| trade@)
}

pub(crate) fn read_trades(value: &Value) -> (trades: Option<Vec<WireTrade>>)
    ensures
        trades_value(json_contents(*value)) == (match trades {
            Some(trades) => Some(trade_views(trades@)),
            None => None,
        }),
{
    let items: &Vec<Value> = match json_list(value) {
        Some(items) => items,
        None => return None,
    };
    let ghost contents = contents_of(items@);
    let mut trades: Vec<WireTrade> = Vec::new();
    let mut i: usize = 0;
    assert(contents.take(0) =~= Seq::<JsonView>::empty());
    assert(trade_views(trades@) =~= Seq::<WireTradeView>::empty());
    while i < items.len()
        invariant
            i <= items.len(),
            contents == contents_of(items@),
            json_contents(*value) == JsonView::List(contents),
            all_of(contents.take(i as int), trade_value_reader()) == Some(trade_views(trades@)),
        decreases items.len() - i,
    {
        proof {
            assert(contents[i as int] == json_contents(items@[i as int]));
            lemma_all_of_step(contents, i as int, trade_value_reader());
        }
        let ghost before = trades@;
        match read_trade(&items[i]) {
            Some(trade) => {
                trades.push(trade);
                assert(trade_views(trades@) =~= trade_views(before).push(trade@));
            },
            None => {
                return None;
            },
        }
        i = i + 1;
    }
    assert(contents.take(i as int) =~= contents);
    Some(trades)
}

/// The trade that a text stands for.
pub open spec fn trade_text(text: Seq<char>) -> Option<WireTradeView> {
    match json_reading(encode_utf8(text)) {
        Ok(value) => trade_value(value),
        Err(_) => None,
    }
}

impl WireTrade {
    /// Reads one trade.
    pub fn parse(text: &str) -> (trade: Option<WireTrade>)
        ensures
            optional_trade(trade) == trade_text(text@),
    {
        match parse_json(text.as_bytes()) {
            Ok(value) => read_trade(&value),
            Err(_) => None,
        }
    }

    pub fn coin(&self) -> (coin: &str)
        ensures
            coin@ == self@.coin,
    {
        self.coin.as_str()
    }
}

/// The count with a given number.
pub open spec fn count_of(number: u32) -> OrderCount {
    choose|count: OrderCount| #[trigger] count.count() == number
}

/// What is said of a level without orders.
pub open spec fn zero_count(side: BookSide, level: nat) -> Seq<char> {
    "zero "@ + side.label() + " order count at level "@ + decimal(level)
}

fn zero_count_text(side: BookSide, level: usize) -> (text: String)
    ensures
        text@ == zero_count(side, level as nat),
{
    let mut text: String = "zero ".to_owned();
    text.append(side.to_text());
    text.append(" order count at level ");
    text.append(decimal_text(level as u128).as_str());
    text
}

/// The level that a delivered level stands for.
pub open spec fn level_reading(side: BookSide, level: nat, wire: WireLevelView) -> Result<
    BookLevel,
    Seq<char>,
> {
    match price_reading(wire.px) {
        Err(error) => Err(level_error("price"@, side, level, error)),
        Ok(price) => match quantity_reading(wire.sz) {
            Err(error) => Err(level_error("quantity"@, side, level, error)),
            Ok(quantity) => if wire.n == 0 {
                Err(zero_count(side, level))
            } else {
                Ok(BookLevel { price, quantity, order_count: Some(count_of(wire.n)) })
            },
        },
    }
}

/// The model of a decoded level.
pub open spec fn decoded_level(result: Result<BookLevel, String>) -> Result<BookLevel, Seq<char>> {
    match result {
        Ok(level) => Ok(level),
        Err(error) => Err(error@),
    }
}

/// The level that a delivered level stands for.
pub fn decode_level(wire: &WireLevel, side: BookSide, level: usize) -> (result: Result<
    BookLevel,
    String,
>)
    ensures
        decoded_level(result) == level_reading(side, level as nat, wire@),
{
    let price: Price = match read_price(wire.px.as_str()) {
        Ok(price) => price,
        Err(error) => return Err(level_error_text("price", side, level, error)),
    };
    let quantity: Quantity = match read_quantity(wire.sz.as_str()) {
        Ok(quantity) => quantity,
        Err(error) => return Err(level_error_text("quantity", side, level, error)),
    };
    match OrderCount::new(wire.n) {
        None => Err(zero_count_text(side, level)),
        Some(count) => {
            proof {
                lemma_order_count(count, count_of(wire.n));
            }
            Ok(BookLevel::new(price, quantity, Some(count)))
        },
    }
}

/// Reads the levels of a side.
pub open spec fn level_reader(side: BookSide) -> spec_fn(int, WireLevelView) -> Result<
    BookLevel,
    Seq<char>,
> {
    |level: int, wire: WireLevelView| level_reading(side, level as nat, wire)
}

/// The levels of a side.
pub open spec fn side_reading(side: BookSide, levels: Seq<WireLevelView>) -> Result<
    Seq<BookLevel>,
    Seq<char>,
> {
    if levels.len() > MAX_LEVELS_PER_SIDE {
        Err(too_many_levels(side, levels.len(), MAX_LEVELS_PER_SIDE as nat))
    } else {
        read_all(levels, level_reader(side))
    }
}

fn decode_levels(wire_levels: &Vec<WireLevel>, side: BookSide) -> (result: Result<
    Vec<BookLevel>,
    String,
>)
    ensures
        side_reading(side, level_views(wire_levels@)) == (match result {
            Ok(levels) => Ok::<Seq<BookLevel>, Seq<char>>(levels@),
            Err(error) => Err(error@),
        }),
{
    if wire_levels.len() > MAX_LEVELS_PER_SIDE {
        return Err(too_many_levels_text(side, wire_levels.len(), MAX_LEVELS_PER_SIDE));
    }
    let ghost views = level_views(wire_levels@);
    let mut levels: Vec<BookLevel> = Vec::new();
    let mut i: usize = 0;
    assert(views.take(0) =~= Seq::<WireLevelView>::empty());
    while i < wire_levels.len()
        invariant
            i <= wire_levels.len(),
            wire_levels.len() <= MAX_LEVELS_PER_SIDE,
            views == level_views(wire_levels@),
            read_all(views.take(i as int), level_reader(side)) == Ok::<
                Seq<BookLevel>,
                Seq<char>,
            >(levels@),
        decreases wire_levels.len() - i,
    {
        proof {
            assert(views[i as int] == wire_levels@[i as int]@);
            lemma_read_all_step(views, i as int, level_reader(side));
        }
        match decode_level(&wire_levels[i], side, i) {
            Ok(level) => {
                levels.push(level);
            },
            Err(error) => {
                return Err(error);
            },
        }
        i = i + 1;
    }
    assert(views.take(i as int) =~= views);
    Ok(levels)
}

/// What is said of a message about another coin.
pub open spec fn unexpected_coin(
    expected: Seq<char>,
    kind: Seq<char>,
    actual: Seq<char>,
) -> Seq<char> {
    "expected "@ + expected + " "@ + kind + ", received "@ + actual
}

fn unexpected_coin_text(expected: &str, kind: &str, actual: &str) -> (text: String)
    ensures
        text@ == unexpected_coin(expected@, kind@, actual@),
{
    let mut text: String = "expected ".to_owned();
    text.append(expected);
    text.append(" ");
    text.append(kind);
    text.append(", received ");
    text.append(actual);
    text
}

/// The book that a delivered book stands for, or why it stands for none.
pub open spec fn book_reading(
    coin: Seq<char>,
    wire: WireBookView,
    local_receive: LocalObservationTime,
) -> Result<SnapshotView, Seq<char>> {
    if wire.coin != coin {
        Err(unexpected_coin(coin, "book"@, wire.coin))
    } else {
        match side_reading(BookSide::Bid, wire.bids) {
            Err(error) => Err(error),
            Ok(bids) => match side_reading(BookSide::Ask, wire.asks) {
                Err(error) => Err(error),
                Ok(asks) => snapshot_reading(
                    Venue::Hyperliquid,
                    coin,
                    None,
                    event_times(wire.time, ExchangeTimeUnit::Unknown, local_receive),
                    bids,
                    asks,
                ),
            },
        }
    }
}

/// The book that a delivered book stands for.
pub fn decode_snapshot(
    wire: &WireBook,
    expected_coin: &MarketCoin,
    local_receive: LocalObservationTime,
) -> (result: Result<OrderBookSnapshot, String>)
    ensures
        decoded_book(result) == book_reading(expected_coin@, wire@, local_receive),
        result matches Ok(snapshot) ==> snapshot@.venue == Venue::Hyperliquid && snapshot@.coin
            == expected_coin@,
{
    if !same_text(wire.coin.as_str(), expected_coin.as_str()) {
        return Err(unexpected_coin_text(expected_coin.as_str(), "book", wire.coin.as_str()));
    }
    let bids: Vec<BookLevel> = match decode_levels(&wire.bids, BookSide::Bid) {
        Ok(levels) => levels,
        Err(error) => return Err(error),
    };
    let asks: Vec<BookLevel> = match decode_levels(&wire.asks, BookSide::Ask) {
        Ok(levels) => levels,
        Err(error) => return Err(error),
    };
    match OrderBookSnapshot::try_new(
        Venue::Hyperliquid,
        Symbol::perpetual(expected_coin.clone()),
        None,
        event_timestamps(wire.time, ExchangeTimeUnit::Unknown, local_receive),
        bids,
        asks,
    ) {
        Ok(snapshot) => Ok(snapshot),
        Err(error) => Err(error.to_text()),
    }
}

/// The book that an object stands for, or why it stands for none.
pub open spec fn book_payload(
    coin: Seq<char>,
    payload: JsonView,
    local_receive: LocalObservationTime,
) -> Result<SnapshotView, Seq<char>> {
    match book_fields(payload) {
        Err(error) => Err("invalid l2Book payload: "@ + error),
        Ok(wire) => book_reading(coin, wire, local_receive),
    }
}

pub(crate) fn read_book_payload(
    market_coin: &MarketCoin,
    payload: &Value,
    local_receive: LocalObservationTime,
) -> (result: Result<OrderBookSnapshot, String>)
    ensures
        decoded_book(result) == book_payload(
            market_coin@,
            json_contents(*payload),
            local_receive,
        ),
        result matches Ok(snapshot) ==> snapshot@.venue == Venue::Hyperliquid && snapshot@.coin
            == market_coin@,
{
    match read_book(payload) {
        Err(error) => {
            let mut text: String = "invalid l2Book payload: ".to_owned();
            text.append(error.as_str());
            Err(text)
        },
        Ok(wire) => decode_snapshot(&wire, market_coin, local_receive),
    }
}

/// One side of a best bid and offer.
pub open spec fn offer_reading(side: BookSide, wire: Option<WireLevelView>) -> Result<
    Option<BookLevel>,
    Seq<char>,
> {
    match wire {
        None => Ok(None),
        Some(wire) => match level_reading(side, 0, wire) {
            Ok(level) => Ok(Some(level)),
            Err(error) => Err(error),
        },
    }
}

/// The best bid and offer that a delivered one stands for, complete at the given time, or
/// why it stands for none. A side that is absent stays absent.
pub open spec fn bbo_reading(
    coin: Seq<char>,
    wire: WireBboView,
    local_receive: LocalObservationTime,
    completed: LocalObservationTime,
) -> Result<BboView, Seq<char>> {
    if wire.coin != coin {
        Err(unexpected_coin(coin, "book"@, wire.coin))
    } else {
        match offer_reading(BookSide::Bid, wire.bid) {
            Err(error) => Err(error),
            Ok(bid) => match offer_reading(BookSide::Ask, wire.ask) {
                Err(error) => Err(error),
                Ok(ask) => Ok(
                    BboView {
                        venue: Venue::Hyperliquid,
                        coin,
                        timestamps: TimestampsView {
                            processing_completed: completed,
                            ..event_times(wire.time, ExchangeTimeUnit::Unknown, local_receive)
                        },
                        bid,
                        ask,
                    },
                ),
            },
        }
    }
}

fn decode_offer(wire: &Option<WireLevel>, side: BookSide) -> (result: Result<
    Option<BookLevel>,
    String,
>)
    ensures
        offer_reading(side, optional_level(*wire)) == (match result {
            Ok(level) => Ok::<Option<BookLevel>, Seq<char>>(level),
            Err(error) => Err(error@),
        }),
{
    match wire {
        None => Ok(None),
        Some(wire) => match decode_level(wire, side, 0) {
            Ok(level) => Ok(Some(level)),
            Err(error) => Err(error),
        },
    }
}

/// The best bid and offer that a delivered one stands for, complete when it was received.
pub fn decode_bbo(
    wire: &WireBbo,
    expected_coin: &MarketCoin,
    local_receive: LocalObservationTime,
) -> (result: Result<BestBidOffer, String>)
    ensures
        bbo_reading(expected_coin@, wire@, local_receive, local_receive) == (match result {
            Ok(bbo) => Ok::<BboView, Seq<char>>(bbo@),
            Err(error) => Err(error@),
        }),
{
    if !same_text(wire.coin.as_str(), expected_coin.as_str()) {
        return Err(unexpected_coin_text(expected_coin.as_str(), "book", wire.coin.as_str()));
    }
    let bid: Option<BookLevel> = match decode_offer(&wire.bid, BookSide::Bid) {
        Ok(bid) => bid,
        Err(error) => return Err(error),
    };
    let ask: Option<BookLevel> = match decode_offer(&wire.ask, BookSide::Ask) {
        Ok(ask) => ask,
        Err(error) => return Err(error),
    };
    Ok(
        BestBidOffer::new(
            Venue::Hyperliquid,
            Symbol::perpetual(expected_coin.clone()),
            event_timestamps(wire.time, ExchangeTimeUnit::Unknown, local_receive),
            bid,
            ask,
        ),
    )
}

/// The aggressor of a trade, and how it is known. A side that the venue does not define
/// stays unknown.
pub open spec fn aggressor(side: Seq<char>) -> (AggressorSide, AggressorSideClassification) {
    if side == "B"@ {
        (AggressorSide::Buy, AggressorSideClassification::VenueProvided)
    } else if side == "A"@ {
        (AggressorSide::Sell, AggressorSideClassification::VenueProvided)
    } else {
        (AggressorSide::Unknown, AggressorSideClassification::Unknown)
    }
}

/// The trade that a delivered trade stands for, or why it stands for none.
pub open spec fn trade_reading(
    coin: Seq<char>,
    wire: WireTradeView,
    local_receive: LocalObservationTime,
    processing_completed: LocalObservationTime,
) -> Result<TradeView, Seq<char>> {
    if wire.coin != coin {
        Err(unexpected_coin(coin, "trade"@, wire.coin))
    } else {
        match price_reading(wire.px) {
            Err(error) => Err(trade_part_error(Venue::Hyperliquid, "price"@, error)),
            Ok(price) => match quantity_reading(wire.sz) {
                Err(error) => Err(trade_part_error(Venue::Hyperliquid, "quantity"@, error)),
                Ok(quantity) => Ok(
                    TradeView {
                        venue: Venue::Hyperliquid,
                        coin,
                        timestamps: TimestampsView {
                            exchange_times: seq![
                                ExchangeTimeObservation {
                                    kind: ExchangeTimeKind::BlockTime,
                                    raw_value: wire.time,
                                    declared_unit: ExchangeTimeUnit::Unknown,
                                },
                            ],
                            local_receive,
                            processing_completed,
                        },
                        price,
                        quantity,
                        reporting_kind: MarketTradeReportingKind::Individual,
                        trade_kind: MarketTradeKind::Regular,
                        aggressor_side: aggressor(wire.side).0,
                        aggressor_side_classification: aggressor(wire.side).1,
                        identity: IdentityView::Hyperliquid {
                            block_time: wire.time,
                            trade_id: wire.tid,
                            transaction_hash: wire.hash,
                        },
                    },
                ),
            },
        }
    }
}

/// The trade that a delivered trade stands for. Its time keeps the unit unknown.
pub fn decode_trade(
    wire: &WireTrade,
    expected_coin: &MarketCoin,
    local_receive: LocalObservationTime,
    processing_completed: LocalObservationTime,
) -> (result: Result<MarketTrade, String>)
    ensures
        trade_reading(expected_coin@, wire@, local_receive, processing_completed) == (
        match result {
            Ok(trade) => Ok::<TradeView, Seq<char>>(trade@),
            Err(error) => Err(error@),
        }),
{
    if !same_text(wire.coin.as_str(), expected_coin.as_str()) {
        return Err(unexpected_coin_text(expected_coin.as_str(), "trade", wire.coin.as_str()));
    }
    let price: Price = match read_price(wire.px.as_str()) {
        Ok(price) => price,
        Err(error) => return Err(trade_part_error_text(Venue::Hyperliquid, "price", error)),
    };
    let quantity: Quantity = match read_quantity(wire.sz.as_str()) {
        Ok(quantity) => quantity,
        Err(error) => return Err(trade_part_error_text(Venue::Hyperliquid, "quantity", error)),
    };
    let (side, classification) = if same_text(wire.side.as_str(), "B") {
        (AggressorSide::Buy, AggressorSideClassification::VenueProvided)
    } else if same_text(wire.side.as_str(), "A") {
        (AggressorSide::Sell, AggressorSideClassification::VenueProvided)
    } else {
        (AggressorSide::Unknown, AggressorSideClassification::Unknown)
    };
    let mut times: Vec<ExchangeTimeObservation> = Vec::new();
    times.push(
        ExchangeTimeObservation::new(
            ExchangeTimeKind::BlockTime,
            wire.time,
            ExchangeTimeUnit::Unknown,
        ),
    );
    assert(times@ =~= trade_reading(
        expected_coin@,
        wire@,
        local_receive,
        processing_completed,
    )->Ok_0.timestamps.exchange_times);
    Ok(
        MarketTrade::new(
            Venue::Hyperliquid,
            Symbol::perpetual(expected_coin.clone()),
            EventTimestamps::new(times, local_receive, processing_completed),
            price,
            quantity,
            MarketTradeReportingKind::Individual,
            MarketTradeKind::Regular,
            side,
            classification,
            MarketTradeIdentity::Hyperliquid {
                block_time: wire.time,
                trade_id: wire.tid,
                transaction_hash: wire.hash.clone(),
            },
        ),
    )
}

} // verus!
