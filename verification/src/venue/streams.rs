//! The combined depth and trade streams that Aster and Binance deliver alike.
use serde_json::Value;
use vstd::prelude::*;

use crate::domain::{MarketCoin, Price, Quantity, Symbol, Venue};
use crate::domain::decimal::DecimalParseError;
use crate::market_data::event::{
    AggressorSide, AggressorSideClassification, EventTimestamps, ExchangeTimeKind,
    ExchangeTimeObservation, ExchangeTimeUnit, IdentityView, MarketTrade, MarketTradeIdentity,
    MarketTradeKind, MarketTradeReportingKind, TimestampsView, TradeView,
};
use crate::market_data::order_book::{snapshot_of, SnapshotView};
use crate::market_data::{BookLevel, LocalObservationTime, OrderBookSnapshot};
use crate::text::same_text;
use crate::venue::levels::{
    level_error, level_error_text, too_many_levels, too_many_levels_text, BookSide,
};
use crate::venue::wire::{
    bool_field, contents_of, decode_list, decode_text, json_contents, json_get, lemma_read_all_step,
    list_rejection, member, missing_field, missing_field_text, price_reading, quantity_reading,
    re_end, re_ended, read_all, read_bool_field, read_price, read_quantity, read_text_field,
    read_u64_field, text_field, text_rejection, u64_field, wrong_length, wrong_length_text,
    JsonView,
};

verus! {

/// A depth update.
pub struct WireBook {
    pub event_type: String,
    pub event_time: u64,
    pub symbol: String,
    pub final_update_id: u64,
    pub bids: Vec<(String, String)>,
    pub asks: Vec<(String, String)>,
}

/// The model of `WireBook`.
pub struct WireBookView {
    pub event_type: Seq<char>,
    pub event_time: u64,
    pub symbol: Seq<char>,
    pub final_update_id: u64,
    pub bids: Seq<(Seq<char>, Seq<char>)>,
    pub asks: Seq<(Seq<char>, Seq<char>)>,
}

/// The models of pairs of texts.
pub open spec fn pair_views(pairs: Seq<(String, String)>) -> Seq<(Seq<char>, Seq<char>)> {
    pairs.map_values(|pair: (String, String)| (pair.0@, pair.1@))
}

impl View for WireBook {
    type V = WireBookView;

    open spec fn view(&self) -> WireBookView {
        WireBookView {
            event_type: self.event_type@,
            event_time: self.event_time,
            symbol: self.symbol@,
            final_update_id: self.final_update_id,
            bids: pair_views(self.bids@),
            asks: pair_views(self.asks@),
        }
    }
}

/// An aggregate trade.
pub struct WireAggregateTrade {
    pub event_type: String,
    pub event_time: u64,
    pub symbol: String,
    pub aggregate_trade_id: u64,
    pub price: String,
    pub quantity: String,
    pub first_trade_id: u64,
    pub last_trade_id: u64,
    pub trade_time: u64,
    pub buyer_is_maker: bool,
}

/// The model of `WireAggregateTrade`.
pub struct WireTradeView {
    pub event_type: Seq<char>,
    pub event_time: u64,
    pub symbol: Seq<char>,
    pub aggregate_trade_id: u64,
    pub price: Seq<char>,
    pub quantity: Seq<char>,
    pub first_trade_id: u64,
    pub last_trade_id: u64,
    pub trade_time: u64,
    pub buyer_is_maker: bool,
}

impl View for WireAggregateTrade {
    type V = WireTradeView;

    open spec fn view(&self) -> WireTradeView {
        WireTradeView {
            event_type: self.event_type@,
            event_time: self.event_time,
            symbol: self.symbol@,
            aggregate_trade_id: self.aggregate_trade_id,
            price: self.price@,
            quantity: self.quantity@,
            first_trade_id: self.first_trade_id,
            last_trade_id: self.last_trade_id,
            trade_time: self.trade_time,
            buyer_is_maker: self.buyer_is_maker,
        }
    }
}

/// Price and quantity of a level: a list of exactly two texts.
pub open spec fn pair_reading(item: JsonView) -> Result<(Seq<char>, Seq<char>), Seq<char>> {
    match item {
        JsonView::List(parts) => if parts.len() == 0 {
            Err(wrong_length(0, "an array of length 2"@))
        } else if !(parts[0] is Text) {
            Err(text_rejection(parts[0]))
        } else if parts.len() == 1 {
            Err(wrong_length(1, "an array of length 2"@))
        } else if !(parts[1] is Text) {
            Err(text_rejection(parts[1]))
        } else if parts.len() > 2 {
            Err(wrong_length(parts.len(), "fewer elements in array"@))
        } else {
            Ok((parts[0]->Text_0, parts[1]->Text_0))
        },
        _ => Err(re_ended(list_rejection(item), "a sequence"@, "an array of length 2"@)),
    }
}

/// Reads the levels of a side.
pub open spec fn pair_reader() -> spec_fn(int, JsonView) -> Result<
    (Seq<char>, Seq<char>),
    Seq<char>,
> {
    |place: int, item: JsonView| pair_reading(item)
}

/// The levels of a side under a key, if there is anything; or why what is there is no side.
pub open spec fn pairs_field(value: JsonView, key: Seq<char>) -> Result<
    Option<Seq<(Seq<char>, Seq<char>)>>,
    Seq<char>,
> {
    match member(value, key) {
        None => Ok(None),
        Some(JsonView::List(items)) => match read_all(items, pair_reader()) {
            Ok(pairs) => Ok(Some(pairs)),
            Err(error) => Err(error),
        },
        Some(other) => Err(list_rejection(other)),
    }
}

/// The depth update that an object stands for, or what is said of the object. What is
/// there but unfit is named first, then what is missing.
pub open spec fn book_fields(value: JsonView) -> Result<WireBookView, Seq<char>> {
    if u64_field(value, "E"@) is Err {
        Err(u64_field(value, "E"@)->Err_0)
    } else if pairs_field(value, "a"@) is Err {
        Err(pairs_field(value, "a"@)->Err_0)
    } else if pairs_field(value, "b"@) is Err {
        Err(pairs_field(value, "b"@)->Err_0)
    } else if text_field(value, "e"@) is Err {
        Err(text_field(value, "e"@)->Err_0)
    } else if text_field(value, "s"@) is Err {
        Err(text_field(value, "s"@)->Err_0)
    } else if u64_field(value, "u"@) is Err {
        Err(u64_field(value, "u"@)->Err_0)
    } else if text_field(value, "e"@)->Ok_0 is None {
        Err(missing_field("e"@))
    } else if u64_field(value, "E"@)->Ok_0 is None {
        Err(missing_field("E"@))
    } else if text_field(value, "s"@)->Ok_0 is None {
        Err(missing_field("s"@))
    } else if u64_field(value, "u"@)->Ok_0 is None {
        Err(missing_field("u"@))
    } else if pairs_field(value, "b"@)->Ok_0 is None {
        Err(missing_field("b"@))
    } else if pairs_field(value, "a"@)->Ok_0 is None {
        Err(missing_field("a"@))
    } else {
        Ok(
            WireBookView {
                event_type: text_field(value, "e"@)->Ok_0->Some_0,
                event_time: u64_field(value, "E"@)->Ok_0->Some_0,
                symbol: text_field(value, "s"@)->Ok_0->Some_0,
                final_update_id: u64_field(value, "u"@)->Ok_0->Some_0,
                bids: pairs_field(value, "b"@)->Ok_0->Some_0,
                asks: pairs_field(value, "a"@)->Ok_0->Some_0,
            },
        )
    }
}

/// The aggregate trade that an object stands for, or what is said of the object. What is
/// there but unfit is named first, then what is missing.
pub open spec fn trade_fields(value: JsonView) -> Result<WireTradeView, Seq<char>> {
    if u64_field(value, "E"@) is Err {
        Err(u64_field(value, "E"@)->Err_0)
    } else if u64_field(value, "T"@) is Err {
        Err(u64_field(value, "T"@)->Err_0)
    } else if u64_field(value, "a"@) is Err {
        Err(u64_field(value, "a"@)->Err_0)
    } else if text_field(value, "e"@) is Err {
        Err(text_field(value, "e"@)->Err_0)
    } else if u64_field(value, "f"@) is Err {
        Err(u64_field(value, "f"@)->Err_0)
    } else if u64_field(value, "l"@) is Err {
        Err(u64_field(value, "l"@)->Err_0)
    } else if bool_field(value, "m"@) is Err {
        Err(bool_field(value, "m"@)->Err_0)
    } else if text_field(value, "p"@) is Err {
        Err(text_field(value, "p"@)->Err_0)
    } else if text_field(value, "q"@) is Err {
        Err(text_field(value, "q"@)->Err_0)
    } else if text_field(value, "s"@) is Err {
        Err(text_field(value, "s"@)->Err_0)
    } else if text_field(value, "e"@)->Ok_0 is None {
        Err(missing_field("e"@))
    } else if u64_field(value, "E"@)->Ok_0 is None {
        Err(missing_field("E"@))
    } else if text_field(value, "s"@)->Ok_0 is None {
        Err(missing_field("s"@))
    } else if u64_field(value, "a"@)->Ok_0 is None {
        Err(missing_field("a"@))
    } else if text_field(value, "p"@)->Ok_0 is None {
        Err(missing_field("p"@))
    } else if text_field(value, "q"@)->Ok_0 is None {
        Err(missing_field("q"@))
    } else if u64_field(value, "f"@)->Ok_0 is None {
        Err(missing_field("f"@))
    } else if u64_field(value, "l"@)->Ok_0 is None {
        Err(missing_field("l"@))
    } else if u64_field(value, "T"@)->Ok_0 is None {
        Err(missing_field("T"@))
    } else if bool_field(value, "m"@)->Ok_0 is None {
        Err(missing_field("m"@))
    } else {
        Ok(
            WireTradeView {
                event_type: text_field(value, "e"@)->Ok_0->Some_0,
                event_time: u64_field(value, "E"@)->Ok_0->Some_0,
                symbol: text_field(value, "s"@)->Ok_0->Some_0,
                aggregate_trade_id: u64_field(value, "a"@)->Ok_0->Some_0,
                price: text_field(value, "p"@)->Ok_0->Some_0,
                quantity: text_field(value, "q"@)->Ok_0->Some_0,
                first_trade_id: u64_field(value, "f"@)->Ok_0->Some_0,
                last_trade_id: u64_field(value, "l"@)->Ok_0->Some_0,
                trade_time: u64_field(value, "T"@)->Ok_0->Some_0,
                buyer_is_maker: bool_field(value, "m"@)->Ok_0->Some_0,
            },
        )
    }
}

fn read_pair(item: &Value) -> (result: Result<(String, String), String>)
    ensures
        pair_reading(json_contents(*item)) == (match result {
            Ok(pair) => Ok::<(Seq<char>, Seq<char>), Seq<char>>((pair.0@, pair.1@)),
            Err(error) => Err(error@),
        }),
{
    let parts: Vec<Value> = match decode_list(item) {
        Ok(parts) => parts,
        Err(error) => {
            return Err(re_end(error.as_str(), "a sequence", "an array of length 2"));
        },
    };
    if parts.len() == 0 {
        return Err(wrong_length_text(0, "an array of length 2"));
    }
    assert(contents_of(parts@)[0] == json_contents(parts@[0]));
    let price: String = match decode_text(&parts[0]) {
        Ok(text) => text,
        Err(error) => {
            return Err(error);
        },
    };
    if parts.len() == 1 {
        return Err(wrong_length_text(1, "an array of length 2"));
    }
    assert(contents_of(parts@)[1] == json_contents(parts@[1]));
    let quantity: String = match decode_text(&parts[1]) {
        Ok(text) => text,
        Err(error) => {
            return Err(error);
        },
    };
    if parts.len() > 2 {
        return Err(wrong_length_text(parts.len(), "fewer elements in array"));
    }
    Ok((price, quantity))
}

fn read_pairs_field(value: &Value, key: &str) -> (result: Result<
    Option<Vec<(String, String)>>,
    String,
>)
    ensures
        pairs_field(json_contents(*value), key@) == (match result {
            Ok(Some(pairs)) => Ok::<Option<Seq<(Seq<char>, Seq<char>)>>, Seq<char>>(
                Some(pair_views(pairs@)),
            ),
            Ok(None) => Ok(None),
            Err(error) => Err(error@),
        }),
{
    let side: &Value = match json_get(value, key) {
        None => {
            return Ok(None);
        },
        Some(side) => side,
    };
    let items: Vec<Value> = match decode_list(side) {
        Ok(items) => items,
        Err(error) => {
            return Err(error);
        },
    };
    let ghost contents = contents_of(items@);
    let mut pairs: Vec<(String, String)> = Vec::new();
    let mut i: usize = 0;
    assert(contents.take(0) =~= Seq::<JsonView>::empty());
    assert(pair_views(pairs@) =~= Seq::<(Seq<char>, Seq<char>)>::empty());
    while i < items.len()
        invariant
            i <= items.len(),
            contents == contents_of(items@),
            member(json_contents(*value), key@) == Some(JsonView::List(contents)),
            read_all(contents.take(i as int), pair_reader()) == Ok::<
                Seq<(Seq<char>, Seq<char>)>,
                Seq<char>,
            >(pair_views(pairs@)),
        decreases items.len() - i,
    {
        proof {
            assert(contents[i as int] == json_contents(items@[i as int]));
            lemma_read_all_step(contents, i as int, pair_reader());
        }
        let ghost before = pairs@;
        match read_pair(&items[i]) {
            Ok(pair) => {
                pairs.push(pair);
                assert(pair_views(pairs@) =~= pair_views(before).push((pair.0@, pair.1@)));
            },
            Err(error) => {
                return Err(error);
            },
        }
        i = i + 1;
    }
    assert(contents.take(i as int) =~= contents);
    Ok(Some(pairs))
}

pub(crate) fn read_book(value: &Value) -> (result: Result<WireBook, String>)
    ensures
        book_fields(json_contents(*value)) == (match result {
            Ok(book) => Ok::<WireBookView, Seq<char>>(book@),
            Err(error) => Err(error@),
        }),
{
    let event_time = match read_u64_field(value, "E") {
        Ok(found) => found,
        Err(error) => return Err(error),
    };
    let asks = match read_pairs_field(value, "a") {
        Ok(found) => found,
        Err(error) => return Err(error),
    };
    let bids = match read_pairs_field(value, "b") {
        Ok(found) => found,
        Err(error) => return Err(error),
    };
    let event_type = match read_text_field(value, "e") {
        Ok(found) => found,
        Err(error) => return Err(error),
    };
    let symbol = match read_text_field(value, "s") {
        Ok(found) => found,
        Err(error) => return Err(error),
    };
    let final_update_id = match read_u64_field(value, "u") {
        Ok(found) => found,
        Err(error) => return Err(error),
    };
    let event_type = match event_type {
        Some(found) => found,
        None => return Err(missing_field_text("e")),
    };
    let event_time: u64 = match event_time {
        Some(found) => found,
        None => return Err(missing_field_text("E")),
    };
    let symbol = match symbol {
        Some(found) => found,
        None => return Err(missing_field_text("s")),
    };
    let final_update_id: u64 = match final_update_id {
        Some(found) => found,
        None => return Err(missing_field_text("u")),
    };
    let bids = match bids {
        Some(found) => found,
        None => return Err(missing_field_text("b")),
    };
    let asks = match asks {
        Some(found) => found,
        None => return Err(missing_field_text("a")),
    };
    Ok(WireBook { event_type, event_time, symbol, final_update_id, bids, asks })
}

pub(crate) fn read_aggregate_trade(value: &Value) -> (result: Result<WireAggregateTrade, String>)
    ensures
        trade_fields(json_contents(*value)) == (match result {
            Ok(trade) => Ok::<WireTradeView, Seq<char>>(trade@),
            Err(error) => Err(error@),
        }),
{
    let event_time = match read_u64_field(value, "E") {
        Ok(found) => found,
        Err(error) => return Err(error),
    };
    let trade_time = match read_u64_field(value, "T") {
        Ok(found) => found,
        Err(error) => return Err(error),
    };
    let aggregate_trade_id = match read_u64_field(value, "a") {
        Ok(found) => found,
        Err(error) => return Err(error),
    };
    let event_type = match read_text_field(value, "e") {
        Ok(found) => found,
        Err(error) => return Err(error),
    };
    let first_trade_id = match read_u64_field(value, "f") {
        Ok(found) => found,
        Err(error) => return Err(error),
    };
    let last_trade_id = match read_u64_field(value, "l") {
        Ok(found) => found,
        Err(error) => return Err(error),
    };
    let buyer_is_maker = match read_bool_field(value, "m") {
        Ok(found) => found,
        Err(error) => return Err(error),
    };
    let price = match read_text_field(value, "p") {
        Ok(found) => found,
        Err(error) => return Err(error),
    };
    let quantity = match read_text_field(value, "q") {
        Ok(found) => found,
        Err(error) => return Err(error),
    };
    let symbol = match read_text_field(value, "s") {
        Ok(found) => found,
        Err(error) => return Err(error),
    };
    let event_type = match event_type {
        Some(found) => found,
        None => return Err(missing_field_text("e")),
    };
    let event_time: u64 = match event_time {
        Some(found) => found,
        None => return Err(missing_field_text("E")),
    };
    let symbol = match symbol {
        Some(found) => found,
        None => return Err(missing_field_text("s")),
    };
    let aggregate_trade_id: u64 = match aggregate_trade_id {
        Some(found) => found,
        None => return Err(missing_field_text("a")),
    };
    let price = match price {
        Some(found) => found,
        None => return Err(missing_field_text("p")),
    };
    let quantity = match quantity {
        Some(found) => found,
        None => return Err(missing_field_text("q")),
    };
    let first_trade_id: u64 = match first_trade_id {
        Some(found) => found,
        None => return Err(missing_field_text("f")),
    };
    let last_trade_id: u64 = match last_trade_id {
        Some(found) => found,
        None => return Err(missing_field_text("l")),
    };
    let trade_time: u64 = match trade_time {
        Some(found) => found,
        None => return Err(missing_field_text("T")),
    };
    let buyer_is_maker: bool = match buyer_is_maker {
        Some(found) => found,
        None => return Err(missing_field_text("m")),
    };
    Ok(
        WireAggregateTrade {
            event_type,
            event_time,
            symbol,
            aggregate_trade_id,
            price,
            quantity,
            first_trade_id,
            last_trade_id,
            trade_time,
            buyer_is_maker,
        },
    )
}

/// The most levels that Aster delivers on one side.
pub const ASTER_MAX_LEVELS_PER_SIDE: usize = 10;

/// What is said of a price or quantity of a level that is not a positive decimal.
pub open spec fn part_error(
    venue: Venue,
    part: Seq<char>,
    side: BookSide,
    level: nat,
    error: DecimalParseError,
) -> Seq<char> {
    if venue == Venue::Binance {
        "invalid Binance "@ + part + ": "@ + error.message()
    } else {
        level_error(part, side, level, error)
    }
}

fn part_error_text(
    venue: Venue,
    part: &str,
    side: BookSide,
    level: usize,
    error: DecimalParseError,
) -> (text: String)
    ensures
        text@ == part_error(venue, part@, side, level as nat, error),
{
    if venue == Venue::Binance {
        let mut text: String = "invalid Binance ".to_owned();
        text.append(part);
        text.append(": ");
        text.append(error.to_text().as_str());
        text
    } else {
        level_error_text(part, side, level, error)
    }
}

/// The level that a pair of texts stands for.
pub open spec fn level_reading(
    venue: Venue,
    side: BookSide,
    level: nat,
    pair: (Seq<char>, Seq<char>),
) -> Result<BookLevel, Seq<char>> {
    match price_reading(pair.0) {
        Err(error) => Err(part_error(venue, "price"@, side, level, error)),
        Ok(price) => match quantity_reading(pair.1) {
            Err(error) => Err(part_error(venue, "quantity"@, side, level, error)),
            Ok(quantity) => Ok(BookLevel { price, quantity, order_count: None }),
        },
    }
}

/// Reads the levels of a side.
pub open spec fn level_reader(venue: Venue, side: BookSide) -> spec_fn(
    int,
    (Seq<char>, Seq<char>),
) -> Result<BookLevel, Seq<char>> {
    |level: int, pair: (Seq<char>, Seq<char>)| level_reading(venue, side, level as nat, pair)
}

/// The levels of a side.
pub open spec fn side_reading(
    venue: Venue,
    side: BookSide,
    pairs: Seq<(Seq<char>, Seq<char>)>,
) -> Result<Seq<BookLevel>, Seq<char>> {
    if venue == Venue::Aster && pairs.len() > ASTER_MAX_LEVELS_PER_SIDE {
        Err(too_many_levels(side, pairs.len(), ASTER_MAX_LEVELS_PER_SIDE as nat))
    } else {
        read_all(pairs, level_reader(venue, side))
    }
}

/// The times of a message that states one event time.
pub open spec fn event_times(
    raw_value: u64,
    declared_unit: ExchangeTimeUnit,
    local_receive: LocalObservationTime,
) -> TimestampsView {
    TimestampsView {
        exchange_times: seq![
            ExchangeTimeObservation { kind: ExchangeTimeKind::EventTime, raw_value, declared_unit },
        ],
        local_receive,
        processing_completed: local_receive,
    }
}

/// The times of a message that states one event time.
pub(crate) fn event_timestamps(
    raw_value: u64,
    declared_unit: ExchangeTimeUnit,
    local_receive: LocalObservationTime,
) -> (timestamps: EventTimestamps)
    ensures
        timestamps@ == event_times(raw_value, declared_unit, local_receive),
{
    let mut times: Vec<ExchangeTimeObservation> = Vec::new();
    times.push(
        ExchangeTimeObservation::new(ExchangeTimeKind::EventTime, raw_value, declared_unit),
    );
    assert(times@ =~= event_times(raw_value, declared_unit, local_receive).exchange_times);
    EventTimestamps::new(times, local_receive, local_receive)
}

/// What became of a snapshot, with the message of its error.
pub open spec fn snapshot_reading(
    venue: Venue,
    coin: Seq<char>,
    source_sequence: Option<u64>,
    timestamps: TimestampsView,
    bids: Seq<BookLevel>,
    asks: Seq<BookLevel>,
) -> Result<SnapshotView, Seq<char>> {
    match snapshot_of(venue, coin, source_sequence, timestamps, bids, asks) {
        Ok(snapshot) => Ok(snapshot),
        Err(error) => Err(error.message()),
    }
}

/// The book that a depth update stands for, or why it stands for none.
pub open spec fn update_reading(
    venue: Venue,
    coin: Seq<char>,
    wire: WireBookView,
    local_receive: LocalObservationTime,
) -> Result<SnapshotView, Seq<char>> {
    match side_reading(venue, BookSide::Bid, wire.bids) {
        Err(error) => Err(error),
        Ok(bids) => match side_reading(venue, BookSide::Ask, wire.asks) {
            Err(error) => Err(error),
            Ok(asks) => snapshot_reading(
                venue,
                coin,
                Some(wire.final_update_id),
                event_times(wire.event_time, ExchangeTimeUnit::Milliseconds, local_receive),
                bids,
                asks,
            ),
        },
    }
}

fn decode_levels(venue: Venue, side: BookSide, pairs: &Vec<(String, String)>) -> (result: Result<
    Vec<BookLevel>,
    String,
>)
    ensures
        side_reading(venue, side, pair_views(pairs@)) == (match result {
            Ok(levels) => Ok::<Seq<BookLevel>, Seq<char>>(levels@),
            Err(error) => Err(error@),
        }),
{
    if venue == Venue::Aster && pairs.len() > ASTER_MAX_LEVELS_PER_SIDE {
        return Err(too_many_levels_text(side, pairs.len(), ASTER_MAX_LEVELS_PER_SIDE));
    }
    let ghost views = pair_views(pairs@);
    let mut levels: Vec<BookLevel> = Vec::new();
    let mut i: usize = 0;
    assert(views.take(0) =~= Seq::<(Seq<char>, Seq<char>)>::empty());
    while i < pairs.len()
        invariant
            i <= pairs.len(),
            views == pair_views(pairs@),
            !(venue == Venue::Aster && pairs.len() > ASTER_MAX_LEVELS_PER_SIDE),
            read_all(views.take(i as int), level_reader(venue, side)) == Ok::<
                Seq<BookLevel>,
                Seq<char>,
            >(levels@),
        decreases pairs.len() - i,
    {
        proof {
            assert(views[i as int] == (pairs@[i as int].0@, pairs@[i as int].1@));
            lemma_read_all_step(views, i as int, level_reader(venue, side));
        }
        let price: Price = match read_price(pairs[i].0.as_str()) {
            Ok(price) => price,
            Err(error) => {
                return Err(part_error_text(venue, "price", side, i, error));
            },
        };
        let quantity: Quantity = match read_quantity(pairs[i].1.as_str()) {
            Ok(quantity) => quantity,
            Err(error) => {
                return Err(part_error_text(venue, "quantity", side, i, error));
            },
        };
        levels.push(BookLevel::new(price, quantity, None));
        i = i + 1;
    }
    assert(views.take(i as int) =~= views);
    Ok(levels)
}

/// The book that a depth update stands for.
pub fn decode_snapshot(
    venue: Venue,
    wire: &WireBook,
    market_coin: &MarketCoin,
    local_receive: LocalObservationTime,
) -> (result: Result<OrderBookSnapshot, String>)
    ensures
        crate::venue::feed::decoded_book(result) == update_reading(
            venue,
            market_coin@,
            wire@,
            local_receive,
        ),
        result matches Ok(snapshot) ==> snapshot@.venue == venue && snapshot@.coin == market_coin@,
{
    let bids: Vec<BookLevel> = match decode_levels(venue, BookSide::Bid, &wire.bids) {
        Ok(levels) => levels,
        Err(error) => {
            return Err(error);
        },
    };
    let asks: Vec<BookLevel> = match decode_levels(venue, BookSide::Ask, &wire.asks) {
        Ok(levels) => levels,
        Err(error) => {
            return Err(error);
        },
    };
    match OrderBookSnapshot::try_new(
        venue,
        Symbol::perpetual(market_coin.clone()),
        Some(wire.final_update_id),
        event_timestamps(wire.event_time, ExchangeTimeUnit::Milliseconds, local_receive),
        bids,
        asks,
    ) {
        Ok(snapshot) => Ok(snapshot),
        Err(error) => Err(error.to_text()),
    }
}

/// What is said of a payload that is not what it should be.
pub open spec fn payload_error(venue: Venue, kind: Seq<char>, error: Seq<char>) -> Seq<char> {
    "invalid "@ + venue.display_name() + " "@ + kind + " payload: "@ + error
}

fn payload_error_text(venue: Venue, kind: &str, error: &str) -> (text: String)
    ensures
        text@ == payload_error(venue, kind@, error@),
{
    let mut text: String = "invalid ".to_owned();
    text.append(venue.to_text().as_str());
    text.append(" ");
    text.append(kind);
    text.append(" payload: ");
    text.append(error);
    text
}

/// What is said of a message about another symbol.
pub open spec fn unexpected_symbol(
    venue: Venue,
    expected: Seq<char>,
    actual: Seq<char>,
) -> Seq<char> {
    "expected "@ + venue.display_name() + " symbol "@ + expected + ", received "@ + actual
}

fn unexpected_symbol_text(venue: Venue, expected: &str, actual: &str) -> (text: String)
    ensures
        text@ == unexpected_symbol(venue, expected@, actual@),
{
    let mut text: String = "expected ".to_owned();
    text.append(venue.to_text().as_str());
    text.append(" symbol ");
    text.append(expected);
    text.append(", received ");
    text.append(actual);
    text
}

/// What is said of a message of another kind than a trade.
pub open spec fn unexpected_type(venue: Venue, actual: Seq<char>) -> Seq<char> {
    if venue == Venue::Binance {
        "unexpected Binance event type "@ + actual
    } else {
        "expected "@ + venue.display_name() + " aggTrade event, received "@ + actual
    }
}

fn unexpected_type_text(venue: Venue, actual: &str) -> (text: String)
    ensures
        text@ == unexpected_type(venue, actual@),
{
    if venue == Venue::Binance {
        let mut text: String = "unexpected Binance event type ".to_owned();
        text.append(actual);
        text
    } else {
        let mut text: String = "expected ".to_owned();
        text.append(venue.to_text().as_str());
        text.append(" aggTrade event, received ");
        text.append(actual);
        text
    }
}

/// What is said of a price or quantity of a trade that is not a positive decimal.
pub open spec fn trade_part_error(
    venue: Venue,
    part: Seq<char>,
    error: DecimalParseError,
) -> Seq<char> {
    "invalid "@ + venue.display_name() + (if venue == Venue::Binance {
        " "@
    } else {
        " trade "@
    }) + part + ": "@ + error.message()
}

pub(crate) fn trade_part_error_text(venue: Venue, part: &str, error: DecimalParseError) -> (text:
    String)
    ensures
        text@ == trade_part_error(venue, part@, error),
{
    let mut text: String = "invalid ".to_owned();
    text.append(venue.to_text().as_str());
    if venue == Venue::Binance {
        text.append(" ");
    } else {
        text.append(" trade ");
    }
    text.append(part);
    text.append(": ");
    text.append(error.to_text().as_str());
    text
}

/// The identity of an aggregate trade.
pub open spec fn aggregate_identity(venue: Venue, wire: WireTradeView) -> IdentityView {
    if venue == Venue::Binance {
        IdentityView::Binance {
            aggregate_trade_id: wire.aggregate_trade_id,
            first_trade_id: wire.first_trade_id,
            last_trade_id: wire.last_trade_id,
        }
    } else {
        IdentityView::Aster {
            aggregate_trade_id: wire.aggregate_trade_id,
            first_trade_id: wire.first_trade_id,
            last_trade_id: wire.last_trade_id,
        }
    }
}

/// The trade that an aggregate trade stands for, or why it stands for none.
pub open spec fn aggregate_reading(
    venue: Venue,
    symbol: Seq<char>,
    coin: Seq<char>,
    wire: WireTradeView,
    local_receive: LocalObservationTime,
    processing_completed: LocalObservationTime,
) -> Result<TradeView, Seq<char>> {
    if wire.event_type != "aggTrade"@ {
        Err(unexpected_type(venue, wire.event_type))
    } else if wire.symbol != symbol {
        Err(unexpected_symbol(venue, symbol, wire.symbol))
    } else {
        match price_reading(wire.price) {
            Err(error) => Err(trade_part_error(venue, "price"@, error)),
            Ok(price) => match quantity_reading(wire.quantity) {
                Err(error) => Err(trade_part_error(venue, "quantity"@, error)),
                Ok(quantity) => Ok(
                    TradeView {
                        venue,
                        coin,
                        timestamps: TimestampsView {
                            exchange_times: seq![
                                ExchangeTimeObservation {
                                    kind: ExchangeTimeKind::EventTime,
                                    raw_value: wire.event_time,
                                    declared_unit: ExchangeTimeUnit::Milliseconds,
                                },
                                ExchangeTimeObservation {
                                    kind: ExchangeTimeKind::TradeTime,
                                    raw_value: wire.trade_time,
                                    declared_unit: ExchangeTimeUnit::Milliseconds,
                                },
                            ],
                            local_receive,
                            processing_completed,
                        },
                        price,
                        quantity,
                        reporting_kind: MarketTradeReportingKind::TakerOrderAggregate,
                        trade_kind: MarketTradeKind::Regular,
                        aggressor_side: if wire.buyer_is_maker {
                            AggressorSide::Sell
                        } else {
                            AggressorSide::Buy
                        },
                        aggressor_side_classification:
                            AggressorSideClassification::DerivedFromMakerSide,
                        identity: aggregate_identity(venue, wire),
                    },
                ),
            },
        }
    }
}

/// The trade that an aggregate trade stands for. A buyer that was the maker makes the
/// seller the aggressor.
pub fn decode_trade(
    venue: Venue,
    wire: WireAggregateTrade,
    expected_symbol: &str,
    market_coin: &MarketCoin,
    local_receive: LocalObservationTime,
    processing_completed: LocalObservationTime,
) -> (result: Result<MarketTrade, String>)
    ensures
        aggregate_reading(
            venue,
            expected_symbol@,
            market_coin@,
            wire@,
            local_receive,
            processing_completed,
        ) == (match result {
            Ok(trade) => Ok::<TradeView, Seq<char>>(trade@),
            Err(error) => Err(error@),
        }),
{
    if !same_text(wire.event_type.as_str(), "aggTrade") {
        return Err(unexpected_type_text(venue, wire.event_type.as_str()));
    }
    if !same_text(wire.symbol.as_str(), expected_symbol) {
        return Err(unexpected_symbol_text(venue, expected_symbol, wire.symbol.as_str()));
    }
    let price: Price = match read_price(wire.price.as_str()) {
        Ok(price) => price,
        Err(error) => {
            return Err(trade_part_error_text(venue, "price", error));
        },
    };
    let quantity: Quantity = match read_quantity(wire.quantity.as_str()) {
        Ok(quantity) => quantity,
        Err(error) => {
            return Err(trade_part_error_text(venue, "quantity", error));
        },
    };
    let mut times: Vec<ExchangeTimeObservation> = Vec::new();
    times.push(
        ExchangeTimeObservation::new(
            ExchangeTimeKind::EventTime,
            wire.event_time,
            ExchangeTimeUnit::Milliseconds,
        ),
    );
    times.push(
        ExchangeTimeObservation::new(
            ExchangeTimeKind::TradeTime,
            wire.trade_time,
            ExchangeTimeUnit::Milliseconds,
        ),
    );
    assert(times@ =~= aggregate_reading(
        venue,
        expected_symbol@,
        market_coin@,
        wire@,
        local_receive,
        processing_completed,
    )->Ok_0.timestamps.exchange_times);
    let identity: MarketTradeIdentity = if venue == Venue::Binance {
        MarketTradeIdentity::Binance {
            aggregate_trade_id: wire.aggregate_trade_id,
            first_trade_id: wire.first_trade_id,
            last_trade_id: wire.last_trade_id,
        }
    } else {
        MarketTradeIdentity::Aster {
            aggregate_trade_id: wire.aggregate_trade_id,
            first_trade_id: wire.first_trade_id,
            last_trade_id: wire.last_trade_id,
        }
    };
    let aggressor_side: AggressorSide = if wire.buyer_is_maker {
        AggressorSide::Sell
    } else {
        AggressorSide::Buy
    };
    Ok(
        MarketTrade::new(
            venue,
            Symbol::perpetual(market_coin.clone()),
            EventTimestamps::new(times, local_receive, processing_completed),
            price,
            quantity,
            MarketTradeReportingKind::TakerOrderAggregate,
            MarketTradeKind::Regular,
            aggressor_side,
            AggressorSideClassification::DerivedFromMakerSide,
            identity,
        ),
    )
}

/// The trade and its identity that an object stands for, or why it stands for none.
pub open spec fn trade_payload(
    venue: Venue,
    symbol: Seq<char>,
    coin: Seq<char>,
    payload: JsonView,
    local_receive: LocalObservationTime,
    completed: LocalObservationTime,
) -> Result<(TradeView, u64), Seq<char>> {
    match trade_fields(payload) {
        Err(error) => Err(payload_error(venue, "aggTrade"@, error)),
        Ok(wire) => match aggregate_reading(venue, symbol, coin, wire, local_receive, completed) {
            Err(error) => Err(error),
            Ok(trade) => Ok((trade, wire.aggregate_trade_id)),
        },
    }
}

/// The book that an object stands for, or why it stands for none. Nothing, where the
/// object is another message than a depth update.
pub open spec fn book_payload(
    venue: Venue,
    symbol: Seq<char>,
    coin: Seq<char>,
    payload: JsonView,
    local_receive: LocalObservationTime,
) -> Option<Result<SnapshotView, Seq<char>>> {
    match book_fields(payload) {
        Err(error) => Some(Err(payload_error(venue, "depth"@, error))),
        Ok(wire) => if wire.event_type != "depthUpdate"@ {
            None
        } else if wire.symbol != symbol {
            Some(Err(unexpected_symbol(venue, symbol, wire.symbol)))
        } else {
            Some(update_reading(venue, coin, wire, local_receive))
        },
    }
}

pub(crate) fn read_trade_payload(
    venue: Venue,
    symbol: &str,
    market_coin: &MarketCoin,
    payload: &Value,
    local_receive: LocalObservationTime,
    completed: LocalObservationTime,
) -> (result: Result<(MarketTrade, u64), String>)
    ensures
        crate::venue::feed::decoded_trade(result) == trade_payload(
            venue,
            symbol@,
            market_coin@,
            json_contents(*payload),
            local_receive,
            completed,
        ),
{
    match read_aggregate_trade(payload) {
        Err(error) => Err(payload_error_text(venue, "aggTrade", error.as_str())),
        Ok(wire) => {
            let identity: u64 = wire.aggregate_trade_id;
            match decode_trade(venue, wire, symbol, market_coin, local_receive, completed) {
                Err(error) => Err(error),
                Ok(trade) => Ok((trade, identity)),
            }
        },
    }
}

pub(crate) fn read_book_payload(
    venue: Venue,
    symbol: &str,
    market_coin: &MarketCoin,
    payload: &Value,
    local_receive: LocalObservationTime,
) -> (result: Option<Result<OrderBookSnapshot, String>>)
    ensures
        book_payload(venue, symbol@, market_coin@, json_contents(*payload), local_receive) == (
        match result {
            None => None,
            Some(decoded) => Some(crate::venue::feed::decoded_book(decoded)),
        }),
        result matches Some(Ok(snapshot)) ==> snapshot@.venue == venue && snapshot@.coin
            == market_coin@,
{
    match read_book(payload) {
        Err(error) => Some(Err(payload_error_text(venue, "depth", error.as_str()))),
        Ok(wire) => {
            if !same_text(wire.event_type.as_str(), "depthUpdate") {
                None
            } else if !same_text(wire.symbol.as_str(), symbol) {
                Some(Err(unexpected_symbol_text(venue, symbol, wire.symbol.as_str())))
            } else {
                Some(decode_snapshot(venue, &wire, market_coin, local_receive))
            }
        },
    }
}

} // verus!
