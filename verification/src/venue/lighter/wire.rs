//! Messages as Lighter delivers them.
use vstd::prelude::*;
use vstd::utf8::encode_utf8;

use crate::domain::{MarketCoin, Price, Quantity, Symbol, Venue};
use crate::market_data::event::{
    AggressorSide, AggressorSideClassification, EventTimestamps, ExchangeTimeKind,
    ExchangeTimeObservation, ExchangeTimeUnit, IdentityView, MarketTrade, MarketTradeIdentity,
    MarketTradeKind, MarketTradeReportingKind, TimestampsView, TradeView,
};
use crate::market_data::LocalObservationTime;
use crate::text::{
    all_digits, chars_of, decimal, decimal_text, digits_value, is_digit, same_text, string_of,
};
use crate::venue::raw::{
    is_null, item_views, list_items, parts_of, split_list, stands_for_null, Field, FieldView, Parts,
    PartsView,
};
use crate::venue::streams::{trade_part_error, trade_part_error_text};
use crate::venue::wire::{
    all_of, json_reading, lemma_all_of_step, parse_json, price_reading, quantity_reading,
    read_price, read_quantity,
};

verus! {

/// A level: price and size.
#[derive(Debug)]
pub struct WireLevel {
    pub price: String,
    pub size: String,
}

/// The model of `WireLevel`.
pub struct WireLevelView {
    pub price: Seq<char>,
    pub size: Seq<char>,
}

impl View for WireLevel {
    type V = WireLevelView;

    open spec fn view(&self) -> WireLevelView {
        WireLevelView { price: self.price@, size: self.size@ }
    }
}

/// The models of levels.
pub open spec fn level_views(levels: Seq<WireLevel>) -> Seq<WireLevelView> {
    levels.map_values(|level: WireLevel| level@)
}

/// A book, or the changes of a book, with the numbers before and after.
#[derive(Debug)]
pub struct WireBook {
    pub asks: Vec<WireLevel>,
    pub bids: Vec<WireLevel>,
    pub nonce: u64,
    pub begin_nonce: u64,
    pub last_updated_at: u64,
}

/// The model of `WireBook`.
pub struct WireBookView {
    pub asks: Seq<WireLevelView>,
    pub bids: Seq<WireLevelView>,
    pub nonce: u64,
    pub begin_nonce: u64,
    pub last_updated_at: u64,
}

impl View for WireBook {
    type V = WireBookView;

    open spec fn view(&self) -> WireBookView {
        WireBookView {
            asks: level_views(self.asks@),
            bids: level_views(self.bids@),
            nonce: self.nonce,
            begin_nonce: self.begin_nonce,
            last_updated_at: self.last_updated_at,
        }
    }
}

/// A trade.
#[derive(Debug)]
pub struct WireTrade {
    pub trade_id_str: String,
    pub kind: String,
    pub market_id: u32,
    pub size: String,
    pub price: String,
    pub is_maker_ask: bool,
    pub timestamp: u64,
    pub transaction_time: u64,
}

/// The model of `WireTrade`.
pub struct WireTradeView {
    pub trade_id_str: Seq<char>,
    pub kind: Seq<char>,
    pub market_id: u32,
    pub size: Seq<char>,
    pub price: Seq<char>,
    pub is_maker_ask: bool,
    pub timestamp: u64,
    pub transaction_time: u64,
}

impl View for WireTrade {
    type V = WireTradeView;

    open spec fn view(&self) -> WireTradeView {
        WireTradeView {
            trade_id_str: self.trade_id_str@,
            kind: self.kind@,
            market_id: self.market_id,
            size: self.size@,
            price: self.price@,
            is_maker_ask: self.is_maker_ask,
            timestamp: self.timestamp,
            transaction_time: self.transaction_time,
        }
    }
}

impl WireTrade {
    pub fn market_id(&self) -> (id: u32)
        ensures
            id == self@.market_id,
    {
        self.market_id
    }
}

/// The models of trades.
pub open spec fn trade_views(trades: Seq<WireTrade>) -> Seq<WireTradeView> {
    trades.map_values(|trade: WireTrade| trade@)
}

/// A message.
#[derive(Debug)]
pub struct WireEnvelope {
    pub kind: String,
    pub channel: String,
    pub order_book: Option<WireBook>,
    pub trades: Vec<WireTrade>,
    pub liquidation_trades: Vec<WireTrade>,
    pub nonce: Option<u64>,
}

/// The model of `WireEnvelope`.
pub struct EnvelopeView {
    pub kind: Seq<char>,
    pub channel: Seq<char>,
    pub order_book: Option<WireBookView>,
    pub trades: Seq<WireTradeView>,
    pub liquidation_trades: Seq<WireTradeView>,
    pub nonce: Option<u64>,
}

/// The model of an optional book.
pub open spec fn optional_book(book: Option<WireBook>) -> Option<WireBookView> {
    match book {
        Some(book) => Some(book@),
        None => None,
    }
}

impl View for WireEnvelope {
    type V = EnvelopeView;

    open spec fn view(&self) -> EnvelopeView {
        EnvelopeView {
            kind: self.kind@,
            channel: self.channel@,
            order_book: optional_book(self.order_book),
            trades: trade_views(self.trades@),
            liquidation_trades: trade_views(self.liquidation_trades@),
            nonce: self.nonce,
        }
    }
}

/// The level that a text stands for.
pub open spec fn level_value(bytes: Seq<u8>) -> Option<WireLevelView> {
    match parts_of(bytes) {
        Some(parts) => if parts.fits(2, 2) && parts.text("price"@, 0) is Some && parts.text(
            "size"@,
            1,
        ) is Some {
            Some(
                WireLevelView {
                    price: parts.text("price"@, 0)->Some_0,
                    size: parts.text("size"@, 1)->Some_0,
                },
            )
        } else {
            None
        },
        None => None,
    }
}

/// Reads levels.
pub open spec fn level_value_reader() -> spec_fn(Seq<u8>) -> Option<WireLevelView> {
    |item: Seq<u8>| level_value(item)
}

/// The levels that a text stands for.
pub open spec fn levels_value(bytes: Seq<u8>) -> Option<Seq<WireLevelView>> {
    match list_items(bytes) {
        Some(items) => all_of(items, level_value_reader()),
        None => None,
    }
}

/// The levels of a field.
pub open spec fn levels_at(parts: PartsView, key: Seq<char>, place: nat) -> Option<
    Seq<WireLevelView>,
> {
    match parts.part(key, place) {
        FieldView::Given(bytes) => levels_value(bytes),
        _ => None,
    }
}

/// The book that a text stands for.
pub open spec fn book_value(bytes: Seq<u8>) -> Option<WireBookView> {
    match parts_of(bytes) {
        Some(parts) => if parts.fits(5, 5) && levels_at(parts, "asks"@, 0) is Some && levels_at(
            parts,
            "bids"@,
            1,
        ) is Some && parts.number("nonce"@, 2) is Some && parts.number("begin_nonce"@, 3) is Some
            && parts.number("last_updated_at"@, 4) is Some {
            Some(
                WireBookView {
                    asks: levels_at(parts, "asks"@, 0)->Some_0,
                    bids: levels_at(parts, "bids"@, 1)->Some_0,
                    nonce: parts.number("nonce"@, 2)->Some_0,
                    begin_nonce: parts.number("begin_nonce"@, 3)->Some_0,
                    last_updated_at: parts.number("last_updated_at"@, 4)->Some_0,
                },
            )
        } else {
            None
        },
        None => None,
    }
}

/// The trade that a text stands for.
pub open spec fn trade_value(bytes: Seq<u8>) -> Option<WireTradeView> {
    match parts_of(bytes) {
        Some(parts) => if parts.fits(8, 8) && parts.text("trade_id_str"@, 0) is Some && parts.text(
            "type"@,
            1,
        ) is Some && parts.small_number("market_id"@, 2) is Some && parts.text("size"@, 3) is Some
            && parts.text("price"@, 4) is Some && parts.truth("is_maker_ask"@, 5) is Some
            && parts.number("timestamp"@, 6) is Some && parts.number("transaction_time"@, 7)
            is Some {
            Some(
                WireTradeView {
                    trade_id_str: parts.text("trade_id_str"@, 0)->Some_0,
                    kind: parts.text("type"@, 1)->Some_0,
                    market_id: parts.small_number("market_id"@, 2)->Some_0,
                    size: parts.text("size"@, 3)->Some_0,
                    price: parts.text("price"@, 4)->Some_0,
                    is_maker_ask: parts.truth("is_maker_ask"@, 5)->Some_0,
                    timestamp: parts.number("timestamp"@, 6)->Some_0,
                    transaction_time: parts.number("transaction_time"@, 7)->Some_0,
                },
            )
        } else {
            None
        },
        None => None,
    }
}

/// Reads trades.
pub open spec fn trade_value_reader() -> spec_fn(Seq<u8>) -> Option<WireTradeView> {
    |item: Seq<u8>| trade_value(item)
}

/// The trades that a text stands for.
pub open spec fn trades_value(bytes: Seq<u8>) -> Option<Seq<WireTradeView>> {
    match list_items(bytes) {
        Some(items) => all_of(items, trade_value_reader()),
        None => None,
    }
}

/// The trades of a field, which may be absent.
pub open spec fn trades_at(parts: PartsView, key: Seq<char>, place: nat) -> Option<
    Seq<WireTradeView>,
> {
    match parts.part(key, place) {
        FieldView::Absent => Some(Seq::empty()),
        FieldView::Given(bytes) => trades_value(bytes),
        FieldView::Repeated => None,
    }
}

/// The text of a field, which may be absent.
pub open spec fn text_or_empty(parts: PartsView, key: Seq<char>, place: nat) -> Option<Seq<char>> {
    if parts.part(key, place) is Absent {
        Some(Seq::empty())
    } else {
        parts.text(key, place)
    }
}

/// The book of a field, which may be absent or null.
pub open spec fn book_or_none(parts: PartsView, key: Seq<char>, place: nat) -> Option<
    Option<WireBookView>,
> {
    match parts.part(key, place) {
        FieldView::Absent => Some(None),
        FieldView::Given(bytes) => if stands_for_null(bytes) {
            Some(None)
        } else {
            match book_value(bytes) {
                Some(book) => Some(Some(book)),
                None => None,
            }
        },
        FieldView::Repeated => None,
    }
}

/// The number of a field, which may be absent or null.
pub open spec fn number_or_none(parts: PartsView, key: Seq<char>, place: nat) -> Option<
    Option<u64>,
> {
    match parts.part(key, place) {
        FieldView::Absent => Some(None),
        FieldView::Given(bytes) => if stands_for_null(bytes) {
            Some(None)
        } else {
            match parts.number(key, place) {
                Some(number) => Some(Some(number)),
                None => None,
            }
        },
        FieldView::Repeated => None,
    }
}

/// The message that fields make up.
pub open spec fn envelope_value(parts: PartsView) -> Option<EnvelopeView> {
    if parts.fits(6, 6) && parts.text("type"@, 0) is Some && text_or_empty(parts, "channel"@, 1)
        is Some && book_or_none(parts, "order_book"@, 2) is Some && trades_at(parts, "trades"@, 3)
        is Some && trades_at(parts, "liquidation_trades"@, 4) is Some && number_or_none(
        parts,
        "nonce"@,
        5,
    ) is Some {
        Some(
            EnvelopeView {
                kind: parts.text("type"@, 0)->Some_0,
                channel: text_or_empty(parts, "channel"@, 1)->Some_0,
                order_book: book_or_none(parts, "order_book"@, 2)->Some_0,
                trades: trades_at(parts, "trades"@, 3)->Some_0,
                liquidation_trades: trades_at(parts, "liquidation_trades"@, 4)->Some_0,
                nonce: number_or_none(parts, "nonce"@, 5)->Some_0,
            },
        )
    } else {
        None
    }
}

/// The message that a text stands for.
pub open spec fn envelope_text(text: Seq<char>) -> Option<EnvelopeView> {
    match parts_of(encode_utf8(text)) {
        Some(parts) => envelope_value(parts),
        None => None,
    }
}

/// What is wrong with a text that stands for no message: what makes it no JSON, or that it
/// lacks the fields of a message.
pub open spec fn message_fault(text: Seq<char>) -> Seq<char> {
    match json_reading(encode_utf8(text)) {
        Err(error) => error,
        Ok(_) => "the fields are not those of a message"@,
    }
}

fn read_level(bytes: &[u8]) -> (level: Option<WireLevel>)
    ensures
        level_value(bytes@) == (match level {
            Some(level) => Some(level@),
            None => None,
        }),
{
    let parts: Parts = match Parts::read(bytes) {
        Some(parts) => parts,
        None => return None,
    };
    if !parts.fits(2, 2) {
        return None;
    }
    match (parts.text("price", 0), parts.text("size", 1)) {
        (Some(price), Some(size)) => Some(WireLevel { price, size }),
        _ => None,
    }
}

fn read_levels(bytes: &[u8]) -> (levels: Option<Vec<WireLevel>>)
    ensures
        levels_value(bytes@) == (match levels {
            Some(levels) => Some(level_views(levels@)),
            None => None,
        }),
{
    let items: Vec<&[u8]> = match split_list(bytes) {
        Some(items) => items,
        None => return None,
    };
    let ghost contents = item_views(items@);
    let mut levels: Vec<WireLevel> = Vec::new();
    let mut i: usize = 0;
    assert(contents.take(0) =~= Seq::<Seq<u8>>::empty());
    assert(level_views(levels@) =~= Seq::<WireLevelView>::empty());
    while i < items.len()
        invariant
            i <= items.len(),
            contents == item_views(items@),
            list_items(bytes@) == Some(contents),
            all_of(contents.take(i as int), level_value_reader()) == Some(level_views(levels@)),
        decreases items.len() - i,
    {
        proof {
            assert(contents[i as int] == items@[i as int]@);
            lemma_all_of_step(contents, i as int, level_value_reader());
        }
        let ghost before = levels@;
        match read_level(items[i]) {
            Some(level) => {
                levels.push(level);
                assert(level_views(levels@) =~= level_views(before).push(level@));
            },
            None => {
                return None;
            },
        }
        i = i + 1;
    }
    assert(contents.take(i as int) =~= contents);
    Some(levels)
}

fn read_levels_at(parts: &Parts, key: &str, place: usize) -> (levels: Option<Vec<WireLevel>>)
    ensures
        levels_at(parts@, key@, place as nat) == (match levels {
            Some(levels) => Some(level_views(levels@)),
            None => None,
        }),
{
    match parts.part(key, place) {
        Field::Given(bytes) => read_levels(bytes),
        _ => None,
    }
}

fn read_book(bytes: &[u8]) -> (book: Option<WireBook>)
    ensures
        optional_book(book) == book_value(bytes@),
{
    let parts: Parts = match Parts::read(bytes) {
        Some(parts) => parts,
        None => return None,
    };
    if !parts.fits(5, 5) {
        return None;
    }
    match (
        read_levels_at(&parts, "asks", 0),
        read_levels_at(&parts, "bids", 1),
        parts.number("nonce", 2),
        parts.number("begin_nonce", 3),
        parts.number("last_updated_at", 4),
    ) {
        (
            Some(asks),
            Some(bids),
            Some(nonce),
            Some(begin_nonce),
            Some(last_updated_at),
        ) => Some(WireBook { asks, bids, nonce, begin_nonce, last_updated_at }),
        _ => None,
    }
}

fn read_trade(bytes: &[u8]) -> (trade: Option<WireTrade>)
    ensures
        trade_value(bytes@) == (match trade {
            Some(trade) => Some(trade@),
            None => None,
        }),
{
    let parts: Parts = match Parts::read(bytes) {
        Some(parts) => parts,
        None => return None,
    };
    if !parts.fits(8, 8) {
        return None;
    }
    match (
        parts.text("trade_id_str", 0),
        parts.text("type", 1),
        parts.small_number("market_id", 2),
        parts.text("size", 3),
        parts.text("price", 4),
        parts.truth("is_maker_ask", 5),
        parts.number("timestamp", 6),
        parts.number("transaction_time", 7),
    ) {
        (
            Some(trade_id_str),
            Some(kind),
            Some(market_id),
            Some(size),
            Some(price),
            Some(is_maker_ask),
            Some(timestamp),
            Some(transaction_time),
        ) => Some(
            WireTrade {
                trade_id_str,
                kind,
                market_id,
                size,
                price,
                is_maker_ask,
                timestamp,
                transaction_time,
            },
        ),
        _ => None,
    }
}

fn read_trades(bytes: &[u8]) -> (trades: Option<Vec<WireTrade>>)
    ensures
        trades_value(bytes@) == (match trades {
            Some(trades) => Some(trade_views(trades@)),
            None => None,
        }),
{
    let items: Vec<&[u8]> = match split_list(bytes) {
        Some(items) => items,
        None => return None,
    };
    let ghost contents = item_views(items@);
    let mut trades: Vec<WireTrade> = Vec::new();
    let mut i: usize = 0;
    assert(contents.take(0) =~= Seq::<Seq<u8>>::empty());
    assert(trade_views(trades@) =~= Seq::<WireTradeView>::empty());
    while i < items.len()
        invariant
            i <= items.len(),
            contents == item_views(items@),
            list_items(bytes@) == Some(contents),
            all_of(contents.take(i as int), trade_value_reader()) == Some(trade_views(trades@)),
        decreases items.len() - i,
    {
        proof {
            assert(contents[i as int] == items@[i as int]@);
            lemma_all_of_step(contents, i as int, trade_value_reader());
        }
        let ghost before = trades@;
        match read_trade(items[i]) {
            Some(trade) => {
                trades.push(trade);
                assert(trade_views(trades@) =~= trade_views(before).push(trade@));
            },
            None => {
                return None;
            },
        }
        i = i + 1;
    }
    assert(contents.take(i as int) =~= contents);
    Some(trades)
}

fn read_trades_at(parts: &Parts, key: &str, place: usize) -> (trades: Option<Vec<WireTrade>>)
    ensures
        trades_at(parts@, key@, place as nat) == (match trades {
            Some(trades) => Some(trade_views(trades@)),
            None => None,
        }),
{
    match parts.part(key, place) {
        Field::Absent => {
            let trades: Vec<WireTrade> = Vec::new();
            assert(trade_views(trades@) =~= Seq::<WireTradeView>::empty());
            Some(trades)
        },
        Field::Given(bytes) => read_trades(bytes),
        Field::Repeated => None,
    }
}

fn read_text_or_empty(parts: &Parts, key: &str, place: usize) -> (text: Option<String>)
    ensures
        crate::text::optional_text(text) == text_or_empty(parts@, key@, place as nat),
{
    match parts.part(key, place) {
        Field::Absent => {
            let text: String = String::new();
            assert(text@ =~= Seq::<char>::empty());
            Some(text)
        },
        _ => parts.text(key, place),
    }
}

fn read_book_or_none(parts: &Parts, key: &str, place: usize) -> (book: Option<Option<WireBook>>)
    ensures
        book_or_none(parts@, key@, place as nat) == (match book {
            Some(book) => Some(optional_book(book)),
            None => None,
        }),
{
    match parts.part(key, place) {
        Field::Absent => Some(None),
        Field::Given(bytes) => {
            if is_null(bytes) {
                return Some(None);
            }
            match read_book(bytes) {
                Some(book) => Some(Some(book)),
                None => None,
            }
        },
        Field::Repeated => None,
    }
}

fn read_number_or_none(parts: &Parts, key: &str, place: usize) -> (number: Option<Option<u64>>)
    ensures
        number == number_or_none(parts@, key@, place as nat),
{
    match parts.part(key, place) {
        Field::Absent => Some(None),
        Field::Given(bytes) => {
            if is_null(bytes) {
                return Some(None);
            }
            match parts.number(key, place) {
                Some(number) => Some(Some(number)),
                None => None,
            }
        },
        Field::Repeated => None,
    }
}

/// Says what is wrong with a text that stands for no message.
pub(crate) fn fault_of(text: &str) -> (fault: String)
    ensures
        fault@ == message_fault(text@),
{
    match parse_json(text.as_bytes()) {
        Err(error) => error,
        Ok(_) => "the fields are not those of a message".to_owned(),
    }
}

impl WireEnvelope {
    /// Reads a message.
    pub fn parse(text: &str) -> (envelope: Option<WireEnvelope>)
        ensures
            envelope_text(text@) == (match envelope {
                Some(envelope) => Some(envelope@),
                None => None,
            }),
    {
        let parts: Parts = match Parts::read(text.as_bytes()) {
            Some(parts) => parts,
            None => return None,
        };
        if !parts.fits(6, 6) {
            return None;
        }
        match (
            parts.text("type", 0),
            read_text_or_empty(&parts, "channel", 1),
            read_book_or_none(&parts, "order_book", 2),
            read_trades_at(&parts, "trades", 3),
            read_trades_at(&parts, "liquidation_trades", 4),
            read_number_or_none(&parts, "nonce", 5),
        ) {
            (
                Some(kind),
                Some(channel),
                Some(order_book),
                Some(trades),
                Some(liquidation_trades),
                Some(nonce),
            ) => Some(
                WireEnvelope { kind, channel, order_book, trades, liquidation_trades, nonce },
            ),
            _ => None,
        }
    }
}

/// The number that a text stands for: digits, perhaps behind a plus sign.
pub open spec fn u32_text(text: Seq<char>) -> Option<u32> {
    let digits = if text.len() > 1 && text[0] == '+' {
        text.skip(1)
    } else {
        text
    };
    if digits.len() > 0 && all_digits(digits) && digits_value(digits) <= u32::MAX {
        Some(digits_value(digits) as u32)
    } else {
        None
    }
}

/// The number of a market behind a prefix.
pub open spec fn channel_market(channel: Seq<char>, prefix: Seq<char>) -> Option<u32> {
    if prefix.is_prefix_of(channel) {
        u32_text(channel.skip(prefix.len() as int))
    } else {
        None
    }
}

proof fn lemma_digits_grow(digits: Seq<char>, i: int)
    requires
        0 <= i <= digits.len(),
    ensures
        digits_value(digits.take(i)) <= digits_value(digits),
    decreases digits.len() - i,
{
    if i == digits.len() {
        assert(digits.take(i) =~= digits);
    } else {
        assert(digits.take(i + 1).drop_last() =~= digits.take(i));
        lemma_digits_grow(digits, i + 1);
    }
}

fn parse_digits(chars: &Vec<char>, start: usize) -> (number: Option<u32>)
    requires
        start <= chars@.len(),
    ensures
        ({
            let digits = chars@.skip(start as int);
            number == if digits.len() > 0 && all_digits(digits) && digits_value(digits)
                <= u32::MAX {
                Some(digits_value(digits) as u32)
            } else {
                None::<u32>
            }
        }),
{
    let ghost digits = chars@.skip(start as int);
    if start == chars.len() {
        return None;
    }
    let mut value: u64 = 0;
    let mut i: usize = start;
    assert(digits.take(0) =~= Seq::<char>::empty());
    while i < chars.len()
        invariant
            start <= i <= chars.len(),
            digits == chars@.skip(start as int),
            value <= u32::MAX,
            value == digits_value(digits.take(i - start)),
            forall|j: int| 0 <= j < i - start ==> is_digit(#[trigger] digits[j]),
        decreases chars.len() - i,
    {
        let c: char = chars[i];
        assert(digits[i - start] == c);
        if !('0' <= c && c <= '9') {
            return None;
        }
        let ghost place = i - start;
        value = value * 10 + (c as u32 as u64 - 48);
        proof {
            assert(digits.take(place + 1).drop_last() =~= digits.take(place));
            assert(digits.take(place + 1).last() == c);
            lemma_digits_grow(digits, place + 1);
        }
        if value > u32::MAX as u64 {
            return None;
        }
        i = i + 1;
    }
    assert(digits.take(i - start) =~= digits);
    Some(value as u32)
}

/// The number of a market behind a prefix.
pub fn market_id_behind(channel: &str, prefix: &str) -> (id: Option<u32>)
    ensures
        id == channel_market(channel@, prefix@),
{
    let chars: Vec<char> = chars_of(channel);
    let head: Vec<char> = chars_of(prefix);
    if head.len() > chars.len() {
        return None;
    }
    let mut i: usize = 0;
    while i < head.len()
        invariant
            i <= head.len() <= chars.len(),
            chars@ == channel@,
            head@ == prefix@,
            forall|j: int| 0 <= j < i ==> channel@[j] == #[trigger] prefix@[j],
        decreases head.len() - i,
    {
        if chars[i] != head[i] {
            assert(channel@[i as int] != prefix@[i as int]);
            assert(!prefix@.is_prefix_of(channel@));
            return None;
        }
        i = i + 1;
    }
    assert(channel@.subrange(0, prefix@.len() as int) =~= prefix@);
    let ghost rest = channel@.skip(i as int);
    if chars.len() - i > 1 && chars[i] == '+' {
        assert(rest.skip(1) =~= chars@.skip(i + 1));
        parse_digits(&chars, i + 1)
    } else {
        assert(rest =~= chars@.skip(i as int));
        parse_digits(&chars, i)
    }
}

/// The character in lower case, if it is an ASCII letter.
pub open spec fn ascii_lower(c: char) -> char {
    if 'A' <= c <= 'Z' {
        (c as u32 + 32) as char
    } else {
        c
    }
}

/// The text with its ASCII letters in lower case.
pub open spec fn ascii_lower_case(text: Seq<char>) -> Seq<char> {
    text.map_values(|c: char| ascii_lower(c))
}

fn ascii_lower_text(text: &str) -> (lower: String)
    ensures
        lower@ == ascii_lower_case(text@),
{
    let mut chars: Vec<char> = chars_of(text);
    let mut lower: Vec<char> = Vec::new();
    let mut i: usize = 0;
    while i < chars.len()
        invariant
            i <= chars.len(),
            chars@ == text@,
            lower@.len() == i,
            forall|j: int| 0 <= j < i ==> #[trigger] lower@[j] == ascii_lower(text@[j]),
        decreases chars.len() - i,
    {
        let c: char = chars[i];
        if 'A' <= c && c <= 'Z' {
            let code: u8 = c as u8;
            lower.push((code + 32) as char);
        } else {
            lower.push(c);
        }
        i = i + 1;
    }
    assert(lower@ =~= ascii_lower_case(text@));
    string_of(lower.as_slice())
}

/// Why a trade took place, by the venue's word for it in any case. A word that is not known
/// is something else.
pub open spec fn trade_kind(word: Seq<char>) -> MarketTradeKind {
    let lower = ascii_lower_case(word);
    if lower == "trade"@ || lower == "regular"@ {
        MarketTradeKind::Regular
    } else if lower == "liquidation"@ {
        MarketTradeKind::Liquidation
    } else if lower == "deleverage"@ {
        MarketTradeKind::Deleverage
    } else if lower == "market_settlement"@ || lower == "market-settlement"@ {
        MarketTradeKind::MarketSettlement
    } else {
        MarketTradeKind::Other
    }
}

/// Why a trade took place.
pub fn decode_trade_kind(value: &str) -> (kind: MarketTradeKind)
    ensures
        kind == trade_kind(value@),
{
    let lower: String = ascii_lower_text(value);
    if same_text(lower.as_str(), "trade") || same_text(lower.as_str(), "regular") {
        MarketTradeKind::Regular
    } else if same_text(lower.as_str(), "liquidation") {
        MarketTradeKind::Liquidation
    } else if same_text(lower.as_str(), "deleverage") {
        MarketTradeKind::Deleverage
    } else if same_text(lower.as_str(), "market_settlement") || same_text(
        lower.as_str(),
        "market-settlement",
    ) {
        MarketTradeKind::MarketSettlement
    } else {
        MarketTradeKind::Other
    }
}

/// What is said of a trade of another market.
pub open spec fn unexpected_trade_market(expected: u32, actual: u32) -> Seq<char> {
    "expected Lighter market ID "@ + decimal(expected as nat) + ", received "@ + decimal(
        actual as nat,
    )
}

/// The trade that a delivered trade stands for, or why it stands for none.
pub open spec fn trade_reading(
    market_id: u32,
    coin: Seq<char>,
    message_nonce: Option<u64>,
    wire: WireTradeView,
    local_receive: LocalObservationTime,
    processing_completed: LocalObservationTime,
) -> Result<TradeView, Seq<char>> {
    if wire.market_id != market_id {
        Err(unexpected_trade_market(market_id, wire.market_id))
    } else {
        match price_reading(wire.price) {
            Err(error) => Err(trade_part_error(Venue::Lighter, "price"@, error)),
            Ok(price) => match quantity_reading(wire.size) {
                Err(error) => Err(trade_part_error(Venue::Lighter, "quantity"@, error)),
                Ok(quantity) => Ok(
                    TradeView {
                        venue: Venue::Lighter,
                        coin,
                        timestamps: TimestampsView {
                            exchange_times: seq![
                                ExchangeTimeObservation {
                                    kind: ExchangeTimeKind::EventTime,
                                    raw_value: wire.timestamp,
                                    declared_unit: ExchangeTimeUnit::Unknown,
                                },
                                ExchangeTimeObservation {
                                    kind: ExchangeTimeKind::TransactionTime,
                                    raw_value: wire.transaction_time,
                                    declared_unit: ExchangeTimeUnit::Unknown,
                                },
                            ],
                            local_receive,
                            processing_completed,
                        },
                        price,
                        quantity,
                        reporting_kind: MarketTradeReportingKind::Individual,
                        trade_kind: trade_kind(wire.kind),
                        aggressor_side: if wire.is_maker_ask {
                            AggressorSide::Buy
                        } else {
                            AggressorSide::Sell
                        },
                        aggressor_side_classification:
                            AggressorSideClassification::DerivedFromMakerSide,
                        identity: IdentityView::Lighter {
                            market_id: wire.market_id,
                            trade_id: wire.trade_id_str,
                            message_nonce,
                        },
                    },
                ),
            },
        }
    }
}

/// The trade that a delivered trade stands for. A maker that sold makes the buyer the
/// aggressor.
pub fn decode_trade(
    wire: &WireTrade,
    expected_market_id: u32,
    market_coin: &MarketCoin,
    message_nonce: Option<u64>,
    local_receive: LocalObservationTime,
    processing_completed: LocalObservationTime,
) -> (result: Result<MarketTrade, String>)
    ensures
        trade_reading(
            expected_market_id,
            market_coin@,
            message_nonce,
            wire@,
            local_receive,
            processing_completed,
        ) == (match result {
            Ok(trade) => Ok::<TradeView, Seq<char>>(trade@),
            Err(error) => Err(error@),
        }),
{
    if wire.market_id != expected_market_id {
        let mut text: String = "expected Lighter market ID ".to_owned();
        text.append(decimal_text(expected_market_id as u128).as_str());
        text.append(", received ");
        text.append(decimal_text(wire.market_id as u128).as_str());
        return Err(text);
    }
    let price: Price = match read_price(wire.price.as_str()) {
        Ok(price) => price,
        Err(error) => return Err(trade_part_error_text(Venue::Lighter, "price", error)),
    };
    let quantity: Quantity = match read_quantity(wire.size.as_str()) {
        Ok(quantity) => quantity,
        Err(error) => return Err(trade_part_error_text(Venue::Lighter, "quantity", error)),
    };
    let aggressor_side: AggressorSide = if wire.is_maker_ask {
        AggressorSide::Buy
    } else {
        AggressorSide::Sell
    };
    let mut times: Vec<ExchangeTimeObservation> = Vec::new();
    times.push(
        ExchangeTimeObservation::new(
            ExchangeTimeKind::EventTime,
            wire.timestamp,
            ExchangeTimeUnit::Unknown,
        ),
    );
    times.push(
        ExchangeTimeObservation::new(
            ExchangeTimeKind::TransactionTime,
            wire.transaction_time,
            ExchangeTimeUnit::Unknown,
        ),
    );
    assert(times@ =~= trade_reading(
        expected_market_id,
        market_coin@,
        message_nonce,
        wire@,
        local_receive,
        processing_completed,
    )->Ok_0.timestamps.exchange_times);
    Ok(
        MarketTrade::new(
            Venue::Lighter,
            Symbol::perpetual(market_coin.clone()),
            EventTimestamps::new(times, local_receive, processing_completed),
            price,
            quantity,
            MarketTradeReportingKind::Individual,
            decode_trade_kind(wire.kind.as_str()),
            aggressor_side,
            AggressorSideClassification::DerivedFromMakerSide,
            MarketTradeIdentity::Lighter {
                market_id: wire.market_id,
                trade_id: wire.trade_id_str.clone(),
                message_nonce,
            },
        ),
    )
}

} // verus!
