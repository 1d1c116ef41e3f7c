//! Trade events, decoded from the tuples of a trade-update payload.

use vstd::prelude::*;

use crate::decimal::{parse_u64, u64_of, Decimal};
use crate::json::{json_batch, parse_batch};
use crate::order_book::{cell_decimal, read_cell};

verus! {

/// Number of fields in a trade tuple.
pub const TRADE_FIELDS: usize = 11;

/// One trade, with its fields in the order of the tuple that carries it.
#[derive(Clone, Copy, Debug, PartialEq, Eq, Structural)]
pub struct TradeEvent {
    pub trade_id: u64,
    pub instrument_id: u64,
    pub quantity: Decimal,
    pub price: Decimal,
    pub order_id_1: u64,
    pub order_id_2: u64,
    pub timestamp: u64,
    pub side: u8,
    pub taker_side: u8,
    pub is_block_trade: u8,
    pub client_id: u8,
}

/// The natural number in element `i` of a tuple, if it is a number literal
/// that reads as a `u64`.
pub open spec fn cell_u64(row: Seq<Option<Seq<char>>>, i: int) -> Option<u64> {
    if 0 <= i < row.len() {
        match row[i] {
            Some(t) => u64_of(t),
            None => None,
        }
    } else {
        None
    }
}

/// The low eight bits of a `u64`, as `as u8` keeps them.
pub open spec fn low_byte(v: u64) -> u8 {
    (v % 256) as u8
}

/// The trade that a tuple describes, read by position: `None` when it has
/// fewer than `TRADE_FIELDS` elements or a field does not read.
pub open spec fn trade_of_cells(row: Seq<Option<Seq<char>>>) -> Option<TradeEvent> {
    if row.len() >= TRADE_FIELDS && cell_u64(row, 0) is Some && cell_u64(row, 1) is Some
        && cell_decimal(row, 2) is Some && cell_decimal(row, 3) is Some && cell_u64(row, 4) is Some
        && cell_u64(row, 5) is Some && cell_u64(row, 6) is Some && cell_u64(row, 7) is Some
        && cell_u64(row, 8) is Some && cell_u64(row, 9) is Some && cell_u64(row, 10) is Some {
        Some(
            TradeEvent {
                trade_id: cell_u64(row, 0).unwrap(),
                instrument_id: cell_u64(row, 1).unwrap(),
                quantity: cell_decimal(row, 2).unwrap(),
                price: cell_decimal(row, 3).unwrap(),
                order_id_1: cell_u64(row, 4).unwrap(),
                order_id_2: cell_u64(row, 5).unwrap(),
                timestamp: cell_u64(row, 6).unwrap(),
                side: low_byte(cell_u64(row, 7).unwrap()),
                taker_side: low_byte(cell_u64(row, 8).unwrap()),
                is_block_trade: low_byte(cell_u64(row, 9).unwrap()),
                client_id: low_byte(cell_u64(row, 10).unwrap()),
            },
        )
    } else {
        None
    }
}

/// The trades of a batch, in order; items that are not tuples, and tuples
/// that do not decode, are left out.
pub open spec fn trades_of_items(items: Seq<Option<Seq<Option<Seq<char>>>>>) -> Seq<TradeEvent>
    decreases items.len(),
{
    if items.len() == 0 {
        Seq::empty()
    } else {
        let rest = trades_of_items(items.drop_last());
        match items.last() {
            Some(row) => match trade_of_cells(row) {
                Some(t) => rest.push(t),
                None => rest,
            },
            None => rest,
        }
    }
}

/// The natural number in element `i` of `tuple`, as `cell_u64` says.
fn read_u64(tuple: &Vec<Option<String>>, i: usize) -> (r: Option<u64>)
    ensures
        r == cell_u64(tuple.deep_view(), i as int),
{
    if i >= tuple.len() {
        return None;
    }
    match &tuple[i] {
        Some(t) => parse_u64(t.as_str()),
        None => None,
    }
}

/// Element `i` of `tuple` cut to a byte, as `cell_u64` and `low_byte` say.
fn read_byte(tuple: &Vec<Option<String>>, i: usize) -> (r: Option<u8>)
    ensures
        r == (match cell_u64(tuple.deep_view(), i as int) {
            Some(v) => Some(low_byte(v)),
            None => None::<u8>,
        }),
{
    match read_u64(tuple, i) {
        Some(v) => Some((v % 256) as u8),
        None => None,
    }
}

/// Reads one trade tuple by position, or `None` when it is too short or a
/// field does not read.
pub fn decode_trade_tuple(tuple: &Vec<Option<String>>) -> (r: Option<TradeEvent>)
    ensures
        r == trade_of_cells(tuple.deep_view()),
{
    if tuple.len() < TRADE_FIELDS {
        return None;
    }
    let trade_id = read_u64(tuple, 0)?;
    let instrument_id = read_u64(tuple, 1)?;
    let quantity = read_cell(tuple, 2)?;
    let price = read_cell(tuple, 3)?;
    let order_id_1 = read_u64(tuple, 4)?;
    let order_id_2 = read_u64(tuple, 5)?;
    let timestamp = read_u64(tuple, 6)?;
    let side = read_byte(tuple, 7)?;
    let taker_side = read_byte(tuple, 8)?;
    let is_block_trade = read_byte(tuple, 9)?;
    let client_id = read_byte(tuple, 10)?;
    Some(
        TradeEvent {
            trade_id,
            instrument_id,
            quantity,
            price,
            order_id_1,
            order_id_2,
            timestamp,
            side,
            taker_side,
            is_block_trade,
            client_id,
        },
    )
}

/// Reads every item of a batch in order, leaving out those that are not
/// tuples or do not decode.
pub fn decode_trade_tuples(items: &Vec<Option<Vec<Option<String>>>>) -> (r: Vec<TradeEvent>)
    ensures
        r@ == trades_of_items(items.deep_view()),
{
    let ghost rows = items.deep_view();
    let mut out: Vec<TradeEvent> = Vec::new();
    let mut i: usize = 0;
    while i < items.len()
        invariant
            i <= items@.len(),
            rows == items.deep_view(),
            out@ == trades_of_items(rows.take(i as int)),
        decreases items@.len() - i,
    {
        proof {
            assert(rows.take(i + 1).drop_last() =~= rows.take(i as int));
            assert(rows.take(i + 1).last() == items@[i as int].deep_view());
        }
        match &items[i] {
            Some(t) => match decode_trade_tuple(t) {
                Some(t) => out.push(t),
                None => {},
            },
            None => {},
        }
        i = i + 1;
    }
    proof {
        assert(rows.take(items@.len() as int) =~= rows);
    }
    out
}

/// Decodes the trades of a trade-update payload, a JSON array of trade
/// tuples. A payload that is not a JSON array gives no trade; an item that is
/// not a tuple, or does not decode, is left out alone.
pub fn decode_trade_batch(payload: &str) -> (r: Vec<TradeEvent>)
    ensures
        match json_batch(payload@) {
            Some(items) => r@ == trades_of_items(items),
            None => r@.len() == 0,
        },
{
    match parse_batch(payload) {
        Some(items) => decode_trade_tuples(&items),
        None => Vec::new(),
    }
}

} // verus!
