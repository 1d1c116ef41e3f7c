//! Routing of inbound frames: each frame is decoded and, by its name, goes to
//! the order book or to the trade decoder.

use vstd::prelude::*;

use crate::constants::{SUBSCRIBE, SUBSCRIBE_TRADES, UPDATE, UPDATE_TRADES};
use crate::envelope::{decode_envelope, envelope_of_fields, DecodeError, EnvelopeModel};
use crate::json::{json_batch, json_object};
use crate::order_book::{apply_batch, orders_of_rows, payload_tuples, snapshot_records, OrderBook};
use crate::text::same_text;
use crate::trade_event::{decode_trade_batch, trades_of_items, TradeEvent};

verus! {

/// What a frame's name asks for.
#[derive(Clone, Copy, Debug, PartialEq, Eq, Structural)]
pub enum MessageKind {
    /// A book snapshot, the reply to the book subscription.
    BookSnapshot,
    /// An incremental book diff.
    BookUpdate,
    /// The acknowledgement of the trade subscription; informational only.
    TradeSubscription,
    /// A batch of trades.
    TradeUpdate,
    /// A name this client does not handle.
    Other,
}

/// The kind of message that `name` names.
pub open spec fn kind_of(name: Seq<char>) -> MessageKind {
    if name == SUBSCRIBE@ {
        MessageKind::BookSnapshot
    } else if name == UPDATE@ {
        MessageKind::BookUpdate
    } else if name == SUBSCRIBE_TRADES@ {
        MessageKind::TradeSubscription
    } else if name == UPDATE_TRADES@ {
        MessageKind::TradeUpdate
    } else {
        MessageKind::Other
    }
}

/// Classifies a message name.
pub fn classify(name: &str) -> (r: MessageKind)
    ensures
        r == kind_of(name@),
{
    if same_text(name, SUBSCRIBE) {
        MessageKind::BookSnapshot
    } else if same_text(name, UPDATE) {
        MessageKind::BookUpdate
    } else if same_text(name, SUBSCRIBE_TRADES) {
        MessageKind::TradeSubscription
    } else if same_text(name, UPDATE_TRADES) {
        MessageKind::TradeUpdate
    } else {
        MessageKind::Other
    }
}

/// What handling a frame did.
#[derive(Debug, PartialEq, Eq)]
pub enum FrameEvent {
    /// The frame was a snapshot, handed to the book.
    BookSnapshot,
    /// The frame was a diff, handed to the book.
    BookUpdate,
    /// The trade subscription was acknowledged.
    TradeSubscription,
    /// The trades that the frame carried.
    Trades(Vec<TradeEvent>),
    /// The frame's name is not one this client handles.
    Ignored,
}

/// The envelope of a raw frame, if it decodes.
pub open spec fn frame_envelope(raw: Seq<char>) -> Option<EnvelopeModel> {
    match json_object(raw) {
        Some(fields) => envelope_of_fields(fields),
        None => None,
    }
}

/// The tuples of an envelope's payload, if it has one that reads as a JSON
/// array of arrays.
pub open spec fn payload_rows(e: EnvelopeModel) -> Option<Seq<Seq<Option<Seq<char>>>>> {
    match e.payload {
        Some(p) => payload_tuples(p),
        None => None,
    }
}

/// The items of an envelope's payload, if it has one that reads as a JSON
/// array.
pub open spec fn payload_items(e: EnvelopeModel) -> Option<Seq<Option<Seq<Option<Seq<char>>>>>> {
    match e.payload {
        Some(p) => json_batch(p),
        None => None,
    }
}

/// Handles one inbound frame: decodes its envelope, then hands a snapshot or
/// a diff to `book` and decodes the trades of a trade update. A frame that
/// does not decode fails with `MalformedEnvelope` and changes nothing; so
/// does a frame whose name is not handled, which gives `Ignored`.
pub fn handle_frame(book: &mut OrderBook, raw: &str) -> (r: Result<FrameEvent, DecodeError>)
    ensures
        match frame_envelope(raw@) {
            None => r == Err::<FrameEvent, DecodeError>(DecodeError::MalformedEnvelope)
                && final(book)@ == old(book)@,
            Some(e) => match kind_of(e.name) {
                MessageKind::BookSnapshot => r == Ok::<FrameEvent, DecodeError>(
                    FrameEvent::BookSnapshot,
                ) && final(book)@ == match payload_rows(e) {
                    Some(rows) => snapshot_records(old(book)@.depth, orders_of_rows(rows)),
                    None => old(book)@,
                },
                MessageKind::BookUpdate => r == Ok::<FrameEvent, DecodeError>(
                    FrameEvent::BookUpdate,
                ) && final(book)@ == match payload_rows(e) {
                    Some(rows) => apply_batch(old(book)@, orders_of_rows(rows)),
                    None => old(book)@,
                },
                MessageKind::TradeSubscription => r == Ok::<FrameEvent, DecodeError>(
                    FrameEvent::TradeSubscription,
                ) && final(book)@ == old(book)@,
                MessageKind::TradeUpdate => (r matches Ok(FrameEvent::Trades(ts)) && ts@ == match payload_items(e) {
                    Some(items) => trades_of_items(items),
                    None => Seq::empty(),
                }) && final(book)@ == old(book)@,
                MessageKind::Other => r == Ok::<FrameEvent, DecodeError>(FrameEvent::Ignored)
                    && final(book)@ == old(book)@,
            },
        },
{
    let envelope = match decode_envelope(raw) {
        Ok(e) => e,
        Err(err) => {
            return Err(err);
        },
    };
    match classify(envelope.name.as_str()) {
        MessageKind::BookSnapshot => {
            match &envelope.payload {
                Some(p) => book.initialize(p.as_str()),
                None => {},
            }
            Ok(FrameEvent::BookSnapshot)
        },
        MessageKind::BookUpdate => {
            match &envelope.payload {
                Some(p) => book.update(p.as_str()),
                None => {},
            }
            Ok(FrameEvent::BookUpdate)
        },
        MessageKind::TradeSubscription => Ok(FrameEvent::TradeSubscription),
        MessageKind::TradeUpdate => {
            let trades = match &envelope.payload {
                Some(p) => decode_trade_batch(p.as_str()),
                None => Vec::new(),
            };
            Ok(FrameEvent::Trades(trades))
        },
        MessageKind::Other => Ok(FrameEvent::Ignored),
    }
}

} // verus!
