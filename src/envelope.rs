//! The envelope of every gateway frame: `{"m": type, "i": sequence, "n":
//! name, "o": payload}`, where the payload is itself a JSON document kept as
//! a string.

use vstd::prelude::*;

use crate::decimal::{i64_of, parse_i64};
use crate::json::{json_object, json_string, parse_object, quote, JsonScalar, ScalarModel};
use crate::text::{i64_text, int_text, nat_text, same_text, u128_text};

verus! {

/// Key of the message type.
pub const TYPE_KEY: &'static str = "m";

/// Key of the sequence number.
pub const SEQUENCE_KEY: &'static str = "i";

/// Key of the message name.
pub const NAME_KEY: &'static str = "n";

/// Key of the payload.
pub const PAYLOAD_KEY: &'static str = "o";

/// A decoded frame. The message type and sequence number are passed through
/// as the exchange sent them; the payload is left for the decoder that the
/// name selects.
#[derive(Debug, PartialEq, Eq)]
pub struct Envelope {
    pub message_type: Option<i64>,
    pub sequence_id: Option<i64>,
    pub name: String,
    pub payload: Option<String>,
}

/// The mathematical value of an [`Envelope`].
pub struct EnvelopeModel {
    pub message_type: Option<i64>,
    pub sequence_id: Option<i64>,
    pub name: Seq<char>,
    pub payload: Option<Seq<char>>,
}

impl View for Envelope {
    type V = EnvelopeModel;

    open spec fn view(&self) -> EnvelopeModel {
        EnvelopeModel {
            message_type: self.message_type,
            sequence_id: self.sequence_id,
            name: self.name@,
            payload: match self.payload {
                Some(p) => Some(p@),
                None => None,
            },
        }
    }
}

/// Why a frame could not be decoded.
#[derive(Clone, Copy, Debug, PartialEq, Eq, Structural)]
pub enum DecodeError {
    /// The frame is not a JSON object, or has no string field `n`.
    MalformedEnvelope,
}

/// The value of the first field of `fields` under `key`.
pub open spec fn field_of(fields: Seq<(Seq<char>, ScalarModel)>, key: Seq<char>) -> Option<
    ScalarModel,
>
    decreases fields.len(),
{
    if fields.len() == 0 {
        None
    } else if fields[0].0 == key {
        Some(fields[0].1)
    } else {
        field_of(fields.drop_first(), key)
    }
}

/// The integer in the field under `key`, if it holds one.
pub open spec fn integer_field(fields: Seq<(Seq<char>, ScalarModel)>, key: Seq<char>) -> Option<
    i64,
> {
    match field_of(fields, key) {
        Some(ScalarModel::Number(t)) => i64_of(t),
        _ => None,
    }
}

/// The string in the field under `key`, if it holds one.
pub open spec fn text_field(fields: Seq<(Seq<char>, ScalarModel)>, key: Seq<char>) -> Option<
    Seq<char>,
> {
    match field_of(fields, key) {
        Some(ScalarModel::Text(t)) => Some(t),
        _ => None,
    }
}

/// The envelope that a frame's fields make, if they name a message.
pub open spec fn envelope_of_fields(fields: Seq<(Seq<char>, ScalarModel)>) -> Option<
    EnvelopeModel,
> {
    match text_field(fields, NAME_KEY@) {
        Some(name) => Some(
            EnvelopeModel {
                message_type: integer_field(fields, TYPE_KEY@),
                sequence_id: integer_field(fields, SEQUENCE_KEY@),
                name,
                payload: text_field(fields, PAYLOAD_KEY@),
            },
        ),
        None => None,
    }
}

/// The outer document of a frame, written with its fields in the order
/// `i`, `m`, `n`, `o`.
pub open spec fn envelope_text(
    message_type: int,
    sequence_id: int,
    name: Seq<char>,
    payload: Seq<char>,
) -> Seq<char> {
    seq!['{'] + json_string(SEQUENCE_KEY@) + seq![':'] + int_text(sequence_id) + seq![','] + json_string(TYPE_KEY@)
        + seq![':'] + int_text(message_type) + seq![','] + json_string(NAME_KEY@) + seq![':']
        + json_string(name) + seq![','] + json_string(PAYLOAD_KEY@) + seq![':'] + json_string(payload)
        + seq!['}']
}

/// The value under `key`, as `field_of` says.
fn find_field<'a>(fields: &'a Vec<(String, JsonScalar)>, key: &str) -> (r: Option<&'a JsonScalar>)
    ensures
        match r {
            Some(v) => field_of(fields.deep_view(), key@) == Some(v.deep_view()),
            None => field_of(fields.deep_view(), key@).is_none(),
        },
{
    let ghost all = fields.deep_view();
    let mut i: usize = 0;
    proof {
        assert(all.skip(0) =~= all);
    }
    while i < fields.len()
        invariant
            i <= fields@.len(),
            all == fields.deep_view(),
            field_of(all, key@) == field_of(all.skip(i as int), key@),
        decreases fields@.len() - i,
    {
        let ghost rest = all.skip(i as int);
        proof {
            assert(rest[0] == fields@[i as int].deep_view());
            assert(rest.drop_first() =~= all.skip(i + 1));
        }
        if same_text(fields[i].0.as_str(), key) {
            return Some(&fields[i].1);
        }
        i = i + 1;
    }
    proof {
        assert(all.skip(i as int).len() == 0);
    }
    None
}

/// The integer under `key`, as `integer_field` says.
fn read_integer(fields: &Vec<(String, JsonScalar)>, key: &str) -> (r: Option<i64>)
    ensures
        r == integer_field(fields.deep_view(), key@),
{
    match find_field(fields, key) {
        Some(JsonScalar::Number(t)) => parse_i64(t.as_str()),
        _ => None,
    }
}

/// The string under `key`, as `text_field` says.
fn read_text(fields: &Vec<(String, JsonScalar)>, key: &str) -> (r: Option<String>)
    ensures
        match r {
            Some(t) => text_field(fields.deep_view(), key@) == Some(t@),
            None => text_field(fields.deep_view(), key@).is_none(),
        },
{
    match find_field(fields, key) {
        Some(JsonScalar::Text(t)) => Some(t.clone()),
        _ => None,
    }
}

/// Builds the envelope from the fields of a parsed frame: `Ok` exactly when
/// they hold a string name.
pub fn envelope_from_fields(fields: &Vec<(String, JsonScalar)>) -> (r: Result<
    Envelope,
    DecodeError,
>)
    ensures
        match envelope_of_fields(fields.deep_view()) {
            Some(m) => r matches Ok(e) && e@ == m,
            None => r == Err::<Envelope, DecodeError>(DecodeError::MalformedEnvelope),
        },
{
    match read_text(fields, NAME_KEY) {
        Some(name) => {
            let message_type = read_integer(fields, TYPE_KEY);
            let sequence_id = read_integer(fields, SEQUENCE_KEY);
            let payload = read_text(fields, PAYLOAD_KEY);
            Ok(Envelope { message_type, sequence_id, name, payload })
        },
        None => Err(DecodeError::MalformedEnvelope),
    }
}

/// Decodes the outer document of a frame. Fails with `MalformedEnvelope`
/// exactly when `raw` is not a JSON object or has no string name; the
/// payload is not read.
pub fn decode_envelope(raw: &str) -> (r: Result<Envelope, DecodeError>)
    ensures
        match json_object(raw@) {
            Some(fields) => match envelope_of_fields(fields) {
                Some(m) => r matches Ok(e) && e@ == m,
                None => r == Err::<Envelope, DecodeError>(DecodeError::MalformedEnvelope),
            },
            None => r == Err::<Envelope, DecodeError>(DecodeError::MalformedEnvelope),
        },
{
    match parse_object(raw) {
        Some(fields) => envelope_from_fields(&fields),
        None => Err(DecodeError::MalformedEnvelope),
    }
}

/// Writes the outer document of a frame; `payload` is already serialized
/// and goes in as a string.
pub fn encode_envelope(message_type: i64, sequence_id: i64, name: &str, payload: &str) -> (r:
    String)
    ensures
        r@ == envelope_text(message_type as int, sequence_id as int, name@, payload@),
{
    let mut out = String::new();
    out.append("{");
    out.append(quote(SEQUENCE_KEY).as_str());
    out.append(":");
    out.append(i64_text(sequence_id).as_str());
    out.append(",");
    out.append(quote(TYPE_KEY).as_str());
    out.append(":");
    out.append(i64_text(message_type).as_str());
    out.append(",");
    out.append(quote(NAME_KEY).as_str());
    out.append(":");
    out.append(quote(name).as_str());
    out.append(",");
    out.append(quote(PAYLOAD_KEY).as_str());
    out.append(":");
    out.append(quote(payload).as_str());
    out.append("}");
    proof {
        reveal_strlit("{");
        reveal_strlit(":");
        reveal_strlit(",");
        reveal_strlit("}");
        assert(out@ =~= envelope_text(message_type as int, sequence_id as int, name@, payload@));
    }
    out
}

/// The outer document of a frame that carries no payload, with its fields in
/// the order `i`, `m`, `n`.
pub open spec fn bare_envelope_text(message_type: int, sequence_id: int, name: Seq<char>) -> Seq<
    char,
> {
    seq!['{'] + json_string(SEQUENCE_KEY@) + seq![':'] + int_text(sequence_id) + seq![','] + json_string(TYPE_KEY@)
        + seq![':'] + int_text(message_type) + seq![','] + json_string(NAME_KEY@) + seq![':']
        + json_string(name) + seq!['}']
}

/// Writes the outer document of a frame that carries no payload, such as a
/// keep-alive ping.
pub fn encode_bare_envelope(message_type: i64, sequence_id: i64, name: &str) -> (r: String)
    ensures
        r@ == bare_envelope_text(message_type as int, sequence_id as int, name@),
{
    let mut out = String::new();
    out.append("{");
    out.append(quote(SEQUENCE_KEY).as_str());
    out.append(":");
    out.append(i64_text(sequence_id).as_str());
    out.append(",");
    out.append(quote(TYPE_KEY).as_str());
    out.append(":");
    out.append(i64_text(message_type).as_str());
    out.append(",");
    out.append(quote(NAME_KEY).as_str());
    out.append(":");
    out.append(quote(name).as_str());
    out.append("}");
    proof {
        reveal_strlit("{");
        reveal_strlit(":");
        reveal_strlit(",");
        reveal_strlit("}");
        assert(out@ =~= bare_envelope_text(message_type as int, sequence_id as int, name@));
    }
    out
}

/// Opening of a trade subscription payload, up to its count of past trades.
pub const TRADE_SUBSCRIPTION_HEAD: &'static str = "{\"IncludeLastCount\":";

/// Opening of a book subscription payload, up to its depth.
pub const BOOK_SUBSCRIPTION_HEAD: &'static str = "{\"Depth\":";

/// Separator before the instrument id of a subscription payload.
pub const INSTRUMENT_PART: &'static str = ",\"InstrumentId\":";

/// Separator before the order management system of a subscription payload.
pub const OMS_PART: &'static str = ",\"OMSId\":";

/// Closing of a subscription payload.
pub const PAYLOAD_END: &'static str = "}";

/// A subscription payload: `head` and its number, then the instrument id and
/// the order management system, keys in alphabetical order.
pub open spec fn subscription_text(head: Seq<char>, count: nat, instrument_id: nat, oms_id: nat) -> Seq<
    char,
> {
    head + nat_text(count) + INSTRUMENT_PART@ + nat_text(instrument_id) + OMS_PART@ + nat_text(oms_id)
        + PAYLOAD_END@
}

fn subscription(head: &str, count: u64, instrument_id: u64, oms_id: u64) -> (r: String)
    ensures
        r@ == subscription_text(head@, count as nat, instrument_id as nat, oms_id as nat),
{
    let mut out = String::new();
    out.append(head);
    out.append(u128_text(count as u128).as_str());
    out.append(INSTRUMENT_PART);
    out.append(u128_text(instrument_id as u128).as_str());
    out.append(OMS_PART);
    out.append(u128_text(oms_id as u128).as_str());
    out.append(PAYLOAD_END);
    proof {
        assert(out@ =~= subscription_text(head@, count as nat, instrument_id as nat, oms_id as nat));
    }
    out
}

/// The payload of a trade subscription: `{"IncludeLastCount":..,
/// "InstrumentId":..,"OMSId":..}`.
pub fn trade_subscription_payload(oms_id: u64, instrument_id: u64, include_last_count: u64) -> (r:
    String)
    ensures
        r@ == subscription_text(
            TRADE_SUBSCRIPTION_HEAD@,
            include_last_count as nat,
            instrument_id as nat,
            oms_id as nat,
        ),
{
    subscription(TRADE_SUBSCRIPTION_HEAD, include_last_count, instrument_id, oms_id)
}

/// The payload of a book subscription: `{"Depth":..,"InstrumentId":..,
/// "OMSId":..}`.
pub fn book_subscription_payload(oms_id: u64, instrument_id: u64, depth: u64) -> (r: String)
    ensures
        r@ == subscription_text(BOOK_SUBSCRIPTION_HEAD@, depth as nat, instrument_id as nat, oms_id as nat),
{
    subscription(BOOK_SUBSCRIPTION_HEAD, depth, instrument_id, oms_id)
}

} // verus!
