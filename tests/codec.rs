use ndax_client::decimal::{parse_decimal, parse_i64, parse_u64, Decimal};
use ndax_client::envelope::{
    book_subscription_payload, decode_envelope, encode_bare_envelope, encode_envelope,
    trade_subscription_payload, DecodeError, Envelope,
};
use ndax_client::order_book::OrderBook;
use ndax_client::session::{classify, handle_frame, FrameEvent, MessageKind};
use ndax_client::text::{i64_text, same_text, u128_text};
use ndax_client::trade_event::{decode_trade_batch, decode_trade_tuple, TradeEvent};

#[test]
fn decimal_literals() {
    assert_eq!(parse_decimal("5711.80000"), Some(Decimal { units: 571_180_000_000 }));
    assert_eq!(parse_decimal("8.13439401"), Some(Decimal { units: 813_439_401 }));
    assert_eq!(parse_decimal("1"), Some(Decimal { units: 100_000_000 }));
    assert_eq!(parse_decimal("0"), Some(Decimal { units: 0 }));
    assert_eq!(parse_decimal("-0.5"), Some(Decimal { units: -50_000_000 }));
    assert_eq!(parse_decimal("0.123456780"), Some(Decimal { units: 12_345_678 }));
    assert_eq!(parse_decimal("92233720368.54775807"), Some(Decimal { units: i64::MAX }));
}

#[test]
fn decimal_literals_rounded_or_refused() {
    assert_eq!(parse_decimal("0.123456789"), Some(Decimal { units: 12_345_679 }));
    assert_eq!(parse_decimal("92233720368.54775808"), Some(Decimal { units: i64::MAX }));
    assert_eq!(parse_decimal("100000000000"), Some(Decimal { units: i64::MAX }));
    assert_eq!(parse_decimal("-100000000000"), Some(Decimal { units: -i64::MAX }));
    assert_eq!(parse_decimal("1."), None);
    assert_eq!(parse_decimal(".5"), None);
    assert_eq!(parse_decimal("-"), None);
    assert_eq!(parse_decimal(""), None);
    assert_eq!(parse_decimal("abc"), None);
}

#[test]
fn decimal_literals_with_exponent() {
    assert_eq!(parse_decimal("1e5"), Some(Decimal { units: 10_000_000_000_000 }));
    assert_eq!(parse_decimal("1e+5"), Some(Decimal { units: 10_000_000_000_000 }));
    assert_eq!(parse_decimal("1.5E-3"), Some(Decimal { units: 150_000 }));
    assert_eq!(parse_decimal("-2.5e1"), Some(Decimal { units: -2_500_000_000 }));
    assert_eq!(parse_decimal("100e-10"), Some(Decimal { units: 1 }));
    assert_eq!(parse_decimal("1230000000000000000000000e-20"), Some(Decimal { units: 1_230_000_000_000 }));
    assert_eq!(parse_decimal("0e99999999999999999999999999999999999"), Some(Decimal { units: 0 }));
    assert_eq!(parse_decimal("9.223372036854775807e10"), Some(Decimal { units: i64::MAX }));
}

#[test]
fn decimal_literals_with_exponent_rounded_or_refused() {
    assert_eq!(parse_decimal("1e-9"), Some(Decimal { units: 0 }));
    assert_eq!(parse_decimal("5e-9"), Some(Decimal { units: 1 }));
    assert_eq!(parse_decimal("4.9e-9"), Some(Decimal { units: 0 }));
    assert_eq!(parse_decimal("-0.000000005"), Some(Decimal { units: -1 }));
    assert_eq!(parse_decimal("0.999999995"), Some(Decimal { units: 100_000_000 }));
    assert_eq!(parse_decimal("12345678901234567890123e-20"), Some(Decimal { units: 12_345_678_901 }));
    assert_eq!(parse_decimal("1e11"), Some(Decimal { units: i64::MAX }));
    assert_eq!(parse_decimal("9.223372036854775808e10"), Some(Decimal { units: i64::MAX }));
    assert_eq!(parse_decimal("1e99999999999999999999999999999999999"), Some(Decimal { units: i64::MAX }));
    assert_eq!(parse_decimal("1e-99999999999999999999999999999999999"), Some(Decimal { units: 0 }));
    assert_eq!(parse_decimal("1e"), None);
    assert_eq!(parse_decimal("1e+"), None);
    assert_eq!(parse_decimal("1.e5"), None);
    assert_eq!(parse_decimal("1e5x"), None);
}

#[test]
fn integer_literals() {
    assert_eq!(parse_u64("1718003785385"), Some(1_718_003_785_385));
    assert_eq!(parse_u64("18446744073709551615"), Some(u64::MAX));
    assert_eq!(parse_u64("18446744073709551616"), None);
    assert_eq!(parse_u64("-1"), None);
    assert_eq!(parse_u64("1.0"), None);
    assert_eq!(parse_i64("-9223372036854775808"), Some(i64::MIN));
    assert_eq!(parse_i64("9223372036854775807"), Some(i64::MAX));
    assert_eq!(parse_i64("9223372036854775808"), None);
    assert_eq!(parse_i64("-42"), Some(-42));
    assert_eq!(parse_i64(""), None);
}

#[test]
fn integer_text() {
    assert_eq!(u128_text(0), "0");
    assert_eq!(u128_text(1_718_003_785_385), "1718003785385");
    assert_eq!(i64_text(-42), "-42");
    assert_eq!(i64_text(i64::MIN), "-9223372036854775808");
    assert!(same_text("abc", "abc"));
    assert!(!same_text("abc", "abd"));
    assert!(!same_text("abc", "ab"));
}

#[test]
fn envelope_round_trip() {
    let raw = encode_envelope(0, 7, "SubscribeTrades", "{\"OMSId\":1,\"InstrumentId\":1,\"IncludeLastCount\":10}");
    assert_eq!(
        raw,
        "{\"i\":7,\"m\":0,\"n\":\"SubscribeTrades\",\"o\":\"{\\\"OMSId\\\":1,\\\"InstrumentId\\\":1,\\\"IncludeLastCount\\\":10}\"}"
    );
    let e = decode_envelope(&raw).unwrap();
    assert_eq!(
        e,
        Envelope {
            message_type: Some(0),
            sequence_id: Some(7),
            name: "SubscribeTrades".to_string(),
            payload: Some("{\"OMSId\":1,\"InstrumentId\":1,\"IncludeLastCount\":10}".to_string()),
        }
    );
}

#[test]
fn envelope_optional_fields() {
    let e = decode_envelope("{\"n\":\"Ping\",\"m\":\"x\"}").unwrap();
    assert_eq!(e.name, "Ping");
    assert_eq!(e.message_type, None);
    assert_eq!(e.sequence_id, None);
    assert_eq!(e.payload, None);
}

#[test]
fn envelope_errors() {
    assert_eq!(decode_envelope("not json"), Err(DecodeError::MalformedEnvelope));
    assert_eq!(decode_envelope("[1,2]"), Err(DecodeError::MalformedEnvelope));
    assert_eq!(decode_envelope("{\"m\":1,\"i\":2,\"o\":\"[]\"}"), Err(DecodeError::MalformedEnvelope));
    assert_eq!(decode_envelope("{\"n\":5}"), Err(DecodeError::MalformedEnvelope));
}

#[test]
fn message_names() {
    assert_eq!(classify("SubscribeLevel2"), MessageKind::BookSnapshot);
    assert_eq!(classify("Level2UpdateEvent"), MessageKind::BookUpdate);
    assert_eq!(classify("SubscribeTrades"), MessageKind::TradeSubscription);
    assert_eq!(classify("TradeDataUpdateEvent"), MessageKind::TradeUpdate);
    assert_eq!(classify("Ping"), MessageKind::Other);
}

fn tuple(cells: &[&str]) -> Vec<Option<String>> {
    cells.iter().map(|c| if c.is_empty() { None } else { Some(c.to_string()) }).collect()
}

#[test]
fn trade_tuple_by_position() {
    let t = tuple(&["12", "1", "0.25", "5711.8", "100", "200", "1718003785385", "1", "0", "0", "300"]);
    assert_eq!(
        decode_trade_tuple(&t),
        Some(TradeEvent {
            trade_id: 12,
            instrument_id: 1,
            quantity: Decimal { units: 25_000_000 },
            price: Decimal { units: 571_180_000_000 },
            order_id_1: 100,
            order_id_2: 200,
            timestamp: 1_718_003_785_385,
            side: 1,
            taker_side: 0,
            is_block_trade: 0,
            client_id: 44,
        })
    );
    assert_eq!(decode_trade_tuple(&tuple(&["12", "1", "0.25", "5711.8", "100", "200", "1", "1", "0", "0"])), None);
    assert_eq!(decode_trade_tuple(&tuple(&["12", "1", "0.25", "", "100", "200", "1", "1", "0", "0", "0"])), None);
    assert_eq!(decode_trade_tuple(&tuple(&["1.5", "1", "0.25", "1", "100", "200", "1", "1", "0", "0", "0"])), None);
}

#[test]
fn trade_batch_skips_bad_tuples() {
    let trades = decode_trade_batch(
        "[[1,2,0.5,10,3,4,5,0,1,0,0],[1,2,0.5],[7,2,1,11,3,4,6,1,0,0,0]]",
    );
    assert_eq!(trades.len(), 2);
    assert_eq!(trades[0].trade_id, 1);
    assert_eq!(trades[0].quantity, Decimal { units: 50_000_000 });
    assert_eq!(trades[1].trade_id, 7);
    assert_eq!(trades[1].price, Decimal { units: 1_100_000_000 });
    assert!(decode_trade_batch("oops").is_empty());
    let mixed = decode_trade_batch("[[1,2,0.5,10,3,4,5,0,1,0,0],\"x\",{},[7,2,1,11,3,4,6,1,0,0,0]]");
    assert_eq!(mixed.len(), 2);
    assert_eq!(mixed[1].trade_id, 7);
}

#[test]
fn frames_are_routed_by_name() {
    let mut book = OrderBook::new(2);
    let trades = encode_envelope(3, 9, "TradeDataUpdateEvent", "[[1,2,0.5,10,3,4,5,0,1,0,0]]");
    match handle_frame(&mut book, &trades) {
        Ok(FrameEvent::Trades(ts)) => assert_eq!(ts.len(), 1),
        other => panic!("unexpected {:?}", other),
    }
    let ack = encode_envelope(1, 2, "SubscribeTrades", "[]");
    assert_eq!(handle_frame(&mut book, &ack), Ok(FrameEvent::TradeSubscription));
    let other = encode_envelope(1, 2, "Ping", "{}");
    assert_eq!(handle_frame(&mut book, &other), Ok(FrameEvent::Ignored));
    assert_eq!(handle_frame(&mut book, "{"), Err(DecodeError::MalformedEnvelope));
    let update = encode_envelope(3, 3, "Level2UpdateEvent", "[[0,0,0,0,0,0,5,0,2]]");
    assert_eq!(handle_frame(&mut book, &update), Ok(FrameEvent::BookUpdate));
    assert_eq!(book.asks().len(), 1);
    assert!(book.bids().is_empty());
}

#[test]
fn outbound_frames() {
    assert_eq!(encode_bare_envelope(0, 1, "Ping"), "{\"i\":1,\"m\":0,\"n\":\"Ping\"}");
    assert_eq!(
        trade_subscription_payload(1, 90, 10),
        "{\"IncludeLastCount\":10,\"InstrumentId\":90,\"OMSId\":1}"
    );
    assert_eq!(book_subscription_payload(1, 1, 10), "{\"Depth\":10,\"InstrumentId\":1,\"OMSId\":1}");
}

#[test]
fn names_are_escaped_as_json_strings() {
    assert_eq!(
        encode_bare_envelope(1, 2, "a\"b\\c\n\t\u{1}\u{1f}é"),
        "{\"i\":2,\"m\":1,\"n\":\"a\\\"b\\\\c\\n\\t\\u0001\\u001fé\"}"
    );
}
