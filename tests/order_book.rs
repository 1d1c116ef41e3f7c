use ndax_client::decimal::Decimal;
use ndax_client::envelope::encode_envelope;
use ndax_client::order_book::{decode_order_tuple, Level, OrderBook, OrderRecord, Side};
use ndax_client::session::{handle_frame, FrameEvent};

const SNAPSHOT: &str = "[[1,1718003785385,0,5711.80000,1,0,1,8.13439401,1],
                  [2,1718003785385,0,5712.20000,1,0,1,2.00000000,1],
                  [3,1718003785385,0,5712.80000,1,0,1,0.30000000,1],
                  [4,1718003785385,0,5713.00000,1,0,1,3.29800000,1],
                  [5,1718003785385,0,5713.10000,1,0,1,1.00000000,1],
                  [6,1718003785385,0,5713.90000,1,0,1,1.00000000,1],
                  [7,1718003785385,0,5714.70000,1,0,1,0.50000000,1],
                  [8,1718003785385,0,5715.20000,1,0,1,1.00000000,1],
                  [9,1718003785385,0,5716.60000,1,0,1,1.22700000,1],
                  [10,1718003785385,0,5716.80000,1,0,1,0.35000000,1],
                  [11,1718003785385,0,5711.70000,1,0,0,0.00749800,0],
                  [12,1718003785385,0,5709.20000,1,0,0,3.30000000,0],
                  [13,1718003785385,0,5708.30000,1,0,0,0.75483907,0],
                  [14,1718003785385,0,5708.20000,1,0,0,5.00000000,0],
                  [15,1718003785385,0,5707.80000,1,0,0,2.50000000,0],
                  [16,1718003785385,0,5707.40000,1,0,0,4.33000000,0],
                  [17,1718003785385,0,5707.00000,1,0,0,0.00200000,0],
                  [18,1718003785385,0,5706.90000,1,0,0,1.17300000,0],
                  [19,1718003785385,0,5706.40000,1,0,0,0.85600000,0],
                  [20,1718003785385,0,5706.30000,1,0,0,1.00000000,0]]";

const UPDATE1: &str = "[[261,1718007168597,2,5709.20000,0,0,1,3.00000000,0],
                  [262,1718007168597,1,5708.20000,2,0,1,0.00000000,0],
                  [263,1718007169610,0,5705.90000,1,0,1,7.62400000,0]]";

const UPDATE2: &str = "[[264,1718007169611,2,5709.20000,0,0,1,8.00000000,0],
                  [265,1718007169612,1,5709.40000,0,0,1,0.30000000,0]]";

const UPDATE3: &str = "[[266,1718007169613,1,5708.30000,0,0,1,0.00000000,0],
                  [267,1718007169614,2,5705.90000,0,0,1,7.62400000,0]]";

const EXPECTED1: &str = "[[1,1718003785385,0,5711.80000,1,0,1,8.13439401,1],
                  [2,1718003785385,0,5712.20000,1,0,1,2.00000000,1],
                  [3,1718003785385,0,5712.80000,1,0,1,0.30000000,1],
                  [4,1718003785385,0,5713.00000,1,0,1,3.29800000,1],
                  [5,1718003785385,0,5713.10000,1,0,1,1.00000000,1],
                  [6,1718003785385,0,5713.90000,1,0,1,1.00000000,1],
                  [7,1718003785385,0,5714.70000,1,0,1,0.50000000,1],
                  [8,1718003785385,0,5715.20000,1,0,1,1.00000000,1],
                  [9,1718003785385,0,5716.60000,1,0,1,1.22700000,1],
                  [10,1718003785385,0,5716.80000,1,0,1,0.35000000,1],
                  [11,1718003785385,0,5711.70000,1,0,0,0.00749800,0],
                  [12,1718003785385,0,5709.20000,1,0,0,3.00000000,0],
                  [13,1718003785385,0,5708.30000,1,0,0,0.75483907,0],
                  [14,1718003785385,0,5707.80000,1,0,0,2.50000000,0],
                  [15,1718003785385,0,5707.40000,1,0,0,4.33000000,0],
                  [16,1718003785385,0,5707.00000,1,0,0,0.00200000,0],
                  [17,1718003785385,0,5706.90000,1,0,0,1.17300000,0],
                  [18,1718003785385,0,5706.40000,1,0,0,0.85600000,0],
                  [19,1718003785385,0,5706.30000,1,0,0,1.00000000,0],
                  [20,1718003785385,0,5705.90000,1,0,0,7.62400000,0]]";

const EXPECTED2: &str = "[[1,1718003785385,0,5711.80000,1,0,1,8.13439401,1],
                  [2,1718003785385,0,5712.20000,1,0,1,2.00000000,1],
                  [3,1718003785385,0,5712.80000,1,0,1,0.30000000,1],
                  [4,1718003785385,0,5713.00000,1,0,1,3.29800000,1],
                  [5,1718003785385,0,5713.10000,1,0,1,1.00000000,1],
                  [6,1718003785385,0,5713.90000,1,0,1,1.00000000,1],
                  [7,1718003785385,0,5714.70000,1,0,1,0.50000000,1],
                  [8,1718003785385,0,5715.20000,1,0,1,1.00000000,1],
                  [9,1718003785385,0,5716.60000,1,0,1,1.22700000,1],
                  [10,1718003785385,0,5716.80000,1,0,1,0.35000000,1],
                  [11,1718003785385,0,5711.70000,1,0,0,0.00749800,0],
                  [12,1718003785385,0,5709.40000,1,0,0,0.30000000,0],
                  [13,1718003785385,0,5709.20000,1,0,0,8.00000000,0],
                  [14,1718003785385,0,5708.30000,1,0,0,0.75483907,0],
                  [15,1718003785385,0,5707.80000,1,0,0,2.50000000,0],
                  [16,1718003785385,0,5707.40000,1,0,0,4.33000000,0],
                  [17,1718003785385,0,5707.00000,1,0,0,0.00200000,0],
                  [18,1718003785385,0,5706.90000,1,0,0,1.17300000,0],
                  [19,1718003785385,0,5706.40000,1,0,0,0.85600000,0],
                  [20,1718003785385,0,5706.30000,1,0,0,1.00000000,0]]";

const EXPECTED3: &str = "[[1,1718003785385,0,5711.80000,1,0,1,8.13439401,1],
                  [2,1718003785385,0,5712.20000,1,0,1,2.00000000,1],
                  [3,1718003785385,0,5712.80000,1,0,1,0.30000000,1],
                  [4,1718003785385,0,5713.00000,1,0,1,3.29800000,1],
                  [5,1718003785385,0,5713.10000,1,0,1,1.00000000,1],
                  [6,1718003785385,0,5713.90000,1,0,1,1.00000000,1],
                  [7,1718003785385,0,5714.70000,1,0,1,0.50000000,1],
                  [8,1718003785385,0,5715.20000,1,0,1,1.00000000,1],
                  [9,1718003785385,0,5716.60000,1,0,1,1.22700000,1],
                  [10,1718003785385,0,5716.80000,1,0,1,0.35000000,1],
                  [11,1718003785385,0,5711.70000,1,0,0,0.00749800,0],
                  [12,1718003785385,0,5709.40000,1,0,0,0.30000000,0],
                  [13,1718003785385,0,5709.20000,1,0,0,8.00000000,0],
                  [14,1718003785385,0,5707.80000,1,0,0,2.50000000,0],
                  [15,1718003785385,0,5707.40000,1,0,0,4.33000000,0],
                  [16,1718003785385,0,5707.00000,1,0,0,0.00200000,0],
                  [17,1718003785385,0,5706.90000,1,0,0,1.17300000,0],
                  [18,1718003785385,0,5706.40000,1,0,0,0.85600000,0],
                  [19,1718003785385,0,5706.30000,1,0,0,1.00000000,0],
                  [20,1718003785385,0,5705.90000,1,0,0,7.62400000,0]]";

fn get_snapshot() -> String {
    encode_envelope(1, 1, "SubscribeLevel2", SNAPSHOT)
}

fn get_update1() -> String {
    encode_envelope(3, 140, "Level2UpdateEvent", UPDATE1)
}

fn get_update2() -> String {
    encode_envelope(3, 141, "Level2UpdateEvent", UPDATE2)
}

fn get_update3() -> String {
    encode_envelope(3, 142, "Level2UpdateEvent", UPDATE3)
}

fn get_expected_order_book1() -> String {
    encode_envelope(1, 1, "SubscribeLevel2", EXPECTED1)
}

fn get_expected_order_book2() -> String {
    encode_envelope(1, 2, "SubscribeLevel2", EXPECTED2)
}

fn get_expected_order_book3() -> String {
    encode_envelope(1, 3, "SubscribeLevel2", EXPECTED3)
}

fn d(units: i64) -> Decimal {
    Decimal { units }
}

fn level(price: i64, volume: i64) -> Level {
    Level { price: d(price), volume: d(volume) }
}

fn record(side: Side, price: i64, volume: i64) -> OrderRecord {
    OrderRecord { price: d(price), volume: d(volume), side }
}

fn tuple(cells: &[&str]) -> Vec<Option<String>> {
    cells.iter().map(|c| if c.is_empty() { None } else { Some(c.to_string()) }).collect()
}

#[test]
fn test_order_book_snapshot() {
    let snapshot = get_snapshot();
    let mut order_book = OrderBook::new(10);
    assert_eq!(handle_frame(&mut order_book, &snapshot), Ok(FrameEvent::BookSnapshot));
    println!("Order Book Snapshot: {:?}", order_book);
    assert_eq!(order_book.bids().len(), 10);
    assert_eq!(order_book.asks().len(), 10);
}

#[test]
fn test_order_book_update() {
    let mut order_book = OrderBook::new(10);
    let initial_snapshot = get_snapshot();

    handle_frame(&mut order_book, &initial_snapshot).unwrap();

    let updates1 = get_update1();
    assert_eq!(handle_frame(&mut order_book, &updates1), Ok(FrameEvent::BookUpdate));

    let mut expected_order_book = OrderBook::new(10);
    handle_frame(&mut expected_order_book, &get_expected_order_book1()).unwrap();

    assert_eq!(order_book.asks(), expected_order_book.asks());
    assert_eq!(order_book.bids(), expected_order_book.bids());

    let updates2 = get_update2();
    handle_frame(&mut order_book, &updates2).unwrap();

    expected_order_book = OrderBook::new(10);
    handle_frame(&mut expected_order_book, &get_expected_order_book2()).unwrap();

    assert_eq!(order_book.asks(), expected_order_book.asks());
    assert_eq!(order_book.bids(), expected_order_book.bids());

    let updates3 = get_update3();
    handle_frame(&mut order_book, &updates3).unwrap();

    expected_order_book = OrderBook::new(10);
    handle_frame(&mut expected_order_book, &get_expected_order_book3()).unwrap();

    assert_eq!(order_book.asks(), expected_order_book.asks());
    assert_eq!(order_book.bids(), expected_order_book.bids());
}

#[test]
fn snapshot_reads_fields_by_position() {
    let mut book = OrderBook::new(10);
    book.initialize(SNAPSHOT);
    // position 6 is the price, position 8 the volume and the side
    assert!(book.bids().iter().all(|l| *l == level(0, 0)));
    assert!(book.asks().iter().all(|l| *l == level(100_000_000, 100_000_000)));
}

#[test]
fn snapshot_sorts_each_side() {
    let mut book = OrderBook::new(5);
    book.initialize("[[0,0,0,0,0,0,3.5,0,2],[0,0,0,0,0,0,1.25,0,7],[0,0,0,0,0,0,2,0,0.5],[0,0,0,0,0,0,9,0,0],[0,0,0,0,0,0,4,0,0]]");
    assert_eq!(
        book.asks(),
        &vec![level(125_000_000, 700_000_000), level(200_000_000, 50_000_000), level(350_000_000, 200_000_000)]
    );
    assert_eq!(book.bids(), &vec![level(900_000_000, 0), level(400_000_000, 0)]);
}

#[test]
fn snapshot_replaces_the_whole_book() {
    let mut book = OrderBook::new(5);
    book.initialize("[[0,0,0,0,0,0,3,0,2],[0,0,0,0,0,0,4,0,1]]");
    book.initialize("[[0,0,0,0,0,0,8,0,1]]");
    assert_eq!(book.asks(), &vec![level(800_000_000, 100_000_000)]);
    assert!(book.bids().is_empty());
}

#[test]
fn snapshot_is_not_truncated() {
    let mut book = OrderBook::new(1);
    book.initialize("[[0,0,0,0,0,0,3,0,2],[0,0,0,0,0,0,4,0,1]]");
    assert_eq!(book.asks().len(), 2);
    book.update("[]");
    assert_eq!(book.asks(), &vec![level(300_000_000, 200_000_000)]);
}

#[test]
fn malformed_payload_leaves_book_unchanged() {
    let mut book = OrderBook::new(3);
    book.initialize("[[0,0,0,0,0,0,3,0,2],[0,0,0,0,0,0,4,0,1]]");
    let asks = book.asks().clone();
    let bids = book.bids().clone();
    book.update("this is not json");
    assert_eq!(book.asks(), &asks);
    assert_eq!(book.bids(), &bids);
    book.update("[1, 2, 3]");
    assert_eq!(book.asks(), &asks);
    book.initialize("{\"o\": 1}");
    assert_eq!(book.asks(), &asks);
    assert_eq!(book.bids(), &bids);
}

#[test]
fn exponent_numbers_are_read() {
    let mut book = OrderBook::new(3);
    book.initialize("[[0,0,0,0,0,0,1e5,0,1]]");
    assert_eq!(book.asks(), &vec![level(10_000_000_000_000, 100_000_000)]);
    assert!(book.bids().is_empty());
}

#[test]
fn numbers_beyond_eight_places_are_rounded() {
    let mut book = OrderBook::new(3);
    book.initialize("[[0,0,0,0,0,0,1e-9,0,0],[0,0,0,0,0,0,0.123456789,0,2]]");
    assert_eq!(book.bids(), &vec![level(0, 0)]);
    assert_eq!(book.asks(), &vec![level(12_345_679, 200_000_000)]);
}

#[test]
fn numbers_beyond_the_range_are_held_at_the_bound() {
    let mut book = OrderBook::new(3);
    book.initialize("[[0,0,0,0,0,0,1e30,0,1]]");
    assert_eq!(book.asks(), &vec![level(i64::MAX, 100_000_000)]);
}

#[test]
fn item_that_is_not_a_tuple_leaves_book_unchanged() {
    let mut book = OrderBook::new(3);
    book.initialize("[[0,0,0,0,0,0,3,0,2]]");
    book.update("[[0,0,0,0,0,0,4,0,1], 7]");
    assert_eq!(book.asks(), &vec![level(300_000_000, 200_000_000)]);
    book.initialize("[5, [0,0,0,0,0,0,4,0,1]]");
    assert_eq!(book.asks(), &vec![level(300_000_000, 200_000_000)]);
}

#[test]
fn unreadable_tuples_are_skipped() {
    let mut book = OrderBook::new(3);
    book.update("[[0,0,0,0,0,0,3,0],[0,0,0,0,0,0,\"x\",0,1],[0,0,0,0,0,0,5,0,2]]");
    assert_eq!(book.asks(), &vec![level(500_000_000, 200_000_000)]);
}

#[test]
fn decode_order_tuple_by_position() {
    let t = tuple(&["1", "2", "3", "4", "5", "6", "5711.8", "7", "2.5"]);
    assert_eq!(
        decode_order_tuple(&t),
        Some(record(Side::Ask, 571_180_000_000, 250_000_000))
    );
    let bid = tuple(&["1", "2", "3", "4", "5", "6", "12", "7", "0"]);
    assert_eq!(decode_order_tuple(&bid), Some(record(Side::Bid, 1_200_000_000, 0)));
    assert_eq!(decode_order_tuple(&tuple(&["1", "2", "3", "4", "5", "6", "12", "7"])), None);
    assert_eq!(decode_order_tuple(&tuple(&["1", "2", "3", "4", "5", "6", "", "7", "1"])), None);
}

#[test]
fn zero_volume_delete_of_absent_price_is_noop() {
    let mut book = OrderBook::new(5);
    book.apply_records(&vec![record(Side::Bid, 300, 1), record(Side::Bid, 200, 1)]);
    let before = book.bids().clone();
    book.apply_records(&vec![record(Side::Bid, 250, 0)]);
    assert_eq!(book.bids(), &before);
}

#[test]
fn zero_volume_delete_twice_removes_once() {
    let mut book = OrderBook::new(5);
    book.apply_records(&vec![record(Side::Bid, 300, 1), record(Side::Bid, 200, 2), record(Side::Bid, 100, 3)]);
    book.apply_records(&vec![record(Side::Bid, 200, 0)]);
    assert_eq!(book.bids(), &vec![level(300, 1), level(100, 3)]);
    book.apply_records(&vec![record(Side::Bid, 200, 0)]);
    assert_eq!(book.bids(), &vec![level(300, 1), level(100, 3)]);
}

#[test]
fn update_existing_price_in_place() {
    let mut book = OrderBook::new(5);
    book.apply_records(&vec![record(Side::Ask, 100, 1), record(Side::Ask, 200, 2), record(Side::Ask, 300, 3)]);
    book.apply_records(&vec![record(Side::Ask, 200, 9)]);
    assert_eq!(book.asks(), &vec![level(100, 1), level(200, 9), level(300, 3)]);
}

#[test]
fn insert_new_price_in_order() {
    let mut book = OrderBook::new(5);
    book.apply_records(&vec![record(Side::Bid, 300, 1), record(Side::Bid, 100, 3)]);
    book.apply_records(&vec![record(Side::Bid, 200, 2)]);
    assert_eq!(book.bids(), &vec![level(300, 1), level(200, 2), level(100, 3)]);
    book.apply_records(&vec![record(Side::Ask, 50, 1), record(Side::Ask, 20, 1), record(Side::Ask, 70, 1)]);
    assert_eq!(book.asks(), &vec![level(20, 1), level(50, 1), level(70, 1)]);
}

#[test]
fn truncation_drops_worst_levels() {
    let mut book = OrderBook::new(2);
    book.apply_records(&vec![record(Side::Ask, 30, 1), record(Side::Ask, 10, 1), record(Side::Ask, 20, 1)]);
    assert_eq!(book.asks(), &vec![level(10, 1), level(20, 1)]);
    book.apply_records(&vec![record(Side::Bid, 10, 1), record(Side::Bid, 30, 1), record(Side::Bid, 20, 1)]);
    assert_eq!(book.bids(), &vec![level(30, 1), level(20, 1)]);
}

#[test]
fn batch_order_matters() {
    let mut book = OrderBook::new(5);
    book.apply_records(&vec![record(Side::Bid, 100, 1)]);
    book.apply_records(&vec![record(Side::Bid, 100, 0), record(Side::Bid, 100, 4)]);
    assert_eq!(book.bids(), &vec![level(100, 4)]);
    book.apply_records(&vec![record(Side::Bid, 100, 5), record(Side::Bid, 100, 0)]);
    assert!(book.bids().is_empty());
}

#[test]
fn invariants_hold_after_calls() {
    let mut book = OrderBook::new(3);
    book.initialize("[[0,0,0,0,0,0,3,0,2],[0,0,0,0,0,0,4,0,1]]");
    book.update("[[0,0,0,0,0,0,1,0,5],[0,0,0,0,0,0,2,0,6],[0,0,0,0,0,0,4,0,9],[0,0,0,0,0,0,0.5,0,1]]");
    let asks = book.asks();
    assert!(asks.len() <= 3);
    assert!(asks.windows(2).all(|w| w[0].price.units < w[1].price.units));
    assert!(asks.iter().all(|l| l.volume.units != 0));
    assert_eq!(asks, &vec![level(50_000_000, 100_000_000), level(100_000_000, 500_000_000), level(200_000_000, 600_000_000)]);
}

#[test]
fn render_pairs_bids_with_asks() {
    let mut book = OrderBook::new(2);
    book.apply_records(&vec![record(Side::Bid, 571_180_000_000, 813_439_401), record(Side::Ask, 571_220_000_000, 200_000_000), record(Side::Ask, 571_230_000_000, 1)]);
    let expected = format!(
        "Order Book:\n           {:<12} {:<11} | {:<12 } {}\n{:<10} {:<20} | {:<10} {}\n{:<10} {:<20} | {:<10} {}\n",
        "Bid", "Depth", "Ask", "Depth",
        1, "5711.80000 (8.13439401)", "5712.20000 (2.00000000)", 1,
        2, "", "5712.30000 (0.00000001)", 2
    );
    assert_eq!(book.render(), expected);
}

#[test]
fn render_rounds_price_to_five_places() {
    let mut book = OrderBook::new(1);
    book.apply_records(&vec![record(Side::Ask, 123_456_789, 5), record(Side::Bid, -150, 1)]);
    let text = book.render();
    assert!(text.contains("1.23457 (0.00000005)"));
    assert!(text.contains("-0.00000 (0.00000001)"));
}
