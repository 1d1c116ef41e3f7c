//! The order book replica: bids and asks kept best-first, built from a
//! snapshot and maintained by incremental diffs.

use vstd::prelude::*;

use crate::decimal::{decimal_of, parse_decimal, Decimal};
use crate::json::{json_batch, parse_batch};

verus! {

/// Which side of the book a record belongs to.
#[derive(Clone, Copy, Debug, PartialEq, Eq, Structural)]
pub enum Side {
    Bid,
    Ask,
}

/// Standing interest at one price: the aggregate volume offered there.
#[derive(Clone, Copy, Debug, PartialEq, Eq, Structural)]
pub struct Level {
    pub price: Decimal,
    pub volume: Decimal,
}

/// One decoded order event: a price, a volume and the side it applies to.
#[derive(Clone, Copy, Debug, PartialEq, Eq, Structural)]
pub struct OrderRecord {
    pub price: Decimal,
    pub volume: Decimal,
    pub side: Side,
}

/// The price of a level, as an integer number of units.
pub open spec fn price_of(l: Level) -> int {
    l.price.units as int
}

/// On `side`, a level at price `a` ranks strictly before one at price `b`:
/// bids go from the highest price down, asks from the lowest price up.
pub open spec fn ranks_before(side: Side, a: int, b: int) -> bool {
    match side {
        Side::Bid => a > b,
        Side::Ask => a < b,
    }
}

/// No level of `s` ranks strictly before an earlier one.
pub open spec fn is_ordered(side: Side, s: Seq<Level>) -> bool {
    forall|i: int, j: int|
        0 <= i < j < s.len() ==> !ranks_before(side, price_of(s[j]), price_of(s[i]))
}

/// Each level of `s` ranks strictly before every later one: the side is in
/// order and holds each price at most once.
pub open spec fn is_strictly_ordered(side: Side, s: Seq<Level>) -> bool {
    forall|i: int, j: int|
        0 <= i < j < s.len() ==> ranks_before(side, price_of(s[i]), price_of(s[j]))
}

/// Some level of `s` stands at price `p`.
pub open spec fn has_price(s: Seq<Level>, p: int) -> bool {
    exists|i: int| 0 <= i < s.len() && price_of(s[i]) == p
}

/// `s` with `l` placed after every level that `l` does not rank strictly
/// before (so after the levels at its own price).
pub open spec fn insert_level(side: Side, s: Seq<Level>, l: Level) -> Seq<Level>
    decreases s.len(),
{
    if s.len() == 0 {
        seq![l]
    } else if ranks_before(side, price_of(l), price_of(s[0])) {
        seq![l] + s
    } else {
        seq![s[0]] + insert_level(side, s.drop_first(), l)
    }
}

/// `s` with the first level at the price of `l` replaced by `l`.
pub open spec fn replace_level(s: Seq<Level>, l: Level) -> Seq<Level>
    decreases s.len(),
{
    if s.len() == 0 {
        s
    } else if price_of(s[0]) == price_of(l) {
        seq![l] + s.drop_first()
    } else {
        seq![s[0]] + replace_level(s.drop_first(), l)
    }
}

/// `s` without any level at price `p`.
pub open spec fn remove_price(s: Seq<Level>, p: int) -> Seq<Level> {
    s.filter(|l: Level| price_of(l) != p)
}

/// One side after one record for it: a zero volume deletes the price, a known
/// price takes the new volume in place, a new price is inserted in order.
pub open spec fn apply_to_side(side: Side, s: Seq<Level>, l: Level) -> Seq<Level> {
    if l.volume.units == 0 {
        remove_price(s, price_of(l))
    } else if has_price(s, price_of(l)) {
        replace_level(s, l)
    } else {
        insert_level(side, s, l)
    }
}

/// The first `depth` levels of `s`, or all of them if there are fewer.
pub open spec fn keep_best(s: Seq<Level>, depth: nat) -> Seq<Level> {
    if s.len() > depth {
        s.take(depth as int)
    } else {
        s
    }
}

/// The index at which `insert_level` places `l`: that of the first level that
/// `l` ranks strictly before, or the length.
pub(crate) proof fn lemma_insert_at(side: Side, s: Seq<Level>, l: Level, k: int)
    requires
        0 <= k <= s.len(),
        forall|i: int| 0 <= i < k ==> !ranks_before(side, price_of(l), price_of(s[i])),
        k < s.len() ==> ranks_before(side, price_of(l), price_of(s[k])),
    ensures
        insert_level(side, s, l) == s.insert(k, l),
    decreases s.len(),
{
    if s.len() == 0 {
        assert(s.insert(k, l) =~= seq![l]);
    } else if k == 0 {
        assert(s.insert(k, l) =~= seq![l] + s);
    } else {
        let t = s.drop_first();
        assert forall|i: int| 0 <= i < k - 1 implies !ranks_before(
            side,
            price_of(l),
            price_of(t[i]),
        ) by {
            assert(t[i] == s[i + 1]);
        }
        lemma_insert_at(side, t, l, k - 1);
        assert(s.insert(k, l) =~= seq![s[0]] + t.insert(k - 1, l));
    }
}

/// `replace_level` writes `l` over the first level at its price.
pub(crate) proof fn lemma_replace_at(s: Seq<Level>, l: Level, k: int)
    requires
        0 <= k < s.len(),
        price_of(s[k]) == price_of(l),
        forall|i: int| 0 <= i < k ==> price_of(s[i]) != price_of(l),
    ensures
        replace_level(s, l) == s.update(k, l),
    decreases s.len(),
{
    if k == 0 {
        assert(s.update(k, l) =~= seq![l] + s.drop_first());
    } else {
        let t = s.drop_first();
        assert forall|i: int| 0 <= i < k - 1 implies price_of(t[i]) != price_of(l) by {
            assert(t[i] == s[i + 1]);
        }
        lemma_replace_at(t, l, k - 1);
        assert(s.update(k, l) =~= seq![s[0]] + t.update(k - 1, l));
    }
}

/// Index of the first level of `v` at price `p`, if any.
fn find_price(v: &Vec<Level>, p: i64) -> (r: Option<usize>)
    ensures
        match r {
            Some(k) => k < v@.len() && price_of(v@[k as int]) == p && forall|i: int|
                0 <= i < k ==> price_of(v@[i]) != p,
            None => !has_price(v@, p as int),
        },
{
    let mut i: usize = 0;
    while i < v.len()
        invariant
            i <= v@.len(),
            forall|j: int| 0 <= j < i ==> price_of(v@[j]) != p,
        decreases v@.len() - i,
    {
        if v[i].price.units == p {
            return Some(i);
        }
        i = i + 1;
    }
    None
}

/// Index of the first level of `v` that `l` ranks strictly before, or the
/// length of `v`.
fn insert_position(side: Side, v: &Vec<Level>, l: &Level) -> (k: usize)
    ensures
        k <= v@.len(),
        forall|i: int| 0 <= i < k ==> !ranks_before(side, price_of(*l), price_of(v@[i])),
        k < v@.len() ==> ranks_before(side, price_of(*l), price_of(v@[k as int])),
{
    let mut i: usize = 0;
    while i < v.len()
        invariant
            i <= v@.len(),
            forall|j: int| 0 <= j < i ==> !ranks_before(side, price_of(*l), price_of(v@[j])),
        decreases v@.len() - i,
    {
        let before = match side {
            Side::Bid => l.price.units > v[i].price.units,
            Side::Ask => l.price.units < v[i].price.units,
        };
        if before {
            return i;
        }
        i = i + 1;
    }
    i
}

/// Places `l` in `v` as `insert_level` says.
fn insert_in_order(side: Side, v: &mut Vec<Level>, l: Level)
    ensures
        final(v)@ == insert_level(side, old(v)@, l),
{
    let k = insert_position(side, v, &l);
    proof {
        lemma_insert_at(side, v@, l, k as int);
    }
    v.insert(k, l);
}

/// `v` sorted best first, as `sorted_levels` says.
fn sort_levels(side: Side, v: &Vec<Level>) -> (r: Vec<Level>)
    ensures
        r@ == sorted_levels(side, v@),
{
    let mut out: Vec<Level> = Vec::new();
    let mut i: usize = 0;
    while i < v.len()
        invariant
            i <= v@.len(),
            out@ == sorted_levels(side, v@.take(i as int)),
        decreases v@.len() - i,
    {
        proof {
            assert(v@.take(i + 1).drop_last() =~= v@.take(i as int));
        }
        insert_in_order(side, &mut out, v[i]);
        i = i + 1;
    }
    proof {
        assert(v@.take(v@.len() as int) =~= v@);
    }
    out
}

/// Removes from `v` every level at price `p`.
fn remove_levels_at(v: &mut Vec<Level>, p: i64)
    ensures
        final(v)@ == remove_price(old(v)@, p as int),
{
    let ghost s = v@;
    let mut kept: Vec<Level> = Vec::new();
    let mut i: usize = 0;
    while i < v.len()
        invariant
            v@ == s,
            i <= s.len(),
            kept@ == remove_price(s.take(i as int), p as int),
        decreases s.len() - i,
    {
        let l = v[i];
        proof {
            let t = s.take(i + 1);
            assert(t.drop_last() =~= s.take(i as int));
            assert(t.last() == l);
            reveal(Seq::filter);
        }
        if l.price.units != p {
            kept.push(l);
        }
        i = i + 1;
    }
    proof {
        assert(s.take(s.len() as int) =~= s);
    }
    *v = kept;
}

/// Applies one record to one side of the book, as `apply_to_side` says.
fn apply_to_levels(side: Side, v: &mut Vec<Level>, l: Level)
    ensures
        final(v)@ == apply_to_side(side, old(v)@, l),
{
    if l.volume.units == 0 {
        remove_levels_at(v, l.price.units);
    } else {
        match find_price(v, l.price.units) {
            Some(k) => {
                proof {
                    lemma_replace_at(v@, l, k as int);
                }
                v.set(k, l);
            },
            None => {
                insert_in_order(side, v, l);
            },
        }
    }
}

/// The mathematical state of a book: its depth and its two sides, best first.
pub struct BookState {
    pub depth: nat,
    pub bids: Seq<Level>,
    pub asks: Seq<Level>,
}

/// The level that a record describes.
pub open spec fn level_of(r: OrderRecord) -> Level {
    Level { price: r.price, volume: r.volume }
}

/// The book after one diff record, before any truncation.
pub open spec fn apply_record(b: BookState, r: OrderRecord) -> BookState {
    match r.side {
        Side::Bid => BookState {
            depth: b.depth,
            bids: apply_to_side(Side::Bid, b.bids, level_of(r)),
            asks: b.asks,
        },
        Side::Ask => BookState {
            depth: b.depth,
            bids: b.bids,
            asks: apply_to_side(Side::Ask, b.asks, level_of(r)),
        },
    }
}

/// The book after a batch of diff records taken in order, before truncation.
pub open spec fn apply_records(b: BookState, rs: Seq<OrderRecord>) -> BookState
    decreases rs.len(),
{
    if rs.len() == 0 {
        b
    } else {
        apply_record(apply_records(b, rs.drop_last()), rs.last())
    }
}

/// `s` sorted best first: each level inserted in turn with `insert_level`,
/// so levels at equal prices keep their order.
pub open spec fn sorted_levels(side: Side, s: Seq<Level>) -> Seq<Level>
    decreases s.len(),
{
    if s.len() == 0 {
        s
    } else {
        insert_level(side, sorted_levels(side, s.drop_last()), s.last())
    }
}

/// Both sides sorted best first and cut down to the book's depth, so that
/// the worst-ranked levels are the ones dropped.
pub open spec fn truncated(b: BookState) -> BookState {
    BookState {
        depth: b.depth,
        bids: keep_best(sorted_levels(Side::Bid, b.bids), b.depth),
        asks: keep_best(sorted_levels(Side::Ask, b.asks), b.depth),
    }
}

/// The book after a diff batch: every record in order, then truncation.
pub open spec fn apply_batch(b: BookState, rs: Seq<OrderRecord>) -> BookState {
    truncated(apply_records(b, rs))
}

/// The book built from snapshot records: each one placed on its side in
/// order, a level at an equal price after those already there. No record is
/// merged or dropped and nothing is truncated.
pub open spec fn snapshot_records(depth: nat, rs: Seq<OrderRecord>) -> BookState
    decreases rs.len(),
{
    if rs.len() == 0 {
        BookState { depth, bids: Seq::empty(), asks: Seq::empty() }
    } else {
        let b = snapshot_records(depth, rs.drop_last());
        let r = rs.last();
        match r.side {
            Side::Bid => BookState {
                depth,
                bids: insert_level(Side::Bid, b.bids, level_of(r)),
                asks: b.asks,
            },
            Side::Ask => BookState {
                depth,
                bids: b.bids,
                asks: insert_level(Side::Ask, b.asks, level_of(r)),
            },
        }
    }
}

/// Position, in an order tuple, of the field read as the price.
pub const PRICE_FIELD: usize = 6;

/// Position, in an order tuple, of the field read both as the volume and as
/// the side: `0` makes a bid, any other value an ask.
pub const VOLUME_FIELD: usize = 8;

/// The amount written in element `i` of a tuple, if it is a number literal
/// that reads as one.
pub open spec fn cell_decimal(row: Seq<Option<Seq<char>>>, i: int) -> Option<Decimal> {
    if 0 <= i < row.len() {
        match row[i] {
            Some(t) => decimal_of(t),
            None => None,
        }
    } else {
        None
    }
}

/// The record that an order tuple describes, read by position.
pub open spec fn order_of_cells(row: Seq<Option<Seq<char>>>) -> Option<OrderRecord> {
    match (cell_decimal(row, PRICE_FIELD as int), cell_decimal(row, VOLUME_FIELD as int)) {
        (Some(p), Some(v)) => Some(
            OrderRecord {
                price: p,
                volume: v,
                side: if v.units == 0 {
                    Side::Bid
                } else {
                    Side::Ask
                },
            },
        ),
        _ => None,
    }
}

/// The records of a batch of tuples, in order; unreadable tuples are skipped.
pub open spec fn orders_of_rows(rows: Seq<Seq<Option<Seq<char>>>>) -> Seq<OrderRecord>
    decreases rows.len(),
{
    if rows.len() == 0 {
        Seq::empty()
    } else {
        let rest = orders_of_rows(rows.drop_last());
        match order_of_cells(rows.last()) {
            Some(r) => rest.push(r),
            None => rest,
        }
    }
}

/// The tuples of a batch whose items are all arrays; `None` when one is not.
pub open spec fn all_tuples(items: Seq<Option<Seq<Option<Seq<char>>>>>) -> Option<
    Seq<Seq<Option<Seq<char>>>>,
> {
    if forall|i: int| 0 <= i < items.len() ==> items[i] is Some {
        Some(Seq::new(items.len(), |i: int| items[i].unwrap()))
    } else {
        None
    }
}

/// The order tuples that a payload holds: a JSON array whose items are all
/// arrays.
pub open spec fn payload_tuples(payload: Seq<char>) -> Option<Seq<Seq<Option<Seq<char>>>>> {
    match json_batch(payload) {
        Some(items) => all_tuples(items),
        None => None,
    }
}

/// The amount in element `i` of `tuple`, as `cell_decimal` says.
pub(crate) fn read_cell(tuple: &Vec<Option<String>>, i: usize) -> (r: Option<Decimal>)
    ensures
        r == cell_decimal(tuple.deep_view(), i as int),
{
    if i >= tuple.len() {
        return None;
    }
    match &tuple[i] {
        Some(t) => parse_decimal(t.as_str()),
        None => None,
    }
}

/// Reads one order tuple: the price at `PRICE_FIELD`, and the volume at
/// `VOLUME_FIELD`, whose value also picks the side. `None` when either is
/// missing or is not a number that reads as an amount.
pub fn decode_order_tuple(tuple: &Vec<Option<String>>) -> (r: Option<OrderRecord>)
    ensures
        r == order_of_cells(tuple.deep_view()),
{
    match (read_cell(tuple, PRICE_FIELD), read_cell(tuple, VOLUME_FIELD)) {
        (Some(p), Some(v)) => Some(
            OrderRecord {
                price: p,
                volume: v,
                side: if v.units == 0 {
                    Side::Bid
                } else {
                    Side::Ask
                },
            },
        ),
        _ => None,
    }
}

/// Reads a batch whose items must all be tuples: `None` when one is not,
/// else the records of the tuples that decode, in order.
fn decode_order_items(items: &Vec<Option<Vec<Option<String>>>>) -> (r: Option<Vec<OrderRecord>>)
    ensures
        match all_tuples(items.deep_view()) {
            Some(rows) => r matches Some(v) && v@ == orders_of_rows(rows),
            None => r is None,
        },
{
    let ghost elems = items.deep_view();
    let mut j: usize = 0;
    while j < items.len()
        invariant
            j <= items@.len(),
            elems == items.deep_view(),
            forall|i: int| 0 <= i < j ==> elems[i] is Some,
        decreases items@.len() - j,
    {
        if items[j].is_none() {
            proof {
                assert(elems[j as int] is None);
            }
            return None;
        }
        j = j + 1;
    }
    let ghost rows = all_tuples(elems).unwrap();
    let mut out: Vec<OrderRecord> = Vec::new();
    let mut i: usize = 0;
    while i < items.len()
        invariant
            i <= items@.len(),
            elems == items.deep_view(),
            all_tuples(elems) == Some(rows),
            rows.len() == items@.len(),
            out@ == orders_of_rows(rows.take(i as int)),
        decreases items@.len() - i,
    {
        proof {
            assert(rows.take(i + 1).drop_last() =~= rows.take(i as int));
            assert(rows.take(i + 1).last() == rows[i as int]);
        }
        match &items[i] {
            Some(t) => {
                proof {
                    assert(rows[i as int] == t.deep_view());
                }
                match decode_order_tuple(t) {
                    Some(r) => out.push(r),
                    None => {},
                }
            },
            None => {
                proof {
                    assert(elems[i as int] is Some);
                }
            },
        }
        i = i + 1;
    }
    proof {
        assert(rows.take(items@.len() as int) =~= rows);
    }
    Some(out)
}

/// Reads every tuple of a batch in order, skipping those that do not decode.
pub fn decode_order_tuples(tuples: &Vec<Vec<Option<String>>>) -> (r: Vec<OrderRecord>)
    ensures
        r@ == orders_of_rows(tuples.deep_view()),
{
    let ghost rows = tuples.deep_view();
    let mut out: Vec<OrderRecord> = Vec::new();
    let mut i: usize = 0;
    while i < tuples.len()
        invariant
            i <= tuples@.len(),
            rows == tuples.deep_view(),
            out@ == orders_of_rows(rows.take(i as int)),
        decreases tuples@.len() - i,
    {
        proof {
            assert(rows.take(i + 1).drop_last() =~= rows.take(i as int));
            assert(rows.take(i + 1).last() == tuples@[i as int].deep_view());
        }
        match decode_order_tuple(&tuples[i]) {
            Some(r) => out.push(r),
            None => {},
        }
        i = i + 1;
    }
    proof {
        assert(rows.take(tuples@.len() as int) =~= rows);
    }
    out
}

/// A replica of the exchange's order book, at most `depth` levels a side
/// once a diff has been applied.
#[derive(Debug)]
pub struct OrderBook {
    depth: usize,
    bids: Vec<Level>,
    asks: Vec<Level>,
}

impl View for OrderBook {
    type V = BookState;

    closed spec fn view(&self) -> BookState {
        BookState { depth: self.depth as nat, bids: self.bids@, asks: self.asks@ }
    }
}

impl OrderBook {
    /// An empty book that keeps `depth` levels a side.
    pub fn new(depth: usize) -> (r: OrderBook)
        ensures
            r@ == (BookState { depth: depth as nat, bids: Seq::empty(), asks: Seq::empty() }),
    {
        OrderBook { depth, bids: Vec::new(), asks: Vec::new() }
    }

    /// The number of levels kept on each side.
    pub fn depth(&self) -> (r: usize)
        ensures
            r as nat == self@.depth,
    {
        self.depth
    }

    /// The bids, highest price first.
    pub fn bids(&self) -> (r: &Vec<Level>)
        ensures
            r@ == self@.bids,
    {
        &self.bids
    }

    /// The asks, lowest price first.
    pub fn asks(&self) -> (r: &Vec<Level>)
        ensures
            r@ == self@.asks,
    {
        &self.asks
    }

    /// Applies one diff record to its side.
    fn apply_one(&mut self, r: OrderRecord)
        ensures
            final(self)@ == apply_record(old(self)@, r),
    {
        let l = Level { price: r.price, volume: r.volume };
        match r.side {
            Side::Bid => apply_to_levels(Side::Bid, &mut self.bids, l),
            Side::Ask => apply_to_levels(Side::Ask, &mut self.asks, l),
        }
    }

    /// Sorts both sides best first, then cuts them down to the depth,
    /// dropping the worst-ranked levels.
    fn truncate_to_depth(&mut self)
        ensures
            final(self)@ == truncated(old(self)@),
    {
        self.asks = sort_levels(Side::Ask, &self.asks);
        self.bids = sort_levels(Side::Bid, &self.bids);
        if self.asks.len() > self.depth {
            self.asks.truncate(self.depth);
        }
        if self.bids.len() > self.depth {
            self.bids.truncate(self.depth);
        }
    }

    /// Applies a batch of diff records in the given order, then truncates
    /// both sides to the depth.
    pub fn apply_records(&mut self, records: &Vec<OrderRecord>)
        ensures
            final(self)@ == apply_batch(old(self)@, records@),
    {
        let ghost start = self@;
        let mut i: usize = 0;
        while i < records.len()
            invariant
                i <= records@.len(),
                self@ == apply_records(start, records@.take(i as int)),
            decreases records@.len() - i,
        {
            proof {
                assert(records@.take(i + 1).drop_last() =~= records@.take(i as int));
            }
            self.apply_one(records[i]);
            i = i + 1;
        }
        proof {
            assert(records@.take(records@.len() as int) =~= records@);
        }
        self.truncate_to_depth();
    }

    /// Replaces the whole book by the levels of a snapshot, each on its side
    /// and in order; the depth stays and nothing is truncated.
    pub fn initialize_records(&mut self, records: &Vec<OrderRecord>)
        ensures
            final(self)@ == snapshot_records(old(self)@.depth, records@),
    {
        self.bids = Vec::new();
        self.asks = Vec::new();
        let mut i: usize = 0;
        while i < records.len()
            invariant
                i <= records@.len(),
                self@.depth == old(self)@.depth,
                self@ == snapshot_records(self@.depth, records@.take(i as int)),
            decreases records@.len() - i,
        {
            proof {
                assert(records@.take(i + 1).drop_last() =~= records@.take(i as int));
            }
            let r = records[i];
            let l = Level { price: r.price, volume: r.volume };
            match r.side {
                Side::Bid => insert_in_order(Side::Bid, &mut self.bids, l),
                Side::Ask => insert_in_order(Side::Ask, &mut self.asks, l),
            }
            i = i + 1;
        }
        proof {
            assert(records@.take(records@.len() as int) =~= records@);
        }
    }
    /// Applies a batch of order tuples: each one that decodes, in order, then
    /// truncation of both sides to the depth.
    pub fn apply(&mut self, tuples: &Vec<Vec<Option<String>>>)
        ensures
            final(self)@ == apply_batch(old(self)@, orders_of_rows(tuples.deep_view())),
    {
        let records = decode_order_tuples(tuples);
        self.apply_records(&records);
    }

    /// Applies the diff batch that `payload`, a JSON array of order tuples,
    /// holds. A payload that is not such a document (not JSON, not an array,
    /// or with an item that is not an array) leaves the book as it was.
    pub fn update(&mut self, payload: &str)
        ensures
            match payload_tuples(payload@) {
                Some(rows) => final(self)@ == apply_batch(old(self)@, orders_of_rows(rows)),
                None => final(self)@ == old(self)@,
            },
    {
        match parse_batch(payload) {
            Some(items) => match decode_order_items(&items) {
                Some(records) => self.apply_records(&records),
                None => {},
            },
            None => {},
        }
    }

    /// Replaces the book by the snapshot that a batch of order tuples gives.
    pub fn initialize_tuples(&mut self, tuples: &Vec<Vec<Option<String>>>)
        ensures
            final(self)@ == snapshot_records(old(self)@.depth, orders_of_rows(tuples.deep_view())),
    {
        let records = decode_order_tuples(tuples);
        self.initialize_records(&records);
    }

    /// Replaces the book by the snapshot that `payload`, a JSON array of order
    /// tuples, holds. A payload that is not such a document (not JSON, not an
    /// array, or with an item that is not an array) leaves the book as it was.
    pub fn initialize(&mut self, payload: &str)
        ensures
            match payload_tuples(payload@) {
                Some(rows) => final(self)@ == snapshot_records(old(self)@.depth, orders_of_rows(rows)),
                None => final(self)@ == old(self)@,
            },
    {
        match parse_batch(payload) {
            Some(items) => match decode_order_items(&items) {
                Some(records) => self.initialize_records(&records),
                None => {},
            },
            None => {},
        }
    }
}

} // verus!
