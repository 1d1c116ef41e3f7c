//! What holds of the order book across calls: the invariants that snapshots
//! and diff batches keep, and how single diffs act.

use vstd::prelude::*;

use crate::order_book::{
    apply_batch, apply_record, apply_records, apply_to_side, has_price, insert_level, is_strictly_ordered,
    is_ordered, keep_best, lemma_insert_at, lemma_replace_at, level_of, price_of, ranks_before, remove_price, replace_level,
    snapshot_records, sorted_levels, truncated, BookState, Level, OrderRecord, Side,
};

verus! {

/// A side in good shape: strictly ordered best first (so one level per
/// price), and no level with volume zero.
pub open spec fn is_clean_side(side: Side, s: Seq<Level>) -> bool {
    &&& is_strictly_ordered(side, s)
    &&& forall|i: int| 0 <= i < s.len() ==> s[i].volume.units != 0
}

/// The invariants of a book: both sides clean and none longer than the depth.
pub open spec fn is_valid_book(b: BookState) -> bool {
    &&& is_clean_side(Side::Bid, b.bids)
    &&& is_clean_side(Side::Ask, b.asks)
    &&& b.bids.len() <= b.depth
    &&& b.asks.len() <= b.depth
}

/// A snapshot that the book can hold as it is: no two records for one price
/// on one side, no zero volume, and at most `depth` records a side.
pub open spec fn is_valid_snapshot(depth: nat, rs: Seq<OrderRecord>) -> bool {
    &&& forall|i: int, j: int|
        0 <= i < j < rs.len() && rs[i].side == rs[j].side ==> rs[i].price != rs[j].price
    &&& forall|i: int| 0 <= i < rs.len() ==> rs[i].volume.units != 0
    &&& rs.filter(|r: OrderRecord| r.side == Side::Bid).len() <= depth
    &&& rs.filter(|r: OrderRecord| r.side == Side::Ask).len() <= depth
}

proof fn lemma_ranks_total(side: Side, a: int, b: int)
    ensures
        a != b ==> (ranks_before(side, a, b) || ranks_before(side, b, a)),
        !(ranks_before(side, a, b) && ranks_before(side, b, a)),
        !ranks_before(side, a, a),
{
}

proof fn lemma_ranks_transitive(side: Side, a: int, b: int, c: int)
    ensures
        ranks_before(side, a, b) && ranks_before(side, b, c) ==> ranks_before(side, a, c),
        ranks_before(side, a, b) && !ranks_before(side, c, b) ==> ranks_before(side, a, c),
        !ranks_before(side, b, a) && ranks_before(side, b, c) ==> ranks_before(side, a, c),
{
}

/// Where `insert_level` puts `l`, with what holds on either side of it.
proof fn lemma_insert_index(side: Side, s: Seq<Level>, l: Level) -> (k: int)
    ensures
        0 <= k <= s.len(),
        forall|i: int| 0 <= i < k ==> !ranks_before(side, price_of(l), price_of(s[i])),
        k < s.len() ==> ranks_before(side, price_of(l), price_of(s[k])),
        insert_level(side, s, l) == s.insert(k, l),
    decreases s.len(),
{
    if s.len() == 0 || ranks_before(side, price_of(l), price_of(s[0])) {
        lemma_insert_at(side, s, l, 0);
        0
    } else {
        let t = s.drop_first();
        let k1 = lemma_insert_index(side, t, l);
        let k = k1 + 1;
        assert forall|i: int| 0 <= i < k implies !ranks_before(
            side,
            price_of(l),
            price_of(s[i]),
        ) by {
            if i > 0 {
                assert(s[i] == t[i - 1]);
            }
        }
        if k < s.len() {
            assert(s[k] == t[k1]);
        }
        lemma_insert_at(side, s, l, k);
        k
    }
}

/// A new price inserted into a clean side keeps it clean.
proof fn lemma_insert_clean(side: Side, s: Seq<Level>, l: Level)
    requires
        is_clean_side(side, s),
        !has_price(s, price_of(l)),
        l.volume.units != 0,
    ensures
        is_clean_side(side, insert_level(side, s, l)),
        insert_level(side, s, l).len() == s.len() + 1,
{
    let k = lemma_insert_index(side, s, l);
    let r = s.insert(k, l);
    assert forall|i: int| 0 <= i < k implies ranks_before(side, price_of(s[i]), price_of(l)) by {
        lemma_ranks_total(side, price_of(s[i]), price_of(l));
    }
    assert forall|i: int| k <= i < s.len() implies ranks_before(side, price_of(l), price_of(s[i])) by {
        if i > k {
            lemma_ranks_transitive(side, price_of(l), price_of(s[k]), price_of(s[i]));
        }
    }
    assert forall|i: int, j: int| 0 <= i < j < r.len() implies ranks_before(
        side,
        price_of(r[i]),
        price_of(r[j]),
    ) by {
        if j < k {
            assert(r[i] == s[i] && r[j] == s[j]);
        } else if j == k {
            assert(r[i] == s[i] && r[j] == l);
        } else if i < k {
            assert(r[i] == s[i] && r[j] == s[j - 1]);
            lemma_ranks_transitive(side, price_of(s[i]), price_of(l), price_of(s[j - 1]));
        } else if i == k {
            assert(r[i] == l && r[j] == s[j - 1]);
        } else {
            assert(r[i] == s[i - 1] && r[j] == s[j - 1]);
        }
    }
    assert forall|i: int| 0 <= i < r.len() implies r[i].volume.units != 0 by {
        if i < k {
            assert(r[i] == s[i]);
        } else if i > k {
            assert(r[i] == s[i - 1]);
        }
    }
}

/// Replacing a level keeps every price where it was; each level is either
/// the old one or the new one at the same price.
proof fn lemma_replace_shape(s: Seq<Level>, l: Level)
    ensures
        replace_level(s, l).len() == s.len(),
        forall|i: int|
            0 <= i < s.len() ==> price_of(#[trigger] replace_level(s, l)[i]) == price_of(s[i]) && (
            replace_level(s, l)[i] == s[i] || replace_level(s, l)[i] == l),
    decreases s.len(),
{
    if s.len() > 0 {
        let t = s.drop_first();
        lemma_replace_shape(t, l);
        let r = replace_level(s, l);
        assert forall|i: int| 0 <= i < s.len() implies price_of(#[trigger] r[i]) == price_of(s[i])
            && (r[i] == s[i] || r[i] == l) by {
            if i > 0 && price_of(s[0]) != price_of(l) {
                assert(r[i] == replace_level(t, l)[i - 1]);
                assert(s[i] == t[i - 1]);
            }
            if i > 0 && price_of(s[0]) == price_of(l) {
                assert(r[i] == t[i - 1]);
            }
        }
    }
}

/// Removing a price from a clean side keeps it clean, and leaves no level at
/// that price.
proof fn lemma_remove_clean(side: Side, s: Seq<Level>, p: int)
    requires
        is_clean_side(side, s),
    ensures
        is_clean_side(side, remove_price(s, p)),
        !has_price(remove_price(s, p), p),
        remove_price(s, p).len() <= s.len(),
        forall|x: Level| remove_price(s, p).contains(x) ==> s.contains(x),
    decreases s.len(),
{
    reveal(Seq::filter);
    let r = remove_price(s, p);
    if s.len() > 0 {
        let t = s.drop_last();
        assert(is_clean_side(side, t)) by {
            assert forall|i: int, j: int| 0 <= i < j < t.len() implies ranks_before(
                side,
                price_of(t[i]),
                price_of(t[j]),
            ) by {
                assert(t[i] == s[i] && t[j] == s[j]);
            }
            assert forall|i: int| 0 <= i < t.len() implies t[i].volume.units != 0 by {
                assert(t[i] == s[i]);
            }
        }
        lemma_remove_clean(side, t, p);
        let rt = remove_price(t, p);
        assert(r == if price_of(s.last()) != p {
            rt.push(s.last())
        } else {
            rt
        });
        assert forall|x: Level| r.contains(x) implies s.contains(x) by {
            if rt.contains(x) {
                assert(t.contains(x));
                let i = choose|i: int| 0 <= i < t.len() && t[i] == x;
                assert(s[i] == x);
            } else {
                assert(x == s.last());
                assert(s[s.len() - 1] == x);
            }
        }
        if price_of(s.last()) != p {
            assert forall|i: int, j: int| 0 <= i < j < r.len() implies ranks_before(
                side,
                price_of(r[i]),
                price_of(r[j]),
            ) by {
                if j == r.len() - 1 {
                    assert(r[i] == rt[i]);
                    assert(rt.contains(rt[i]));
                    assert(t.contains(r[i]));
                    let m = choose|m: int| 0 <= m < t.len() && t[m] == r[i];
                    assert(s[m] == r[i]);
                    assert(r[j] == s[s.len() - 1]);
                } else {
                    assert(r[i] == rt[i] && r[j] == rt[j]);
                }
            }
            assert forall|i: int| 0 <= i < r.len() implies r[i].volume.units != 0 by {
                if i < r.len() - 1 {
                    assert(r[i] == rt[i]);
                } else {
                    assert(r[i] == s[s.len() - 1]);
                }
            }
            assert forall|i: int| 0 <= i < r.len() implies price_of(r[i]) != p by {
                if i < r.len() - 1 {
                    assert(r[i] == rt[i]);
                }
            }
        }
    }
}

/// One record keeps a clean side clean.
proof fn lemma_apply_clean(side: Side, s: Seq<Level>, l: Level)
    requires
        is_clean_side(side, s),
    ensures
        is_clean_side(side, apply_to_side(side, s, l)),
{
    if l.volume.units == 0 {
        lemma_remove_clean(side, s, price_of(l));
    } else if has_price(s, price_of(l)) {
        lemma_replace_shape(s, l);
        let r = replace_level(s, l);
        assert forall|i: int, j: int| 0 <= i < j < r.len() implies ranks_before(
            side,
            price_of(r[i]),
            price_of(r[j]),
        ) by {
            assert(price_of(r[i]) == price_of(s[i]));
            assert(price_of(r[j]) == price_of(s[j]));
        }
        assert forall|i: int| 0 <= i < r.len() implies r[i].volume.units != 0 by {
            assert(price_of(r[i]) == price_of(s[i]));
        }
    } else {
        lemma_insert_clean(side, s, l);
    }
}

proof fn lemma_records_clean(b: BookState, rs: Seq<OrderRecord>)
    requires
        is_clean_side(Side::Bid, b.bids),
        is_clean_side(Side::Ask, b.asks),
    ensures
        is_clean_side(Side::Bid, apply_records(b, rs).bids),
        is_clean_side(Side::Ask, apply_records(b, rs).asks),
        apply_records(b, rs).depth == b.depth,
    decreases rs.len(),
{
    if rs.len() > 0 {
        lemma_records_clean(b, rs.drop_last());
        let m = apply_records(b, rs.drop_last());
        lemma_apply_clean(Side::Bid, m.bids, level_of(rs.last()));
        lemma_apply_clean(Side::Ask, m.asks, level_of(rs.last()));
    }
}

proof fn lemma_clean_ordered(side: Side, s: Seq<Level>)
    requires
        is_strictly_ordered(side, s),
    ensures
        is_ordered(side, s),
{
    assert forall|i: int, j: int| 0 <= i < j < s.len() implies !ranks_before(
        side,
        price_of(s[j]),
        price_of(s[i]),
    ) by {
        lemma_ranks_total(side, price_of(s[i]), price_of(s[j]));
    }
}

/// Sorting a side that is already in order leaves it as it is.
proof fn lemma_sorted_identity(side: Side, s: Seq<Level>)
    requires
        is_ordered(side, s),
    ensures
        sorted_levels(side, s) == s,
    decreases s.len(),
{
    if s.len() > 0 {
        let t = s.drop_last();
        assert(is_ordered(side, t)) by {
            assert forall|i: int, j: int| 0 <= i < j < t.len() implies !ranks_before(
                side,
                price_of(t[j]),
                price_of(t[i]),
            ) by {
                assert(t[i] == s[i] && t[j] == s[j]);
            }
        }
        lemma_sorted_identity(side, t);
        assert forall|i: int| 0 <= i < t.len() implies !ranks_before(
            side,
            price_of(s.last()),
            price_of(t[i]),
        ) by {
            assert(t[i] == s[i]);
        }
        lemma_insert_at(side, t, s.last(), t.len() as int);
        assert(t.insert(t.len() as int, s.last()) =~= s);
    }
}

/// On a book whose sides are in order, truncation only cuts.
proof fn lemma_truncated_ordered(b: BookState)
    requires
        is_ordered(Side::Bid, b.bids),
        is_ordered(Side::Ask, b.asks),
    ensures
        truncated(b) == (BookState {
            depth: b.depth,
            bids: keep_best(b.bids, b.depth),
            asks: keep_best(b.asks, b.depth),
        }),
{
    lemma_sorted_identity(Side::Bid, b.bids);
    lemma_sorted_identity(Side::Ask, b.asks);
}

/// On a book whose sides are clean, truncation only cuts.
proof fn lemma_truncated_clean(b: BookState)
    requires
        is_strictly_ordered(Side::Bid, b.bids),
        is_strictly_ordered(Side::Ask, b.asks),
    ensures
        truncated(b) == (BookState {
            depth: b.depth,
            bids: keep_best(b.bids, b.depth),
            asks: keep_best(b.asks, b.depth),
        }),
{
    lemma_clean_ordered(Side::Bid, b.bids);
    lemma_clean_ordered(Side::Ask, b.asks);
    lemma_truncated_ordered(b);
}

proof fn lemma_keep_best_clean(side: Side, s: Seq<Level>, depth: nat)
    requires
        is_clean_side(side, s),
    ensures
        is_clean_side(side, keep_best(s, depth)),
        keep_best(s, depth).len() <= depth,
{
    let r = keep_best(s, depth);
    assert forall|i: int, j: int| 0 <= i < j < r.len() implies ranks_before(
        side,
        price_of(r[i]),
        price_of(r[j]),
    ) by {
        assert(r[i] == s[i] && r[j] == s[j]);
    }
    assert forall|i: int| 0 <= i < r.len() implies r[i].volume.units != 0 by {
        assert(r[i] == s[i]);
    }
}

/// Invariant preservation for diffs: a diff batch, whatever records it
/// holds, turns a valid book into a valid book.
pub proof fn lemma_apply_batch_valid(b: BookState, rs: Seq<OrderRecord>)
    requires
        is_valid_book(b),
    ensures
        is_valid_book(apply_batch(b, rs)),
{
    lemma_records_clean(b, rs);
    let m = apply_records(b, rs);
    lemma_truncated_clean(m);
    lemma_keep_best_clean(Side::Bid, m.bids, m.depth);
    lemma_keep_best_clean(Side::Ask, m.asks, m.depth);
}

proof fn lemma_snapshot_shape(depth: nat, rs: Seq<OrderRecord>)
    requires
        is_valid_snapshot(depth, rs),
    ensures
        snapshot_records(depth, rs).depth == depth,
        is_clean_side(Side::Bid, snapshot_records(depth, rs).bids),
        is_clean_side(Side::Ask, snapshot_records(depth, rs).asks),
        snapshot_records(depth, rs).bids.len() == rs.filter(
            |r: OrderRecord| r.side == Side::Bid,
        ).len(),
        snapshot_records(depth, rs).asks.len() == rs.filter(
            |r: OrderRecord| r.side == Side::Ask,
        ).len(),
        forall|p: int|
            has_price(snapshot_records(depth, rs).bids, p) ==> exists|i: int|
                0 <= i < rs.len() && rs[i].side == Side::Bid && rs[i].price.units == p,
        forall|p: int|
            has_price(snapshot_records(depth, rs).asks, p) ==> exists|i: int|
                0 <= i < rs.len() && rs[i].side == Side::Ask && rs[i].price.units == p,
    decreases rs.len(),
{
    reveal(Seq::filter);
    if rs.len() > 0 {
        let t = rs.drop_last();
        let r = rs.last();
        assert(t.filter(|r: OrderRecord| r.side == Side::Bid).len() <= rs.filter(
            |r: OrderRecord| r.side == Side::Bid,
        ).len());
        assert(t.filter(|r: OrderRecord| r.side == Side::Ask).len() <= rs.filter(
            |r: OrderRecord| r.side == Side::Ask,
        ).len());
        assert(is_valid_snapshot(depth, t)) by {
            assert forall|i: int, j: int|
                0 <= i < j < t.len() && t[i].side == t[j].side implies t[i].price != t[j].price by {
                assert(t[i] == rs[i] && t[j] == rs[j]);
            }
            assert forall|i: int| 0 <= i < t.len() implies t[i].volume.units != 0 by {
                assert(t[i] == rs[i]);
            }
        }
        lemma_snapshot_shape(depth, t);
        let b = snapshot_records(depth, t);
        let l = level_of(r);
        assert(r == rs[rs.len() - 1]);
        match r.side {
            Side::Bid => {
                if has_price(b.bids, price_of(l)) {
                    let i = choose|i: int|
                        0 <= i < t.len() && t[i].side == Side::Bid && t[i].price.units
                            == price_of(l);
                    assert(rs[i] == t[i]);
                }
                lemma_insert_clean(Side::Bid, b.bids, l);
                let k = lemma_insert_index(Side::Bid, b.bids, l);
                let nb = b.bids.insert(k, l);
                assert forall|p: int| has_price(nb, p) implies exists|i: int|
                    0 <= i < rs.len() && rs[i].side == Side::Bid && rs[i].price.units == p by {
                    let m = choose|m: int| 0 <= m < nb.len() && price_of(nb[m]) == p;
                    if m < k {
                        assert(nb[m] == b.bids[m]);
                        assert(has_price(b.bids, p));
                        let i = choose|i: int|
                            0 <= i < t.len() && t[i].side == Side::Bid && t[i].price.units == p;
                        assert(rs[i] == t[i]);
                    } else if m > k {
                        assert(nb[m] == b.bids[m - 1]);
                        assert(has_price(b.bids, p));
                        let i = choose|i: int|
                            0 <= i < t.len() && t[i].side == Side::Bid && t[i].price.units == p;
                        assert(rs[i] == t[i]);
                    } else {
                        assert(rs[rs.len() - 1].price.units == p);
                    }
                }
                assert forall|p: int|
                    has_price(snapshot_records(depth, rs).asks, p) implies exists|i: int|
                    0 <= i < rs.len() && rs[i].side == Side::Ask && rs[i].price.units == p by {
                    let i = choose|i: int|
                        0 <= i < t.len() && t[i].side == Side::Ask && t[i].price.units == p;
                    assert(rs[i] == t[i]);
                }
            },
            Side::Ask => {
                if has_price(b.asks, price_of(l)) {
                    let i = choose|i: int|
                        0 <= i < t.len() && t[i].side == Side::Ask && t[i].price.units
                            == price_of(l);
                    assert(rs[i] == t[i]);
                }
                lemma_insert_clean(Side::Ask, b.asks, l);
                let k = lemma_insert_index(Side::Ask, b.asks, l);
                let na = b.asks.insert(k, l);
                assert forall|p: int| has_price(na, p) implies exists|i: int|
                    0 <= i < rs.len() && rs[i].side == Side::Ask && rs[i].price.units == p by {
                    let m = choose|m: int| 0 <= m < na.len() && price_of(na[m]) == p;
                    if m < k {
                        assert(na[m] == b.asks[m]);
                        assert(has_price(b.asks, p));
                        let i = choose|i: int|
                            0 <= i < t.len() && t[i].side == Side::Ask && t[i].price.units == p;
                        assert(rs[i] == t[i]);
                    } else if m > k {
                        assert(na[m] == b.asks[m - 1]);
                        assert(has_price(b.asks, p));
                        let i = choose|i: int|
                            0 <= i < t.len() && t[i].side == Side::Ask && t[i].price.units == p;
                        assert(rs[i] == t[i]);
                    } else {
                        assert(rs[rs.len() - 1].price.units == p);
                    }
                }
                assert forall|p: int|
                    has_price(snapshot_records(depth, rs).bids, p) implies exists|i: int|
                    0 <= i < rs.len() && rs[i].side == Side::Bid && rs[i].price.units == p by {
                    let i = choose|i: int|
                        0 <= i < t.len() && t[i].side == Side::Bid && t[i].price.units == p;
                    assert(rs[i] == t[i]);
                }
            },
        }
    }
}

/// Invariant preservation for snapshots: a valid snapshot gives a valid
/// book.
pub proof fn lemma_snapshot_valid(depth: nat, rs: Seq<OrderRecord>)
    requires
        is_valid_snapshot(depth, rs),
    ensures
        is_valid_book(snapshot_records(depth, rs)),
{
    lemma_snapshot_shape(depth, rs);
}

/// The side of `b` named by `side`.
pub open spec fn side_of(b: BookState, side: Side) -> Seq<Level> {
    match side {
        Side::Bid => b.bids,
        Side::Ask => b.asks,
    }
}

proof fn lemma_remove_absent(s: Seq<Level>, p: int)
    requires
        !has_price(s, p),
    ensures
        remove_price(s, p) == s,
    decreases s.len(),
{
    reveal(Seq::filter);
    if s.len() > 0 {
        let t = s.drop_last();
        assert(!has_price(t, p)) by {
            if has_price(t, p) {
                let i = choose|i: int| 0 <= i < t.len() && price_of(t[i]) == p;
                assert(s[i] == t[i]);
            }
        }
        lemma_remove_absent(t, p);
        assert(price_of(s[s.len() - 1]) != p);
        assert(t.push(s.last()) =~= s);
    }
}

proof fn lemma_remove_one(side: Side, s: Seq<Level>, k: int)
    requires
        is_clean_side(side, s),
        0 <= k < s.len(),
    ensures
        remove_price(s, price_of(s[k])) == s.remove(k),
    decreases s.len(),
{
    reveal(Seq::filter);
    let p = price_of(s[k]);
    let t = s.drop_last();
    assert forall|i: int| 0 <= i < s.len() && i != k implies price_of(s[i]) != p by {
        if i < k {
            assert(ranks_before(side, price_of(s[i]), price_of(s[k])));
        } else {
            assert(ranks_before(side, price_of(s[k]), price_of(s[i])));
        }
        lemma_ranks_total(side, p, p);
    }
    if k == s.len() - 1 {
        assert(!has_price(t, p)) by {
            if has_price(t, p) {
                let i = choose|i: int| 0 <= i < t.len() && price_of(t[i]) == p;
                assert(s[i] == t[i]);
            }
        }
        lemma_remove_absent(t, p);
        assert(s.remove(k) =~= t);
    } else {
        assert(is_clean_side(side, t)) by {
            assert forall|i: int, j: int| 0 <= i < j < t.len() implies ranks_before(
                side,
                price_of(t[i]),
                price_of(t[j]),
            ) by {
                assert(t[i] == s[i] && t[j] == s[j]);
            }
            assert forall|i: int| 0 <= i < t.len() implies t[i].volume.units != 0 by {
                assert(t[i] == s[i]);
            }
        }
        assert(t[k] == s[k]);
        lemma_remove_one(side, t, k);
        assert(price_of(s.last()) != p);
        assert(s.remove(k) =~= t.remove(k).push(s.last()));
    }
}

proof fn lemma_single_batch(b: BookState, r: OrderRecord)
    ensures
        apply_records(b, seq![r]) == apply_record(b, r),
{
    let rs = seq![r];
    assert(rs.drop_last() =~= Seq::<OrderRecord>::empty());
    assert(apply_records(b, rs.drop_last()) == b);
    assert(rs.last() == r);
}

/// Deleting an absent price is a no-op: on a valid book, a diff of one
/// record with volume zero, at a price that its side does not hold, leaves
/// the book as it was.
pub proof fn lemma_delete_absent(b: BookState, r: OrderRecord)
    requires
        is_valid_book(b),
        r.volume.units == 0,
        !has_price(side_of(b, r.side), r.price.units as int),
    ensures
        apply_batch(b, seq![r]) == b,
{
    lemma_single_batch(b, r);
    lemma_remove_absent(side_of(b, r.side), r.price.units as int);
    lemma_truncated_clean(apply_records(b, seq![r]));
}

/// Deleting twice acts once: on a valid book, a diff of one record with
/// volume zero removes exactly the level at that price, if there is one, and
/// the same diff applied again changes nothing.
pub proof fn lemma_delete_twice(b: BookState, r: OrderRecord)
    requires
        is_valid_book(b),
        r.volume.units == 0,
    ensures
        apply_batch(apply_batch(b, seq![r]), seq![r]) == apply_batch(b, seq![r]),
        !has_price(side_of(apply_batch(b, seq![r]), r.side), r.price.units as int),
        forall|k: int|
            0 <= k < side_of(b, r.side).len() && price_of(side_of(b, r.side)[k])
                == r.price.units ==> side_of(apply_batch(b, seq![r]), r.side) == side_of(
                b,
                r.side,
            ).remove(k),
{
    let once = apply_batch(b, seq![r]);
    lemma_single_batch(b, r);
    let s = side_of(b, r.side);
    lemma_remove_clean(r.side, s, r.price.units as int);
    lemma_truncated_clean(apply_records(b, seq![r]));
    lemma_apply_batch_valid(b, seq![r]);
    lemma_delete_absent(once, r);
    assert forall|k: int|
        0 <= k < s.len() && price_of(s[k]) == r.price.units implies side_of(once, r.side)
        == s.remove(k) by {
        lemma_remove_one(r.side, s, k);
    }
}

/// Updating in place: on a valid book, a diff of one record with a non-zero
/// volume, at the price of level `k` of its side, gives that level the new
/// volume and leaves every other level, and the other side, where they were.
pub proof fn lemma_update_in_place(b: BookState, r: OrderRecord, k: int)
    requires
        is_valid_book(b),
        r.volume.units != 0,
        0 <= k < side_of(b, r.side).len(),
        price_of(side_of(b, r.side)[k]) == r.price.units,
    ensures
        side_of(apply_batch(b, seq![r]), r.side) == side_of(b, r.side).update(k, level_of(r)),
        r.side == Side::Bid ==> apply_batch(b, seq![r]).asks == b.asks,
        r.side == Side::Ask ==> apply_batch(b, seq![r]).bids == b.bids,
{
    lemma_single_batch(b, r);
    let s = side_of(b, r.side);
    assert forall|i: int| 0 <= i < k implies price_of(s[i]) != price_of(level_of(r)) by {
        assert(ranks_before(r.side, price_of(s[i]), price_of(s[k])));
    }
    lemma_replace_at(s, level_of(r), k);
    lemma_apply_clean(r.side, s, level_of(r));
    lemma_truncated_clean(apply_records(b, seq![r]));
}

/// Inserting a new price in order: on a valid book, a diff of one record
/// with a non-zero volume, at a price that ranks after the first `k` levels
/// of its side and before the rest, places the new level at index `k`; only
/// truncation to the depth may then drop the worst level.
pub proof fn lemma_insert_new_price(b: BookState, r: OrderRecord, k: int)
    requires
        is_valid_book(b),
        r.volume.units != 0,
        0 <= k <= side_of(b, r.side).len(),
        forall|i: int|
            0 <= i < k ==> ranks_before(r.side, price_of(side_of(b, r.side)[i]), r.price.units as int),
        forall|i: int|
            k <= i < side_of(b, r.side).len() ==> ranks_before(
                r.side,
                r.price.units as int,
                price_of(side_of(b, r.side)[i]),
            ),
    ensures
        side_of(apply_records(b, seq![r]), r.side) == side_of(b, r.side).insert(k, level_of(r)),
        side_of(apply_batch(b, seq![r]), r.side) == keep_best(
            side_of(b, r.side).insert(k, level_of(r)),
            b.depth,
        ),
{
    lemma_single_batch(b, r);
    let s = side_of(b, r.side);
    let p = r.price.units as int;
    assert(!has_price(s, p)) by {
        if has_price(s, p) {
            let i = choose|i: int| 0 <= i < s.len() && price_of(s[i]) == p;
            lemma_ranks_total(r.side, p, p);
        }
    }
    assert forall|i: int| 0 <= i < k implies !ranks_before(r.side, p, price_of(s[i])) by {
        lemma_ranks_total(r.side, p, price_of(s[i]));
    }
    lemma_insert_at(r.side, s, level_of(r), k);
    lemma_insert_clean(r.side, s, level_of(r));
    lemma_truncated_clean(apply_records(b, seq![r]));
}

/// Truncation drops the worst levels only: after any diff batch on a valid
/// book, each side is the best-ranked prefix of what the records left, cut to
/// the depth, and every level kept ranks strictly before every level dropped.
pub proof fn lemma_truncation_keeps_best(b: BookState, rs: Seq<OrderRecord>, side: Side)
    requires
        is_valid_book(b),
    ensures
        side_of(apply_batch(b, rs), side) == keep_best(side_of(apply_records(b, rs), side), b.depth),
        side_of(apply_batch(b, rs), side).len() <= b.depth,
        forall|i: int, j: int|
            0 <= i < side_of(apply_batch(b, rs), side).len() <= j < side_of(
                apply_records(b, rs),
                side,
            ).len() ==> ranks_before(
                side,
                price_of(side_of(apply_records(b, rs), side)[i]),
                price_of(side_of(apply_records(b, rs), side)[j]),
            ),
{
    lemma_records_clean(b, rs);
    lemma_truncated_clean(apply_records(b, rs));
    lemma_apply_batch_valid(b, rs);
}

proof fn lemma_insert_ordered(side: Side, s: Seq<Level>, l: Level)
    requires
        is_ordered(side, s),
    ensures
        is_ordered(side, insert_level(side, s, l)),
{
    let k = lemma_insert_index(side, s, l);
    let r = s.insert(k, l);
    assert forall|j: int| k <= j < s.len() implies !ranks_before(side, price_of(s[j]), price_of(l)) by {
        if j > k {
            assert(!ranks_before(side, price_of(s[j]), price_of(s[k])));
        }
        lemma_ranks_total(side, price_of(l), price_of(s[j]));
    }
    assert forall|i: int, j: int| 0 <= i < j < r.len() implies !ranks_before(
        side,
        price_of(r[j]),
        price_of(r[i]),
    ) by {
        if j < k {
            assert(r[i] == s[i] && r[j] == s[j]);
        } else if j == k {
            assert(r[i] == s[i] && r[j] == l);
        } else if i < k {
            assert(r[i] == s[i] && r[j] == s[j - 1]);
            assert(!ranks_before(side, price_of(s[j - 1]), price_of(s[i])));
        } else if i == k {
            assert(r[i] == l && r[j] == s[j - 1]);
        } else {
            assert(r[i] == s[i - 1] && r[j] == s[j - 1]);
        }
    }
}

/// Both sides of `b` are in order, best first.
pub open spec fn is_ordered_book(b: BookState) -> bool {
    is_ordered(Side::Bid, b.bids) && is_ordered(Side::Ask, b.asks)
}

/// Any snapshot, valid or not, gives a book whose sides are in order
/// (levels at equal prices keep the snapshot's order).
pub proof fn lemma_snapshot_ordered(depth: nat, rs: Seq<OrderRecord>)
    ensures
        is_ordered_book(snapshot_records(depth, rs)),
    decreases rs.len(),
{
    if rs.len() > 0 {
        lemma_snapshot_ordered(depth, rs.drop_last());
        let b = snapshot_records(depth, rs.drop_last());
        lemma_insert_ordered(Side::Bid, b.bids, level_of(rs.last()));
        lemma_insert_ordered(Side::Ask, b.asks, level_of(rs.last()));
    }
}

proof fn lemma_sorted_ordered(side: Side, s: Seq<Level>)
    ensures
        is_ordered(side, sorted_levels(side, s)),
    decreases s.len(),
{
    if s.len() > 0 {
        lemma_sorted_ordered(side, s.drop_last());
        lemma_insert_ordered(side, sorted_levels(side, s.drop_last()), s.last());
    }
}

/// A diff batch leaves both sides of any book in order, best first: the
/// sides are sorted before they are cut to the depth.
pub proof fn lemma_apply_batch_ordered(b: BookState, rs: Seq<OrderRecord>)
    ensures
        is_ordered_book(apply_batch(b, rs)),
{
    let m = apply_records(b, rs);
    let t = apply_batch(b, rs);
    lemma_sorted_ordered(Side::Bid, m.bids);
    lemma_sorted_ordered(Side::Ask, m.asks);
    let sb = sorted_levels(Side::Bid, m.bids);
    let sa = sorted_levels(Side::Ask, m.asks);
    assert forall|i: int, j: int| 0 <= i < j < t.bids.len() implies !ranks_before(
        Side::Bid,
        price_of(t.bids[j]),
        price_of(t.bids[i]),
    ) by {
        assert(t.bids[i] == sb[i] && t.bids[j] == sb[j]);
    }
    assert forall|i: int, j: int| 0 <= i < j < t.asks.len() implies !ranks_before(
        Side::Ask,
        price_of(t.asks[j]),
        price_of(t.asks[i]),
    ) by {
        assert(t.asks[i] == sa[i] && t.asks[j] == sa[j]);
    }
}

/// The levels of the records of one side, in the records' order.
pub open spec fn side_levels(rs: Seq<OrderRecord>, side: Side) -> Seq<Level>
    decreases rs.len(),
{
    if rs.len() == 0 {
        Seq::empty()
    } else {
        let rest = side_levels(rs.drop_last(), side);
        if rs.last().side == side {
            rest.push(level_of(rs.last()))
        } else {
            rest
        }
    }
}

proof fn lemma_insert_multiset(side: Side, s: Seq<Level>, l: Level)
    ensures
        insert_level(side, s, l).to_multiset() == s.to_multiset().insert(l),
{
    let k = lemma_insert_index(side, s, l);
    vstd::seq_lib::to_multiset_insert(s, k, l);
}

/// Sorting a side gives an ordered permutation of it: the result is in
/// order, best first, and holds each level of `s` as often as `s` does.
pub proof fn lemma_sorted_levels_permutation(side: Side, s: Seq<Level>)
    ensures
        is_ordered(side, sorted_levels(side, s)),
        sorted_levels(side, s).to_multiset() == s.to_multiset(),
    decreases s.len(),
{
    lemma_sorted_ordered(side, s);
    if s.len() > 0 {
        let t = s.drop_last();
        lemma_sorted_levels_permutation(side, t);
        lemma_insert_multiset(side, sorted_levels(side, t), s.last());
        vstd::seq_lib::to_multiset_build(t, s.last());
        assert(t.push(s.last()) =~= s);
    }
}

/// A snapshot's sides are ordered permutations of its records' levels: each
/// side is in order, best first, and holds the levels of the records of that
/// side, each as often as the records give it.
pub proof fn lemma_snapshot_permutation(depth: nat, rs: Seq<OrderRecord>)
    ensures
        is_ordered_book(snapshot_records(depth, rs)),
        snapshot_records(depth, rs).bids.to_multiset() == side_levels(rs, Side::Bid).to_multiset(),
        snapshot_records(depth, rs).asks.to_multiset() == side_levels(rs, Side::Ask).to_multiset(),
    decreases rs.len(),
{
    lemma_snapshot_ordered(depth, rs);
    if rs.len() > 0 {
        let t = rs.drop_last();
        let r = rs.last();
        lemma_snapshot_permutation(depth, t);
        let b = snapshot_records(depth, t);
        match r.side {
            Side::Bid => {
                lemma_insert_multiset(Side::Bid, b.bids, level_of(r));
                vstd::seq_lib::to_multiset_build(side_levels(t, Side::Bid), level_of(r));
            },
            Side::Ask => {
                lemma_insert_multiset(Side::Ask, b.asks, level_of(r));
                vstd::seq_lib::to_multiset_build(side_levels(t, Side::Ask), level_of(r));
            },
        }
    }
}

} // verus!
