//! A human-readable table of the order book: bid `i` beside ask `i`, each
//! as `price (volume)`, for `i` below the depth.

use vstd::prelude::*;

use crate::decimal::{lemma_pow10_mono, lemma_pow10_scale, pow10, Decimal};
use crate::order_book::{BookState, Level, OrderBook};
use crate::text::{nat_text, u128_text};

verus! {

/// The first two lines of the table.
pub const BOOK_HEADER: &'static str = "Order Book:\n           Bid          Depth       | Ask          Depth\n";

/// Decimal places shown for a price.
pub const PRICE_PLACES: usize = 5;

/// Decimal places shown for a volume.
pub const VOLUME_PLACES: usize = 8;

/// `s` followed by spaces up to `width` characters.
pub open spec fn pad_right(s: Seq<char>, width: nat) -> Seq<char> {
    if s.len() < width {
        s + Seq::new((width - s.len()) as nat, |_i: int| ' ')
    } else {
        s
    }
}

/// `s` preceded by zeros up to `width` characters.
pub open spec fn zeros_left(s: Seq<char>, width: nat) -> Seq<char> {
    if s.len() < width {
        Seq::new((width - s.len()) as nat, |_i: int| '0') + s
    } else {
        s
    }
}

/// The magnitude of an amount in units, rounded half away from zero to
/// `places` decimals, as a count of `10^-places`.
pub open spec fn rounded(units: int, places: nat) -> nat {
    let m = if units < 0 {
        -units
    } else {
        units
    };
    let q = pow10((8 - places) as nat) as int;
    ((m + q / 2) / q) as nat
}

/// An amount written with exactly `places` decimals, rounded half away from
/// zero, with a leading `-` when it is negative.
pub open spec fn fixed_text(d: Decimal, places: nat) -> Seq<char> {
    let r = rounded(d.units as int, places) as int;
    let p = pow10(places) as int;
    (if d.units < 0 {
        seq!['-']
    } else {
        Seq::empty()
    }) + nat_text((r / p) as nat) + seq!['.'] + zeros_left(nat_text((r % p) as nat), places)
}

/// A level written as `price (volume)`.
pub open spec fn level_text(l: Level) -> Seq<char> {
    fixed_text(l.price, PRICE_PLACES as nat) + seq![' ', '('] + fixed_text(
        l.volume,
        VOLUME_PLACES as nat,
    ) + seq![')']
}

/// Level `i` of a side written out, or nothing when the side is shorter.
pub open spec fn cell_text(s: Seq<Level>, i: int) -> Seq<char> {
    if 0 <= i < s.len() {
        level_text(s[i])
    } else {
        Seq::empty()
    }
}

/// Row `i` of the table, numbered from one on both ends.
pub open spec fn row_text(b: BookState, i: nat) -> Seq<char> {
    pad_right(nat_text(i + 1), 10) + seq![' '] + pad_right(cell_text(b.bids, i as int), 20)
        + seq![' ', '|', ' '] + pad_right(cell_text(b.asks, i as int), 10) + seq![' '] + nat_text(
        i + 1,
    ) + seq!['\n']
}

/// The first `n` rows of the table.
pub open spec fn rows_text(b: BookState, n: nat) -> Seq<char>
    decreases n,
{
    if n == 0 {
        Seq::empty()
    } else {
        rows_text(b, (n - 1) as nat) + row_text(b, (n - 1) as nat)
    }
}

/// The whole table: the header, then one row for each index below the depth.
pub open spec fn book_text(b: BookState) -> Seq<char> {
    BOOK_HEADER@ + rows_text(b, b.depth)
}

fn pow10_u64(n: usize) -> (r: u64)
    requires
        n <= 8,
    ensures
        r == pow10(n as nat),
        1 <= r <= 100_000_000,
{
    let mut r: u64 = 1;
    let mut i: usize = 0;
    while i < n
        invariant
            i <= n <= 8,
            r == pow10(i as nat),
            1 <= r,
        decreases n - i,
    {
        proof {
            lemma_pow10_scale();
            lemma_pow10_mono(i as nat, 7);
            assert(pow10((i + 1) as nat) == 10 * pow10(i as nat));
        }
        r = r * 10;
        i = i + 1;
    }
    proof {
        lemma_pow10_scale();
        lemma_pow10_mono(n as nat, 8);
    }
    r
}

/// Appends `s` to `out`, then spaces up to `width` characters for `s`.
fn append_padded(out: &mut String, s: &str, width: usize)
    ensures
        final(out)@ == old(out)@ + pad_right(s@, width as nat),
{
    out.append(s);
    let n = s.unicode_len();
    let mut k: usize = n;
    let ghost start = old(out)@ + s@;
    while k < width
        invariant
            n == s@.len(),
            n <= k <= width || (k == n && n >= width),
            out@ == start + Seq::new((k - n) as nat, |_i: int| ' '),
        decreases width - k,
    {
        out.append(" ");
        proof {
            reveal_strlit(" ");
            assert(out@ =~= start + Seq::new((k + 1 - n) as nat, |_i: int| ' '));
        }
        k = k + 1;
    }
    proof {
        if n >= width {
            assert(out@ =~= start);
        }
        assert(out@ =~= old(out)@ + pad_right(s@, width as nat));
    }
}

/// Appends `s` to `out`, after zeros up to `width` characters.
fn append_zero_padded(out: &mut String, s: &str, width: usize)
    ensures
        final(out)@ == old(out)@ + zeros_left(s@, width as nat),
{
    let n = s.unicode_len();
    let mut k: usize = n;
    let ghost start = old(out)@;
    while k < width
        invariant
            n == s@.len(),
            n <= k <= width || (k == n && n >= width),
            out@ == start + Seq::new((k - n) as nat, |_i: int| '0'),
        decreases width - k,
    {
        out.append("0");
        proof {
            reveal_strlit("0");
            assert(out@ =~= start + Seq::new((k + 1 - n) as nat, |_i: int| '0'));
        }
        k = k + 1;
    }
    out.append(s);
    proof {
        if n >= width {
            assert(Seq::new(0, |_i: int| '0') =~= Seq::<char>::empty());
        }
        assert(out@ =~= old(out)@ + zeros_left(s@, width as nat));
    }
}

/// Writes an amount with `places` decimals, as `fixed_text` says.
pub fn format_fixed(d: Decimal, places: usize) -> (r: String)
    requires
        places <= 8,
    ensures
        r@ == fixed_text(d, places as nat),
{
    let m: u64 = if d.units < 0 {
        (0 - (d.units as i128)) as u64
    } else {
        d.units as u64
    };
    let q = pow10_u64(8 - places);
    let p = pow10_u64(places);
    let r = (m + q / 2) / q;
    let mut out = String::new();
    if d.units < 0 {
        out.append("-");
    }
    out.append(u128_text((r / p) as u128).as_str());
    out.append(".");
    append_zero_padded(&mut out, u128_text((r % p) as u128).as_str(), places);
    proof {
        reveal_strlit("-");
        reveal_strlit(".");
        assert(out@ =~= fixed_text(d, places as nat));
    }
    out
}

/// Writes a level as `price (volume)`.
fn level_string(l: &Level) -> (r: String)
    ensures
        r@ == level_text(*l),
{
    let mut out = format_fixed(l.price, PRICE_PLACES);
    out.append(" (");
    out.append(format_fixed(l.volume, VOLUME_PLACES).as_str());
    out.append(")");
    proof {
        reveal_strlit(" (");
        reveal_strlit(")");
        assert(out@ =~= level_text(*l));
    }
    out
}

/// Writes level `i` of `side`, or nothing when the side is shorter.
fn cell_string(side: &Vec<Level>, i: usize) -> (r: String)
    ensures
        r@ == cell_text(side@, i as int),
{
    if i < side.len() {
        level_string(&side[i])
    } else {
        String::new()
    }
}

/// Writes row `i` of the table for `book`, as `row_text` says.
fn row_string(book: &OrderBook, i: usize) -> (r: String)
    requires
        i < book@.depth,
    ensures
        r@ == row_text(book@, i as nat),
{
    let number = u128_text(i as u128 + 1);
    let bid = cell_string(book.bids(), i);
    let ask = cell_string(book.asks(), i);
    let mut out = String::new();
    append_padded(&mut out, number.as_str(), 10);
    proof {
        assert(out@ =~= pad_right(nat_text((i + 1) as nat), 10));
        reveal_strlit(" ");
        reveal_strlit(" | ");
        reveal_strlit("\n");
    }
    let ghost s1 = out@;
    out.append(" ");
    let ghost s2 = out@;
    assert(s2 == s1 + seq![' ']);
    append_padded(&mut out, bid.as_str(), 20);
    let ghost s3 = out@;
    out.append(" | ");
    let ghost s4 = out@;
    assert(s4 == s3 + seq![' ', '|', ' ']);
    append_padded(&mut out, ask.as_str(), 10);
    let ghost s5 = out@;
    out.append(" ");
    let ghost s6 = out@;
    assert(s6 == s5 + seq![' ']);
    out.append(number.as_str());
    let ghost s7 = out@;
    out.append("\n");
    assert(out@ == s7 + seq!['\n']);
    out
}

impl OrderBook {
    /// The book as a table, as `book_text` says.
    pub fn render(&self) -> (r: String)
        ensures
            r@ == book_text(self@),
    {
        let mut out = String::new();
        out.append(BOOK_HEADER);
        let depth = self.depth();
        let mut i: usize = 0;
        proof {
            assert(out@ =~= BOOK_HEADER@ + rows_text(self@, 0));
        }
        while i < depth
            invariant
                depth as nat == self@.depth,
                i <= depth,
                out@ == BOOK_HEADER@ + rows_text(self@, i as nat),
            decreases depth - i,
        {
            let row = row_string(self, i);
            out.append(row.as_str());
            proof {
                assert(rows_text(self@, (i + 1) as nat) == rows_text(self@, i as nat) + row_text(self@, i as nat));
                assert(out@ =~= BOOK_HEADER@ + rows_text(self@, (i + 1) as nat));
            }
            i = i + 1;
        }
        out
    }
}

} // verus!
