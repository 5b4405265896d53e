//! Linear systems from which lost packets are rebuilt.
//!
//! A parity symbol is the sum of the data symbols, each divided by the difference
//! of the parity's point and the data's point. As long as all points differ, as
//! many parity symbols as there are unknown data symbols determine them.

use vstd::prelude::*;

use crate::transport::field::{lemma_cross, lemma_sum};
use crate::transport::gf::{
    element, inverse, invert, lemma_associates, lemma_commutes, lemma_distributes,
    lemma_distributes_left, lemma_inverse, lemma_one, lemma_product_element, lemma_sum_element,
    lemma_zero, multiply, product, proper_width,
};

verus! {

/// Whether all numbers are elements of the field of a width.
pub open spec fn elements(width: nat, numbers: Seq<u64>) -> bool {
    forall|i: int| 0 <= i < numbers.len() ==> element(width, #[trigger] numbers[i])
}

/// Whether no number occurs twice.
pub open spec fn distinct(numbers: Seq<u64>) -> bool {
    forall|i: int, j: int|
        0 <= i < j < numbers.len() ==> #[trigger] numbers[i] != #[trigger] numbers[j]
}

/// Whether the points of data and parity are elements and all differ.
pub open spec fn points(width: nat, a: Seq<u64>, b: Seq<u64>) -> bool {
    &&& proper_width(width)
    &&& elements(width, a)
    &&& elements(width, b)
    &&& distinct(a)
    &&& distinct(b)
    &&& forall|i: int, j: int|
        0 <= i < a.len() && 0 <= j < b.len() ==> #[trigger] a[i] != #[trigger] b[j]
}

/// The sum of symbols.
pub open spec fn plain_sum(symbols: Seq<u64>) -> u64
    decreases symbols.len(),
{
    if symbols.len() == 0 {
        0
    } else {
        plain_sum(symbols.drop_last()) ^ symbols.last()
    }
}

/// The sum of symbols, each divided by the difference of `b` and its own point.
pub open spec fn divided_sum(width: nat, a: Seq<u64>, symbols: Seq<u64>, b: u64) -> u64
    decreases a.len(),
{
    if a.len() == 0 {
        0
    } else {
        divided_sum(width, a.drop_last(), symbols.drop_last(), b) ^ product(
            width,
            inverse(width, b ^ a.last()),
            symbols.last(),
        )
    }
}

/// Whether symbols at the points `a` give the sums at the points `b`.
pub open spec fn solves(
    width: nat,
    a: Seq<u64>,
    b: Seq<u64>,
    symbols: Seq<u64>,
    sums: Seq<u64>,
) -> bool {
    &&& symbols.len() == a.len()
    &&& elements(width, symbols)
    &&& forall|j: int|
        0 <= j < b.len() ==> divided_sum(width, a, symbols, #[trigger] b[j]) == sums[j]
}

/// A factor and its inverse cancel.
proof fn lemma_cancel(width: nat, q: u64, v: u64, x: u64)
    requires
        proper_width(width),
        element(width, q),
        element(width, v),
        element(width, x),
        product(width, q, v) == 1,
    ensures
        product(width, q, product(width, v, x)) == x,
        product(width, v, product(width, q, x)) == x,
{
    lemma_commutes(width, q, v);
    lemma_associates(width, q, v, x);
    lemma_associates(width, v, q, x);
    lemma_one(width, x);
}

/// The two outer factors of a product of three can change places.
proof fn lemma_exchange(width: nat, a: u64, b: u64, c: u64)
    requires
        proper_width(width),
        element(width, a),
        element(width, b),
        element(width, c),
    ensures
        product(width, a, product(width, b, c)) == product(width, b, product(width, a, c)),
{
    lemma_associates(width, a, b, c);
    lemma_associates(width, b, a, c);
    lemma_commutes(width, a, b);
}

/// Two differing elements have a difference with an inverse.
proof fn lemma_difference(width: nat, a: u64, b: u64)
    requires
        proper_width(width),
        element(width, a),
        element(width, b),
        a != b,
    ensures
        element(width, a ^ b),
        a ^ b != 0,
        a ^ b == b ^ a,
        element(width, inverse(width, a ^ b)),
        product(width, a ^ b, inverse(width, a ^ b)) == 1,
        product(width, inverse(width, a ^ b), a ^ b) == 1,
{
    lemma_sum(a, b, 0);
    lemma_sum_element(width, a, b);
    lemma_inverse(width, a ^ b);
}

/// What the elimination of one unknown does to the symbol at another point.
proof fn lemma_term(width: nat, point: u64, first: u64, second: u64, at: u64, symbol: u64)
    requires
        proper_width(width),
        element(width, point),
        element(width, first),
        element(width, second),
        element(width, at),
        element(width, symbol),
        point != at,
        second != at,
    ensures
        product(width, point ^ first, product(width, inverse(width, point ^ at), symbol)) ^ product(
            width,
            second ^ first,
            product(width, inverse(width, second ^ at), symbol),
        ) == product(
            width,
            point ^ second,
            product(
                width,
                inverse(width, point ^ at),
                narrowed(width, first, second, at, symbol),
            ),
        ),
{
    let (p, q, r) = (point ^ at, second ^ at, first ^ at);
    lemma_difference(width, point, at);
    lemma_difference(width, second, at);
    lemma_sum_element(width, first, at);
    let (u, v) = (inverse(width, p), inverse(width, q));
    lemma_shifted(point, first, at);
    lemma_shifted(second, first, at);
    lemma_shifted(point, second, at);
    let ud = product(width, u, symbol);
    let vd = product(width, v, symbol);
    lemma_product_element(width, u, symbol);
    lemma_product_element(width, v, symbol);
    // on the left
    lemma_distributes_left(width, p, r, ud);
    lemma_distributes_left(width, q, r, vd);
    lemma_cancel(width, p, u, symbol);
    lemma_cancel(width, q, v, symbol);
    let (rud, rvd) = (product(width, r, ud), product(width, r, vd));
    lemma_cross(symbol, rud, symbol, rvd);
    lemma_sum(symbol, 0, 0);
    lemma_sum(rud ^ rvd, 0, 0);
    // on the right
    let rv = product(width, r, v);
    lemma_product_element(width, r, v);
    let z = product(width, rv, symbol);
    lemma_product_element(width, rv, symbol);
    lemma_product_element(width, u, z);
    lemma_distributes_left(width, p, q, product(width, u, z));
    lemma_cancel(width, p, u, z);
    lemma_associates(width, r, v, symbol);
    lemma_exchange(width, u, rv, symbol);
    lemma_associates(width, r, v, ud);
    lemma_exchange(width, r, v, ud);
    lemma_product_element(width, r, ud);
    lemma_cancel(width, q, v, rud);
    assert(product(width, q, product(width, u, z)) == rud);
    lemma_sum(rud, rvd, 0);
}

/// A difference is the sum of the differences from a third point.
proof fn lemma_shifted(a: u64, b: u64, c: u64)
    ensures
        a ^ b == (a ^ c) ^ (b ^ c),
{
    lemma_cross(a, c, b, c);
    lemma_sum(c, 0, 0);
    lemma_sum(a ^ b, 0, 0);
}

/// The symbol that stands for another once the unknown at `first` is eliminated
/// by the sum at `second`.
pub open spec fn narrowed(width: nat, first: u64, second: u64, at: u64, symbol: u64) -> u64 {
    product(width, product(width, first ^ at, inverse(width, second ^ at)), symbol)
}

/// The symbols of a system without its last unknown.
spec fn all_narrowed(width: nat, first: u64, second: u64, a: Seq<u64>, symbols: Seq<u64>) -> Seq<
    u64,
> {
    Seq::new(symbols.len(), |i: int| narrowed(width, first, second, a[i], symbols[i]))
}

/// The sums of a system without its last unknown.
pub open spec fn narrowed_sums(width: nat, a: Seq<u64>, b: Seq<u64>, sums: Seq<u64>) -> Seq<u64> {
    Seq::new(
        (sums.len() - 1) as nat,
        |j: int|
            product(
                width,
                inverse(width, b[j] ^ b.last()),
                product(width, b[j] ^ a.last(), sums[j]) ^ product(
                    width,
                    b.last() ^ a.last(),
                    sums.last(),
                ),
            ),
    )
}

proof fn lemma_divided_sum_element(width: nat, a: Seq<u64>, symbols: Seq<u64>, b: u64)
    requires
        proper_width(width),
        elements(width, a),
        elements(width, symbols),
        symbols.len() == a.len(),
        element(width, b),
        forall|i: int| 0 <= i < a.len() ==> #[trigger] a[i] != b,
    ensures
        element(width, divided_sum(width, a, symbols, b)),
    decreases a.len(),
{
    if a.len() > 0 {
        lemma_divided_sum_element(width, a.drop_last(), symbols.drop_last(), b);
        assert(a.last() != b);
        lemma_difference(width, b, a.last());
        let i = inverse(width, b ^ a.last());
        lemma_product_element(width, i, symbols.last());
        lemma_sum_element(
            width,
            divided_sum(width, a.drop_last(), symbols.drop_last(), b),
            product(width, i, symbols.last()),
        );
    }
}

/// The elimination over a whole sum.
proof fn lemma_terms(
    width: nat,
    point: u64,
    first: u64,
    second: u64,
    a: Seq<u64>,
    symbols: Seq<u64>,
)
    requires
        proper_width(width),
        element(width, point),
        element(width, first),
        element(width, second),
        elements(width, a),
        elements(width, symbols),
        symbols.len() == a.len(),
        forall|i: int| 0 <= i < a.len() ==> #[trigger] a[i] != point && a[i] != second,
    ensures
        product(width, point ^ first, divided_sum(width, a, symbols, point)) ^ product(
            width,
            second ^ first,
            divided_sum(width, a, symbols, second),
        ) == product(
            width,
            point ^ second,
            divided_sum(width, a, all_narrowed(width, first, second, a, symbols), point),
        ),
    decreases a.len(),
{
    let narrow = all_narrowed(width, first, second, a, symbols);
    if a.len() == 0 {
        lemma_zero(width, point ^ first);
        lemma_zero(width, second ^ first);
        lemma_zero(width, point ^ second);
        lemma_sum(0, 0, 0);
    } else {
        let (front, rest) = (a.drop_last(), symbols.drop_last());
        lemma_terms(width, point, first, second, front, rest);
        assert(narrow.drop_last() =~= all_narrowed(width, first, second, front, rest));
        assert(a.last() != point && a.last() != second);
        lemma_term(width, point, first, second, a.last(), symbols.last());
        let i = inverse(width, point ^ a.last());
        let k = inverse(width, second ^ a.last());
        let (p, q) = (
            divided_sum(width, front, rest, point),
            divided_sum(width, front, rest, second),
        );
        let x = product(width, i, symbols.last());
        let y = product(width, k, symbols.last());
        lemma_distributes(width, point ^ first, p, x);
        lemma_distributes(width, second ^ first, q, y);
        lemma_distributes(
            width,
            point ^ second,
            divided_sum(width, front, narrow.drop_last(), point),
            product(width, i, narrow.last()),
        );
        lemma_cross(
            product(width, point ^ first, p),
            product(width, point ^ first, x),
            product(width, second ^ first, q),
            product(width, second ^ first, y),
        );
    }
}

proof fn lemma_narrowed_elements(width: nat, first: u64, second: u64, a: Seq<u64>, symbols: Seq<u64>)
    requires
        proper_width(width),
        element(width, first),
        element(width, second),
        elements(width, a),
        elements(width, symbols),
        symbols.len() == a.len(),
        forall|i: int| 0 <= i < a.len() ==> #[trigger] a[i] != second,
    ensures
        elements(width, all_narrowed(width, first, second, a, symbols)),
{
    assert forall|i: int| 0 <= i < symbols.len() implies element(
        width,
        #[trigger] all_narrowed(width, first, second, a, symbols)[i],
    ) by {
        assert(a[i] != second);
        lemma_difference(width, second, a[i]);
        lemma_sum_element(width, first, a[i]);
        lemma_product_element(width, first ^ a[i], inverse(width, second ^ a[i]));
        lemma_product_element(
            width,
            product(width, first ^ a[i], inverse(width, second ^ a[i])),
            symbols[i],
        );
    }
}

/// Symbols solve a system exactly where the narrowed ones solve the system without
/// its last unknown, and the last one fits the last sum.
proof fn lemma_narrow(
    width: nat,
    a: Seq<u64>,
    b: Seq<u64>,
    symbols: Seq<u64>,
    sums: Seq<u64>,
)
    requires
        points(width, a, b),
        a.len() > 0,
        b.len() == a.len(),
        sums.len() == a.len(),
        symbols.len() == a.len(),
        elements(width, sums),
        elements(width, symbols),
    ensures
        solves(width, a, b, symbols, sums) <==> {
            let front = symbols.drop_last();
            &&& solves(
                width,
                a.drop_last(),
                b.drop_last(),
                all_narrowed(width, a.last(), b.last(), a.drop_last(), front),
                narrowed_sums(width, a, b, sums),
            )
            &&& symbols.last() == product(
                width,
                b.last() ^ a.last(),
                sums.last() ^ divided_sum(width, a.drop_last(), front, b.last()),
            )
        },
{
    let e = a.len() - 1;
    let (first, second) = (a.last(), b.last());
    let (fa, fb, front) = (a.drop_last(), b.drop_last(), symbols.drop_last());
    let narrow = all_narrowed(width, first, second, fa, front);
    let next = narrowed_sums(width, a, b, sums);
    let x = symbols.last();
    assert(a[e] != b[e]);
    assert forall|i: int| 0 <= i < fa.len() implies #[trigger] fa[i] != second by {
        assert(a[i] != b[e]);
    }
    lemma_narrowed_elements(width, first, second, fa, front);
    let t = divided_sum(width, fa, front, second);
    lemma_divided_sum_element(width, fa, front, second);
    lemma_difference(width, second, first);
    let g = second ^ first;
    let i = inverse(width, g);
    let last_fits = x == product(width, g, sums.last() ^ t);
    lemma_sum_element(width, sums.last(), t);
    // the last row
    assert(divided_sum(width, a, symbols, second) == t ^ product(width, i, x));
    if last_fits {
        lemma_cancel(width, g, i, sums.last() ^ t);
        lemma_sum(t, sums.last() ^ t, 0);
        lemma_sum(sums.last(), t, t);
        assert(divided_sum(width, a, symbols, b[e]) == sums[e]);
    }
    if divided_sum(width, a, symbols, b[e]) == sums[e] {
        lemma_sum(product(width, i, x), t, t);
        lemma_sum(t, product(width, i, x), t);
        assert(sums.last() ^ t == product(width, i, x));
        lemma_cancel(width, g, i, x);
        assert(last_fits);
    }
    // the other rows
    assert forall|j: int| 0 <= j < e && last_fits implies (divided_sum(width, a, symbols, b[j])
        == sums[j]) == (divided_sum(width, fa, narrow, b[j]) == next[j]) by {
        let point = b[j];
        assert(b[j] != b[e]);
        assert(a[e] != b[j]);
        assert forall|k: int| 0 <= k < fa.len() implies #[trigger] fa[k] != point && fa[k]
            != second by {
            assert(a[k] != b[j]);
        }
        lemma_terms(width, point, first, second, fa, front);
        let tj = divided_sum(width, fa, front, point);
        lemma_divided_sum_element(width, fa, front, point);
        lemma_divided_sum_element(width, fa, narrow, point);
        lemma_difference(width, point, first);
        lemma_difference(width, point, second);
        let f = point ^ first;
        let fi = inverse(width, f);
        let h = point ^ second;
        let hi = inverse(width, h);
        let n = divided_sum(width, fa, narrow, point);
        let (ft, gt) = (product(width, f, tj), product(width, g, t));
        let (fs, gs) = (product(width, f, sums[j]), product(width, g, sums.last()));
        assert(ft ^ gt == product(width, h, n));
        assert(next[j] == product(width, hi, fs ^ gs));
        lemma_distributes(width, g, sums.last(), t);
        assert(x == gs ^ gt);
        lemma_product_element(width, f, sums[j]);
        lemma_product_element(width, g, sums.last());
        lemma_sum_element(width, fs, gs);
        let row = tj ^ product(width, fi, x);
        assert(divided_sum(width, a, symbols, point) == row);
        // f * row = ft + x
        lemma_distributes(width, f, tj, product(width, fi, x));
        lemma_cancel(width, f, fi, x);
        assert(product(width, f, row) == ft ^ x);
        lemma_product_element(width, fi, x);
        lemma_sum_element(width, tj, product(width, fi, x));
        lemma_cancel(width, f, fi, row);
        lemma_cancel(width, f, fi, sums[j]);
        lemma_cancel(width, h, hi, n);
        lemma_cancel(width, h, hi, fs ^ gs);
        // (ft + gt) + (fs + gs) = (ft + x) + fs
        lemma_balance(ft, gt, fs, gs);
        if row == sums[j] {
            assert(ft ^ gt == fs ^ gs);
            assert(n == next[j]);
        }
        if n == next[j] {
            assert(ft ^ gt == fs ^ gs);
            assert(product(width, f, row) == product(width, f, sums[j]));
            assert(row == sums[j]);
        }
    }
    if solves(width, a, b, symbols, sums) {
        assert(last_fits) by {
            assert(divided_sum(width, a, symbols, b[e]) == sums[e]);
        }
        assert forall|j: int| 0 <= j < fb.len() implies divided_sum(
            width,
            fa,
            narrow,
            #[trigger] fb[j],
        ) == next[j] by {
            assert(divided_sum(width, a, symbols, b[j]) == sums[j]);
        }
    }
    if solves(width, fa, fb, narrow, next) && last_fits {
        assert forall|j: int| 0 <= j < b.len() implies divided_sum(
            width,
            a,
            symbols,
            #[trigger] b[j],
        ) == sums[j] by {
            if j < e {
                assert(divided_sum(width, fa, narrow, fb[j]) == next[j]);
            }
        }
    }
}

proof fn lemma_balance(a: u64, b: u64, c: u64, d: u64)
    ensures
        (a ^ b == c ^ d) == (a ^ (d ^ b) == c),
{
    assert((a ^ b == c ^ d) == (a ^ (d ^ b) == c)) by (bit_vector);
}

/// The symbol that a narrowed one stands for.
pub open spec fn widened(width: nat, first: u64, second: u64, at: u64, symbol: u64) -> u64 {
    product(width, second ^ at, product(width, inverse(width, first ^ at), symbol))
}

/// Narrowing and widening undo each other.
proof fn lemma_widened(width: nat, first: u64, second: u64, at: u64, symbol: u64)
    requires
        proper_width(width),
        element(width, first),
        element(width, second),
        element(width, at),
        element(width, symbol),
        first != at,
        second != at,
    ensures
        element(width, widened(width, first, second, at, symbol)),
        element(width, narrowed(width, first, second, at, symbol)),
        narrowed(width, first, second, at, widened(width, first, second, at, symbol)) == symbol,
        widened(width, first, second, at, narrowed(width, first, second, at, symbol)) == symbol,
{
    lemma_difference(width, first, at);
    lemma_difference(width, second, at);
    let (q, r) = (second ^ at, first ^ at);
    let (v, u) = (inverse(width, q), inverse(width, r));
    lemma_product_element(width, u, symbol);
    lemma_product_element(width, q, product(width, u, symbol));
    lemma_product_element(width, r, v);
    lemma_product_element(width, v, symbol);
    lemma_product_element(width, product(width, r, v), symbol);
    let w = widened(width, first, second, at, symbol);
    lemma_associates(width, r, v, w);
    lemma_cancel(width, q, v, product(width, u, symbol));
    lemma_cancel(width, r, u, symbol);
    lemma_associates(width, r, v, symbol);
    lemma_cancel(width, r, u, product(width, v, symbol));
    lemma_cancel(width, q, v, symbol);
}

/// A system has no two solutions.
pub proof fn lemma_solution_is_unique(
    width: nat,
    a: Seq<u64>,
    b: Seq<u64>,
    x: Seq<u64>,
    y: Seq<u64>,
    sums: Seq<u64>,
)
    requires
        points(width, a, b),
        b.len() == a.len(),
        sums.len() == a.len(),
        elements(width, sums),
        solves(width, a, b, x, sums),
        solves(width, a, b, y, sums),
    ensures
        x == y,
    decreases a.len(),
{
    if a.len() == 0 {
        assert(x =~= y);
    } else {
        let e = a.len() - 1;
        let (first, second) = (a.last(), b.last());
        let (fa, fb) = (a.drop_last(), b.drop_last());
        lemma_narrow(width, a, b, x, sums);
        lemma_narrow(width, a, b, y, sums);
        let nx = all_narrowed(width, first, second, fa, x.drop_last());
        let ny = all_narrowed(width, first, second, fa, y.drop_last());
        lemma_narrow_points(width, a, b);
        lemma_narrowed_sums(width, a, b, sums);
        lemma_solution_is_unique(width, fa, fb, nx, ny, narrowed_sums(width, a, b, sums));
        assert forall|i: int| 0 <= i < e implies x[i] == y[i] by {
            assert(nx[i] == ny[i]);
            assert(a[i] != a[e]);
            assert(a[i] != b[e]);
            lemma_widened(width, first, second, a[i], x[i]);
            lemma_widened(width, first, second, a[i], y[i]);
        }
        assert(x.drop_last() =~= y.drop_last());
        assert(x =~= y);
    }
}

/// The points of a system without its last unknown.
proof fn lemma_narrow_points(width: nat, a: Seq<u64>, b: Seq<u64>)
    requires
        points(width, a, b),
    ensures
        a.len() > 0 ==> points(width, a.drop_last(), b),
        a.len() > 0 && b.len() > 0 ==> points(width, a.drop_last(), b.drop_last()),
{
}

/// The sums of a system without its last unknown are elements.
proof fn lemma_narrowed_sums(width: nat, a: Seq<u64>, b: Seq<u64>, sums: Seq<u64>)
    requires
        points(width, a, b),
        a.len() > 0,
        b.len() == a.len(),
        sums.len() == a.len(),
        elements(width, sums),
    ensures
        elements(width, narrowed_sums(width, a, b, sums)),
{
    let e = a.len() - 1;
    assert forall|j: int| 0 <= j < e implies element(
        width,
        #[trigger] narrowed_sums(width, a, b, sums)[j],
    ) by {
        assert(b[j] != b[e]);
        lemma_difference(width, b[j], b[e]);
        lemma_sum_element(width, b[j], a[e]);
        lemma_sum_element(width, b[e], a[e]);
        let (p, q) = (product(width, b[j] ^ a[e], sums[j]), product(width, b[e] ^ a[e], sums[e]));
        lemma_product_element(width, b[j] ^ a[e], sums[j]);
        lemma_product_element(width, b[e] ^ a[e], sums[e]);
        lemma_sum_element(width, p, q);
        lemma_product_element(width, inverse(width, b[j] ^ b[e]), p ^ q);
    }
}

/// The sums of a system once all unknowns but the first `count` are eliminated.
spec fn staged(width: nat, a: Seq<u64>, b: Seq<u64>, sums: Seq<u64>, count: int) -> Seq<u64>
    decreases sums.len(),
{
    if sums.len() <= count || sums.len() == 0 {
        sums
    } else {
        let size = sums.len() as int;
        staged(width, a, b, narrowed_sums(width, a.take(size), b.take(size), sums), count)
    }
}

proof fn lemma_staged(width: nat, a: Seq<u64>, b: Seq<u64>, sums: Seq<u64>, count: int)
    requires
        points(width, a, b),
        sums.len() <= a.len(),
        sums.len() <= b.len(),
        elements(width, sums),
        0 <= count <= sums.len(),
    ensures
        staged(width, a, b, sums, count).len() == count,
        elements(width, staged(width, a, b, sums, count)),
        count > 0 ==> staged(width, a, b, sums, count - 1) == narrowed_sums(
            width,
            a.take(count),
            b.take(count),
            staged(width, a, b, sums, count),
        ),
    decreases sums.len(),
{
    let size = sums.len() as int;
    if size > 0 {
        let next = narrowed_sums(width, a.take(size), b.take(size), sums);
        lemma_narrowed_sums(width, a.take(size), b.take(size), sums);
        if count == size {
            assert(staged(width, a, b, next, count - 1) == next);
        } else {
            lemma_staged(width, a, b, next, count);
        }
    }
}

/// The symbols that give certain sums at certain points.
fn solve(width: usize, a: &Vec<u64>, b: &Vec<u64>, sums: &Vec<u64>) -> (symbols: Vec<u64>)
    requires
        points(width as nat, a@, b@),
        a@.len() >= b@.len(),
        sums@.len() == b@.len(),
        elements(width as nat, sums@),
    ensures
        solves(width as nat, a@.take(b@.len() as int), b@, symbols@, sums@),
{
    let count: usize = b.len();
    let ghost m = width as nat;
    let mut left: Vec<u64> = Vec::new();
    for j in 0..count
        invariant
            count == sums@.len(),
            left@ == sums@.take(j as int),
    {
        left.push(sums[j]);
        assert(left@ =~= sums@.take(j + 1));
    }
    assert(left@ =~= sums@);
    let mut size: usize = count;
    assert(left@.take(size as int) =~= sums@);
    while size > 0
        invariant
            m == width,
            points(m, a@, b@),
            a@.len() >= count,
            b@.len() == count,
            sums@.len() == count,
            elements(m, sums@),
            size <= count,
            left@.len() == count,
            left@.take(size as int) == staged(m, a@, b@, sums@, size as int),
            forall|j: int|
                size <= j < count ==> #[trigger] left@[j] == staged(m, a@, b@, sums@, j + 1)[j],
        decreases size,
    {
        let last: usize = size - 1;
        let ghost before = left@;
        let ghost stage = staged(m, a@, b@, sums@, size as int);
        proof {
            lemma_staged(m, a@, b@, sums@, size as int);
            assert(left@[last as int] == left@.take(size as int)[last as int]);
        }
        let own: u64 = multiply(width, b[last] ^ a[last], left[last]);
        for j in 0..last
            invariant
                m == width,
                points(m, a@, b@),
                a@.len() >= count,
                b@.len() == count,
                size <= count,
                last == size - 1,
                left@.len() == count,
                before.len() == count,
                stage.len() == size,
                before.take(size as int) == stage,
                own == product(m, b@[last as int] ^ a@[last as int], stage.last()),
                forall|k: int| last <= k < count ==> #[trigger] left@[k] == before[k],
                forall|k: int| j <= k < last ==> #[trigger] left@[k] == before[k],
                forall|k: int|
                    0 <= k < j ==> #[trigger] left@[k] == narrowed_sums(
                        m,
                        a@.take(size as int),
                        b@.take(size as int),
                        stage,
                    )[k],
        {
            assert(left@[j as int] == before.take(size as int)[j as int]);
            let value: u64 = multiply(
                width,
                invert(width, b[j] ^ b[last]),
                multiply(width, b[j] ^ a[last], left[j]) ^ own,
            );
            left.set(j, value);
        }
        assert(left@.take(last as int) =~= narrowed_sums(
            m,
            a@.take(size as int),
            b@.take(size as int),
            stage,
        ));
        assert(left@[last as int] == stage[last as int]);
        size = last;
    }
    let mut symbols: Vec<u64> = Vec::new();
    proof {
        lemma_staged(m, a@, b@, sums@, 0);
    }
    for known in 0..count
        invariant
            m == width,
            points(m, a@, b@),
            a@.len() >= count,
            b@.len() == count,
            sums@.len() == count,
            elements(m, sums@),
            left@.len() == count,
            forall|j: int|
                0 <= j < count ==> #[trigger] left@[j] == staged(m, a@, b@, sums@, j + 1)[j],
            solves(
                m,
                a@.take(known as int),
                b@.take(known as int),
                symbols@,
                staged(m, a@, b@, sums@, known as int),
            ),
    {
        let ghost size = known + 1;
        let ghost narrow = symbols@;
        let ghost (ta, tb) = (a@.take(size), b@.take(size));
        let ghost stage = staged(m, a@, b@, sums@, size);
        proof {
            lemma_staged(m, a@, b@, sums@, size);
            assert(ta.drop_last() =~= a@.take(known as int));
            assert(tb.drop_last() =~= b@.take(known as int));
        }
        let (first, second): (u64, u64) = (a[known], b[known]);
        let mut total: u64 = 0;
        for i in 0..known
            invariant
                m == width,
                points(m, a@, b@),
                a@.len() >= count,
                b@.len() == count,
                known < count,
                first == a@[known as int],
                second == b@[known as int],
                symbols@.len() == known,
                narrow.len() == known,
                elements(m, narrow),
                forall|k: int| i <= k < known ==> #[trigger] symbols@[k] == narrow[k],
                forall|k: int|
                    0 <= k < i ==> element(m, #[trigger] symbols@[k]) && narrow[k] == narrowed(
                        m,
                        first,
                        second,
                        a@[k],
                        symbols@[k],
                    ),
                total == divided_sum(m, a@.take(i as int), symbols@.take(i as int), second),
        {
            let ghost before = symbols@;
            let at: u64 = a[i];
            let value: u64 = multiply(
                width,
                second ^ at,
                multiply(width, invert(width, first ^ at), symbols[i]),
            );
            proof {
                assert(a@[i as int] != a@[known as int]);
                assert(a@[i as int] != b@[known as int]);
                lemma_widened(m, first, second, at, symbols@[i as int]);
            }
            symbols.set(i, value);
            total = total ^ multiply(width, invert(width, second ^ at), value);
            proof {
                assert(a@.take(i + 1).drop_last() =~= a@.take(i as int));
                assert(symbols@.take(i + 1).drop_last() =~= before.take(i as int));
            }
        }
        let ghost front = symbols@;
        let value: u64 = multiply(width, second ^ first, left[known] ^ total);
        symbols.push(value);
        proof {
            assert(symbols@.drop_last() =~= front);
            assert(front.take(known as int) =~= front);
            assert(all_narrowed(m, first, second, ta.drop_last(), front) =~= narrow);
            assert forall|i: int| 0 <= i < known implies #[trigger] ta.drop_last()[i] != second by {
                assert(a@[i] != b@[known as int]);
            }
            lemma_divided_sum_element(m, ta.drop_last(), front, second);
            lemma_sum_element(m, stage.last(), total);
            lemma_sum_element(m, second, first);
            lemma_product_element(m, second ^ first, stage.last() ^ total);
            lemma_narrow(m, ta, tb, symbols@, stage);
        }
    }
    assert(b@.take(count as int) =~= b@);
    symbols
}

/// Whether symbols at the points `a` give the sums at the points `b`, and their own
/// sum where it is known.
pub open spec fn fits(
    width: nat,
    a: Seq<u64>,
    b: Seq<u64>,
    plain: Option<u64>,
    symbols: Seq<u64>,
    sums: Seq<u64>,
) -> bool {
    &&& solves(width, a, b, symbols, sums)
    &&& plain is Some ==> plain_sum(symbols) == plain->0
}

/// Whether a system has as many sums as unknowns, over proper points.
pub open spec fn square(
    width: nat,
    a: Seq<u64>,
    b: Seq<u64>,
    plain: Option<u64>,
    sums: Seq<u64>,
) -> bool {
    &&& points(width, a, b)
    &&& a.len() == b.len() + if plain is Some {
        1int
    } else {
        0
    }
    &&& sums.len() == b.len()
    &&& elements(width, sums)
    &&& plain is Some ==> element(width, plain->0)
}

/// The symbols of a system without its last unknown, eliminated by the plain sum.
spec fn all_shortened(width: nat, first: u64, a: Seq<u64>, symbols: Seq<u64>) -> Seq<u64> {
    Seq::new(symbols.len(), |i: int| product(width, first ^ a[i], symbols[i]))
}

/// The sums of a system without its last unknown, eliminated by the plain sum.
spec fn shortened_sums(width: nat, first: u64, plain: u64, b: Seq<u64>, sums: Seq<u64>) -> Seq<u64> {
    Seq::new(sums.len(), |j: int| product(width, b[j] ^ first, sums[j]) ^ plain)
}

proof fn lemma_plain_sum_element(width: nat, symbols: Seq<u64>)
    requires
        proper_width(width),
        elements(width, symbols),
    ensures
        element(width, plain_sum(symbols)),
    decreases symbols.len(),
{
    if symbols.len() > 0 {
        lemma_plain_sum_element(width, symbols.drop_last());
        lemma_sum_element(width, plain_sum(symbols.drop_last()), symbols.last());
    }
}

proof fn lemma_plain_terms(width: nat, point: u64, first: u64, a: Seq<u64>, symbols: Seq<u64>)
    requires
        proper_width(width),
        element(width, point),
        element(width, first),
        elements(width, a),
        elements(width, symbols),
        symbols.len() == a.len(),
        forall|i: int| 0 <= i < a.len() ==> #[trigger] a[i] != point,
    ensures
        product(width, point ^ first, divided_sum(width, a, symbols, point)) ^ plain_sum(symbols)
            == divided_sum(width, a, all_shortened(width, first, a, symbols), point),
    decreases a.len(),
{
    let short = all_shortened(width, first, a, symbols);
    if a.len() == 0 {
        lemma_zero(width, point ^ first);
        lemma_sum(0, 0, 0);
    } else {
        let (front, rest) = (a.drop_last(), symbols.drop_last());
        let (at, symbol) = (a.last(), symbols.last());
        lemma_plain_terms(width, point, first, front, rest);
        assert(short.drop_last() =~= all_shortened(width, first, front, rest));
        assert(at != point);
        lemma_difference(width, point, at);
        lemma_sum_element(width, first, at);
        let (p, r) = (point ^ at, first ^ at);
        let u = inverse(width, p);
        let ud = product(width, u, symbol);
        let t = divided_sum(width, front, rest, point);
        lemma_product_element(width, u, symbol);
        lemma_distributes(width, point ^ first, t, ud);
        lemma_shifted(point, first, at);
        lemma_distributes_left(width, p, r, ud);
        lemma_cancel(width, p, u, symbol);
        lemma_exchange(width, r, u, symbol);
        let rud = product(width, r, ud);
        lemma_sum(rud, symbol, 0);
        lemma_sum(symbol, rud, 0);
        assert(product(width, point ^ first, ud) ^ symbol == rud);
        lemma_cross(
            product(width, point ^ first, t),
            product(width, point ^ first, ud),
            plain_sum(rest),
            symbol,
        );
    }
}

/// Symbols fit a system with a plain sum exactly where the shortened ones solve the
/// system without its last unknown, and the last one fits the plain sum.
proof fn lemma_shorten(
    width: nat,
    a: Seq<u64>,
    b: Seq<u64>,
    plain: u64,
    symbols: Seq<u64>,
    sums: Seq<u64>,
)
    requires
        square(width, a, b, Some(plain), sums),
        symbols.len() == a.len(),
        elements(width, symbols),
    ensures
        elements(width, shortened_sums(width, a.last(), plain, b, sums)),
        fits(width, a, b, Some(plain), symbols, sums) <==> {
            let front = symbols.drop_last();
            &&& solves(
                width,
                a.drop_last(),
                b,
                all_shortened(width, a.last(), a.drop_last(), front),
                shortened_sums(width, a.last(), plain, b, sums),
            )
            &&& symbols.last() == plain ^ plain_sum(front)
        },
{
    let e = a.len() - 1;
    let first = a.last();
    let (fa, front) = (a.drop_last(), symbols.drop_last());
    let short = all_shortened(width, first, fa, front);
    let next = shortened_sums(width, first, plain, b, sums);
    let x = symbols.last();
    let t = plain_sum(front);
    lemma_plain_sum_element(width, front);
    assert forall|i: int| 0 <= i < short.len() implies element(width, #[trigger] short[i]) by {
        lemma_sum_element(width, first, a[i]);
        lemma_product_element(width, first ^ a[i], symbols[i]);
    }
    assert forall|j: int| 0 <= j < next.len() implies element(width, #[trigger] next[j]) by {
        lemma_sum_element(width, b[j], first);
        lemma_product_element(width, b[j] ^ first, sums[j]);
        lemma_sum_element(width, product(width, b[j] ^ first, sums[j]), plain);
    }
    // the plain sum
    lemma_sum(t, x, 0);
    lemma_sum(x, t, 0);
    lemma_sum(plain, t, 0);
    let last_fits = x == plain ^ t;
    assert(last_fits == (plain_sum(symbols) == plain));
    // the other sums
    assert forall|j: int| 0 <= j < b.len() && last_fits implies (divided_sum(
        width,
        a,
        symbols,
        b[j],
    ) == sums[j]) == (divided_sum(width, fa, short, b[j]) == next[j]) by {
        let point = b[j];
        assert(a[e] != b[j]);
        assert forall|k: int| 0 <= k < fa.len() implies #[trigger] fa[k] != point by {
            assert(a[k] != b[j]);
        }
        lemma_plain_terms(width, point, first, fa, front);
        lemma_difference(width, point, first);
        lemma_divided_sum_element(width, fa, front, point);
        let f = point ^ first;
        let fi = inverse(width, f);
        let tj = divided_sum(width, fa, front, point);
        let row = tj ^ product(width, fi, x);
        assert(divided_sum(width, a, symbols, point) == row);
        lemma_distributes(width, f, tj, product(width, fi, x));
        lemma_cancel(width, f, fi, x);
        lemma_product_element(width, fi, x);
        lemma_sum_element(width, tj, product(width, fi, x));
        lemma_cancel(width, f, fi, row);
        lemma_cancel(width, f, fi, sums[j]);
        let (ft, fs) = (product(width, f, tj), product(width, f, sums[j]));
        assert(product(width, f, row) == ft ^ x);
        // (ft + t) + (fs + plain) = (ft + x) + fs
        lemma_balance(ft, t, fs, plain);
        if row == sums[j] {
            assert(ft ^ t == fs ^ plain);
        }
        if divided_sum(width, fa, short, point) == next[j] {
            assert(product(width, f, row) == product(width, f, sums[j]));
        }
    }
    if fits(width, a, b, Some(plain), symbols, sums) {
        assert forall|j: int| 0 <= j < b.len() implies divided_sum(
            width,
            fa,
            short,
            #[trigger] b[j],
        ) == next[j] by {
            assert(divided_sum(width, a, symbols, b[j]) == sums[j]);
        }
    }
    if solves(width, fa, b, short, next) && last_fits {
        assert forall|j: int| 0 <= j < b.len() implies divided_sum(
            width,
            a,
            symbols,
            #[trigger] b[j],
        ) == sums[j] by {
            assert(divided_sum(width, fa, short, b[j]) == next[j]);
        }
    }
}

/// As many sums as unknowns leave no choice.
pub proof fn law_symbols_are_determined(
    width: nat,
    a: Seq<u64>,
    b: Seq<u64>,
    plain: Option<u64>,
    x: Seq<u64>,
    y: Seq<u64>,
    sums: Seq<u64>,
)
    requires
        square(width, a, b, plain, sums),
        fits(width, a, b, plain, x, sums),
        fits(width, a, b, plain, y, sums),
    ensures
        x == y,
{
    match plain {
        None => {
            lemma_solution_is_unique(width, a, b, x, y, sums);
        },
        Some(total) => {
            let e = a.len() - 1;
            let first = a.last();
            lemma_shorten(width, a, b, total, x, sums);
            lemma_shorten(width, a, b, total, y, sums);
            let sx = all_shortened(width, first, a.drop_last(), x.drop_last());
            let sy = all_shortened(width, first, a.drop_last(), y.drop_last());
            lemma_narrow_points(width, a, b);
            lemma_solution_is_unique(
                width,
                a.drop_last(),
                b,
                sx,
                sy,
                shortened_sums(width, first, total, b, sums),
            );
            assert forall|i: int| 0 <= i < e implies x[i] == y[i] by {
                assert(sx[i] == sy[i]);
                assert(a[i] != a[e]);
                lemma_difference(width, first, a[i]);
                lemma_cancel(width, first ^ a[i], inverse(width, first ^ a[i]), x[i]);
                lemma_cancel(width, first ^ a[i], inverse(width, first ^ a[i]), y[i]);
            }
            assert(x.drop_last() =~= y.drop_last());
            assert(x =~= y);
        },
    }
}

/// The symbols at the points `a`, from their sums at the points `b` and their own
/// sum where it is known.
pub fn unknown_symbols(width: usize, a: &Vec<u64>, b: &Vec<u64>, plain: Option<u64>, sums: &Vec<u64>) -> (symbols:
    Vec<u64>)
    requires
        square(width as nat, a@, b@, plain, sums@),
    ensures
        fits(width as nat, a@, b@, plain, symbols@, sums@),
{
    let ghost m = width as nat;
    match plain {
        None => {
            let symbols: Vec<u64> = solve(width, a, b, sums);
            assert(a@.take(b@.len() as int) =~= a@);
            symbols
        },
        Some(total) => {
            let last: usize = a.len() - 1;
            let first: u64 = a[last];
            let mut next: Vec<u64> = Vec::new();
            for j in 0..b.len()
                invariant
                    m == width,
                    proper_width(width as nat),
                    b@.len() == sums@.len(),
                    next@.len() == j,
                    forall|k: int|
                        0 <= k < j ==> #[trigger] next@[k] == shortened_sums(
                            m,
                            first,
                            total,
                            b@,
                            sums@,
                        )[k],
            {
                next.push(multiply(width, b[j] ^ first, sums[j]) ^ total);
            }
            assert(next@ =~= shortened_sums(m, first, total, b@, sums@));
            proof {
                let blank = Seq::new(a@.len(), |i: int| 0u64);
                lemma_shorten(m, a@, b@, total, blank, sums@);
            }
            let mut symbols: Vec<u64> = solve(width, a, b, &next);
            let ghost short = symbols@;
            assert(a@.take(b@.len() as int) =~= a@.drop_last());
            let mut rest: u64 = total;
            assert(plain_sum(symbols@.take(0)) == 0);
            proof {
                lemma_sum(total, 0, 0);
            }
            for i in 0..last
                invariant
                    m == width,
                    points(m, a@, b@),
                    last == a@.len() - 1,
                    first == a@[last as int],
                    symbols@.len() == last,
                    short.len() == last,
                    elements(m, short),
                    forall|k: int| i <= k < last ==> #[trigger] symbols@[k] == short[k],
                    forall|k: int|
                        0 <= k < i ==> element(m, #[trigger] symbols@[k]) && short[k] == product(
                            m,
                            first ^ a@[k],
                            symbols@[k],
                        ),
                    rest == total ^ plain_sum(symbols@.take(i as int)),
            {
                let ghost before = symbols@;
                let at: u64 = a[i];
                let value: u64 = multiply(width, invert(width, first ^ at), symbols[i]);
                proof {
                    assert(a@[i as int] != a@[last as int]);
                    lemma_difference(m, first, at);
                    lemma_product_element(m, inverse(m, first ^ at), symbols@[i as int]);
                    lemma_cancel(m, first ^ at, inverse(m, first ^ at), symbols@[i as int]);
                    lemma_sum(total, plain_sum(before.take(i as int)), value);
                }
                symbols.set(i, value);
                rest = rest ^ value;
                assert(symbols@.take(i + 1).drop_last() =~= before.take(i as int));
            }
            let ghost front = symbols@;
            symbols.push(rest);
            proof {
                assert(front.take(last as int) =~= front);
                assert(symbols@.drop_last() =~= front);
                assert(all_shortened(m, first, a@.drop_last(), front) =~= short);
                lemma_plain_sum_element(m, front);
                lemma_sum_element(m, total, plain_sum(front));
                lemma_shorten(m, a@, b@, total, symbols@, sums@);
            }
            symbols
        },
    }
}

} // verus!
