//! Arithmetic of the field whose elements have three bytes.
//!
//! An element with the bytes `a`, `b` and `c` stands for `a + b * x + c * x * x` over
//! the field of single bytes, where `x * x * x` is an element without a cube root.

use vstd::prelude::*;

use crate::transport::field::{
    element, inverse, invert, lemma_associates, lemma_commutes, lemma_cross, lemma_distributes,
    lemma_inverse, lemma_no_divisors, lemma_norm_below, lemma_norm_of_product, lemma_one,
    lemma_product_element, lemma_square_of_product, lemma_sum, lemma_sum_element, lemma_zero,
    multiply, norm, product,
};

verus! {

/// The level of the field of single bytes.
pub const BYTE_LEVEL: u8 = 3;

/// The element that the cube of `x` is.
pub const CUBE: u64 = 2;

/// The greatest element.
pub const GREATEST_CUBIC: u64 = 0xff_ffff;

/// The product of two bytes.
pub open spec fn bytes_product(a: u64, b: u64) -> u64 {
    product(3, a, b)
}

/// The lowest byte of an element.
pub open spec fn low_byte(a: u64) -> u64 {
    a & 0xff
}

/// The middle byte of an element.
pub open spec fn middle_byte(a: u64) -> u64 {
    (a >> 8) & 0xff
}

/// The highest byte of an element.
pub open spec fn high_byte(a: u64) -> u64 {
    a >> 16
}

/// The element of three bytes.
pub open spec fn of_bytes(low: u64, middle: u64, high: u64) -> u64 {
    (low ^ (middle << 8)) ^ (high << 16)
}

/// The product of two elements.
pub open spec fn cubic_product(a: u64, b: u64) -> u64 {
    let (a0, a1, a2) = (low_byte(a), middle_byte(a), high_byte(a));
    let (b0, b1, b2) = (low_byte(b), middle_byte(b), high_byte(b));
    of_bytes(
        bytes_product(a0, b0) ^ bytes_product(CUBE, bytes_product(a1, b2) ^ bytes_product(a2, b1)),
        (bytes_product(a0, b1) ^ bytes_product(a1, b0)) ^ bytes_product(
            CUBE,
            bytes_product(a2, b2),
        ),
        (bytes_product(a0, b2) ^ bytes_product(a2, b0)) ^ bytes_product(a1, b1),
    )
}

/// The element that makes a single byte of one with a highest byte of 0.
pub open spec fn companion(a: u64) -> u64 {
    let (a0, a1) = (low_byte(a), middle_byte(a));
    of_bytes(bytes_product(a0, a0), bytes_product(a0, a1), bytes_product(a1, a1))
}

/// The inverse of an element other than 0 with a highest byte of 0.
pub open spec fn linear_inverse(a: u64) -> u64 {
    cubic_product(companion(a), inverse(3, cubic_product(a, companion(a))))
}

/// The element that takes the highest byte off a given one.
pub open spec fn reducer(a: u64) -> u64 {
    of_bytes(middle_byte(a), high_byte(a), 0)
}

/// The element that gives 1 when multiplied with a given one other than 0.
pub open spec fn cubic_inverse(a: u64) -> u64 {
    if high_byte(a) == 0 {
        linear_inverse(a)
    } else {
        cubic_product(reducer(a), linear_inverse(cubic_product(a, reducer(a))))
    }
}

/// Whether a number is an element.
pub open spec fn cubic_element(a: u64) -> bool {
    a <= GREATEST_CUBIC
}

/// The bytes of an element, of a sum of two, and of what is made of three bytes.
proof fn lemma_bytes(a: u64, b: u64, c: u64)
    ensures
        cubic_element(a) ==> element(3, low_byte(a)) && element(3, middle_byte(a)) && element(
            3,
            high_byte(a),
        ) && of_bytes(low_byte(a), middle_byte(a), high_byte(a)) == a,
        low_byte(a ^ b) == low_byte(a) ^ low_byte(b),
        middle_byte(a ^ b) == middle_byte(a) ^ middle_byte(b),
        high_byte(a ^ b) == high_byte(a) ^ high_byte(b),
        element(3, a) && element(3, b) && element(3, c) ==> cubic_element(of_bytes(a, b, c))
            && low_byte(of_bytes(a, b, c)) == a && middle_byte(of_bytes(a, b, c)) == b && high_byte(
            of_bytes(a, b, c),
        ) == c,
        element(3, a) ==> low_byte(a) == a && middle_byte(a) == 0 && high_byte(a) == 0
            && of_bytes(a, 0, 0) == a,
{
    assert((a <= 0xff_ffff ==> a & 0xff <= 0xff && (a >> 8) & 0xff <= 0xff && a >> 16 <= 0xff && ((a
        & 0xff) ^ (((a >> 8) & 0xff) << 8)) ^ ((a >> 16) << 16) == a) && (a ^ b) & 0xff == (a & 0xff)
        ^ (b & 0xff) && ((a ^ b) >> 8) & 0xff == ((a >> 8) & 0xff) ^ ((b >> 8) & 0xff) && (a ^ b)
        >> 16 == (a >> 16) ^ (b >> 16) && (a <= 0xff && b <= 0xff && c <= 0xff ==> (a ^ (b << 8)) ^ (
    c << 16) <= 0xff_ffff && ((a ^ (b << 8)) ^ (c << 16)) & 0xff == a && (((a ^ (b << 8)) ^ (c
        << 16)) >> 8) & 0xff == b && ((a ^ (b << 8)) ^ (c << 16)) >> 16 == c) && (a <= 0xff ==> a
        & 0xff == a && (a >> 8) & 0xff == 0 && a >> 16 == 0 && (a ^ (0u64 << 8)) ^ (0u64 << 16) == a))
        by (bit_vector);
}

/// Two elements add byte by byte.
proof fn lemma_of_bytes_sum(a0: u64, a1: u64, a2: u64, b0: u64, b1: u64, b2: u64)
    ensures
        of_bytes(a0, a1, a2) ^ of_bytes(b0, b1, b2) == of_bytes(a0 ^ b0, a1 ^ b1, a2 ^ b2),
{
    assert(((a0 ^ (a1 << 8)) ^ (a2 << 16)) ^ ((b0 ^ (b1 << 8)) ^ (b2 << 16)) == ((a0 ^ b0) ^ ((a1
        ^ b1) << 8)) ^ ((a2 ^ b2) << 16)) by (bit_vector);
}

/// The product of elements of two bits.
spec fn small_product(a: u64, b: u64) -> u64 {
    let both = (a >> 1) & (b >> 1);
    (((a & 1) & (b & 1)) ^ both) ^ (((((a & 1) & (b >> 1)) ^ ((a >> 1) & (b & 1))) ^ (1 & both)) << 1)
}

proof fn lemma_small_product(a: u64, b: u64)
    ensures
        product(1, a, b) == small_product(a, b),
{
    reveal_with_fuel(product, 2);
}

/// The cube of an element.
spec fn cube(level: nat, a: u64) -> u64 {
    product(level, a, product(level, a, a))
}

/// The norm of a cube is the cube of the norm.
proof fn lemma_norm_of_cube(level: nat, a: u64)
    requires
        0 < level <= 3,
        element(level, a),
    ensures
        element((level - 1) as nat, norm(level, a)),
        norm(level, cube(level, a)) == cube((level - 1) as nat, norm(level, a)),
{
    lemma_product_element(level, a, a);
    lemma_norm_of_product(level, a, a);
    lemma_norm_of_product(level, a, product(level, a, a));
}

/// No byte is a cube root of `CUBE`: its norm over the elements of two bits would be
/// one there, and those have none.
proof fn lemma_no_cube_root(r: u64)
    requires
        element(3, r),
    ensures
        cube(3, r) != CUBE,
{
    if cube(3, r) == CUBE {
        let s = norm(3, r);
        let t = norm(2, s);
        lemma_norm_of_cube(3, r);
        lemma_norm_of_cube(2, s);
        lemma_norm_below(3, CUBE);
        lemma_norm_below(2, CUBE);
        lemma_norm_of_product(2, CUBE, CUBE);
        lemma_small_product(CUBE, CUBE);
        lemma_small_product(3, 3);
        lemma_small_product(t, t);
        lemma_small_product(t, small_product(t, t));
        assert(small_product(2, 2) == 3 && small_product(3, 3) == 2 && small_product(
            t,
            small_product(t, t),
        ) != 2) by (bit_vector)
            requires
                t <= 3,
        ;
    }
}

/// Products stay in the field.
pub proof fn lemma_cubic_product_element(a: u64, b: u64)
    requires
        cubic_element(a),
        cubic_element(b),
    ensures
        cubic_element(cubic_product(a, b)),
{
    lemma_product_bytes(a, b);
}

/// The bytes of a product.
proof fn lemma_product_bytes(a: u64, b: u64)
    requires
        cubic_element(a),
        cubic_element(b),
    ensures
        cubic_element(cubic_product(a, b)),
        ({
            let (a0, a1, a2) = (low_byte(a), middle_byte(a), high_byte(a));
            let (b0, b1, b2) = (low_byte(b), middle_byte(b), high_byte(b));
            &&& low_byte(cubic_product(a, b)) == bytes_product(a0, b0) ^ bytes_product(
                CUBE,
                bytes_product(a1, b2) ^ bytes_product(a2, b1),
            )
            &&& middle_byte(cubic_product(a, b)) == (bytes_product(a0, b1) ^ bytes_product(a1, b0))
                ^ bytes_product(CUBE, bytes_product(a2, b2))
            &&& high_byte(cubic_product(a, b)) == (bytes_product(a0, b2) ^ bytes_product(a2, b0))
                ^ bytes_product(a1, b1)
        }),
{
    let (a0, a1, a2) = (low_byte(a), middle_byte(a), high_byte(a));
    let (b0, b1, b2) = (low_byte(b), middle_byte(b), high_byte(b));
    lemma_bytes(a, b, 0);
    lemma_bytes(b, a, 0);
    lemma_product_element(3, a0, b0);
    lemma_product_element(3, a0, b1);
    lemma_product_element(3, a0, b2);
    lemma_product_element(3, a1, b0);
    lemma_product_element(3, a1, b1);
    lemma_product_element(3, a1, b2);
    lemma_product_element(3, a2, b0);
    lemma_product_element(3, a2, b1);
    lemma_product_element(3, a2, b2);
    let p = bytes_product(a1, b2) ^ bytes_product(a2, b1);
    lemma_sum_element(3, bytes_product(a1, b2), bytes_product(a2, b1));
    lemma_product_element(3, CUBE, p);
    lemma_product_element(3, CUBE, bytes_product(a2, b2));
    let (gp, gq) = (bytes_product(CUBE, p), bytes_product(CUBE, bytes_product(a2, b2)));
    lemma_sum_element(3, bytes_product(a0, b0), gp);
    let r = bytes_product(a0, b1) ^ bytes_product(a1, b0);
    lemma_sum_element(3, bytes_product(a0, b1), bytes_product(a1, b0));
    lemma_sum_element(3, r, gq);
    let t = bytes_product(a0, b2) ^ bytes_product(a2, b0);
    lemma_sum_element(3, bytes_product(a0, b2), bytes_product(a2, b0));
    lemma_sum_element(3, t, bytes_product(a1, b1));
    lemma_bytes(bytes_product(a0, b0) ^ gp, r ^ gq, t ^ bytes_product(a1, b1));
}

/// Factors can change places.
pub proof fn lemma_cubic_commutes(a: u64, b: u64)
    ensures
        cubic_product(a, b) == cubic_product(b, a),
{
    let (a0, a1, a2) = (low_byte(a), middle_byte(a), high_byte(a));
    let (b0, b1, b2) = (low_byte(b), middle_byte(b), high_byte(b));
    lemma_commutes(3, a0, b0);
    lemma_commutes(3, a0, b1);
    lemma_commutes(3, a0, b2);
    lemma_commutes(3, a1, b0);
    lemma_commutes(3, a1, b1);
    lemma_commutes(3, a1, b2);
    lemma_commutes(3, a2, b0);
    lemma_commutes(3, a2, b1);
    lemma_commutes(3, a2, b2);
    lemma_sum(bytes_product(a1, b2), bytes_product(a2, b1), 0);
    lemma_sum(bytes_product(a0, b1), bytes_product(a1, b0), 0);
    lemma_sum(bytes_product(a0, b2), bytes_product(a2, b0), 0);
}

/// A product with a sum is the sum of the products.
pub proof fn lemma_cubic_distributes(a: u64, b: u64, c: u64)
    ensures
        cubic_product(a, b ^ c) == cubic_product(a, b) ^ cubic_product(a, c),
{
    let (a0, a1, a2) = (low_byte(a), middle_byte(a), high_byte(a));
    let (b0, b1, b2) = (low_byte(b), middle_byte(b), high_byte(b));
    let (c0, c1, c2) = (low_byte(c), middle_byte(c), high_byte(c));
    lemma_bytes(b, c, 0);
    lemma_distributes(3, a0, b0, c0);
    lemma_distributes(3, a0, b1, c1);
    lemma_distributes(3, a0, b2, c2);
    lemma_distributes(3, a1, b0, c0);
    lemma_distributes(3, a1, b1, c1);
    lemma_distributes(3, a1, b2, c2);
    lemma_distributes(3, a2, b0, c0);
    lemma_distributes(3, a2, b1, c1);
    lemma_distributes(3, a2, b2, c2);
    let (p, q) = (bytes_product(a1, b2), bytes_product(a1, c2));
    let (r, t) = (bytes_product(a2, b1), bytes_product(a2, c1));
    lemma_cross(p, q, r, t);
    lemma_distributes(3, CUBE, p ^ r, q ^ t);
    let (u, v) = (bytes_product(CUBE, p ^ r), bytes_product(CUBE, q ^ t));
    lemma_cross(bytes_product(a0, b0), bytes_product(a0, c0), u, v);
    let (h, k) = (bytes_product(a2, b2), bytes_product(a2, c2));
    lemma_distributes(3, CUBE, h, k);
    let (gh, gk) = (bytes_product(CUBE, h), bytes_product(CUBE, k));
    let (d, e) = (bytes_product(a0, b1), bytes_product(a0, c1));
    let (f, g) = (bytes_product(a1, b0), bytes_product(a1, c0));
    lemma_cross(d, e, f, g);
    lemma_cross(d ^ f, e ^ g, gh, gk);
    let (l, m) = (bytes_product(a0, b2), bytes_product(a0, c2));
    let (n, o) = (bytes_product(a2, b0), bytes_product(a2, c0));
    lemma_cross(l, m, n, o);
    lemma_cross(l ^ n, m ^ o, bytes_product(a1, b1), bytes_product(a1, c1));
    lemma_of_bytes_sum(
        bytes_product(a0, b0) ^ u,
        (d ^ f) ^ gh,
        (l ^ n) ^ bytes_product(a1, b1),
        bytes_product(a0, c0) ^ v,
        (e ^ g) ^ gk,
        (m ^ o) ^ bytes_product(a1, c1),
    );
}

/// The lowest byte of a product of three, over the products of their bytes.
spec fn triple_low(t: u64, a: u64, b: u64, c: u64, d: u64, e: u64, f: u64, g: u64, h: u64) -> u64 {
    (t ^ (a ^ b)) ^ (((c ^ d) ^ e) ^ ((f ^ g) ^ h))
}

/// The middle byte of a product of three, over the products of their bytes.
spec fn triple_middle(
    a: u64,
    b: u64,
    c: u64,
    d: u64,
    e: u64,
    f: u64,
    g: u64,
    h: u64,
    i: u64,
) -> u64 {
    ((a ^ (b ^ c)) ^ ((d ^ e) ^ f)) ^ ((g ^ h) ^ i)
}

/// The highest byte of a product of three, over the products of their bytes.
spec fn triple_high(
    a: u64,
    b: u64,
    c: u64,
    d: u64,
    e: u64,
    f: u64,
    g: u64,
    h: u64,
    i: u64,
) -> u64 {
    ((a ^ (b ^ c)) ^ ((d ^ e) ^ f)) ^ ((g ^ h) ^ i)
}

spec fn byte_at(a: u64, which: int) -> u64 {
    if which == 0 {
        low_byte(a)
    } else if which == 1 {
        middle_byte(a)
    } else {
        high_byte(a)
    }
}

/// The product of three bytes of three elements.
spec fn term(a: u64, b: u64, c: u64, i: int, j: int, k: int) -> u64 {
    bytes_product(bytes_product(byte_at(a, i), byte_at(b, j)), byte_at(c, k))
}

/// The same times `CUBE`.
spec fn raised(a: u64, b: u64, c: u64, i: int, j: int, k: int) -> u64 {
    bytes_product(CUBE, term(a, b, c, i, j, k))
}

/// A product of three elements, over the products of their bytes.
spec fn triple(a: u64, b: u64, c: u64) -> u64 {
    of_bytes(
        triple_low(
            term(a, b, c, 0, 0, 0),
            raised(a, b, c, 1, 2, 0),
            raised(a, b, c, 2, 1, 0),
            raised(a, b, c, 0, 1, 2),
            raised(a, b, c, 1, 0, 2),
            bytes_product(CUBE, raised(a, b, c, 2, 2, 2)),
            raised(a, b, c, 0, 2, 1),
            raised(a, b, c, 2, 0, 1),
            raised(a, b, c, 1, 1, 1),
        ),
        triple_middle(
            term(a, b, c, 0, 0, 1),
            raised(a, b, c, 1, 2, 1),
            raised(a, b, c, 2, 1, 1),
            term(a, b, c, 0, 1, 0),
            term(a, b, c, 1, 0, 0),
            raised(a, b, c, 2, 2, 0),
            raised(a, b, c, 0, 2, 2),
            raised(a, b, c, 2, 0, 2),
            raised(a, b, c, 1, 1, 2),
        ),
        triple_high(
            term(a, b, c, 0, 0, 2),
            raised(a, b, c, 1, 2, 2),
            raised(a, b, c, 2, 1, 2),
            term(a, b, c, 0, 2, 0),
            term(a, b, c, 2, 0, 0),
            term(a, b, c, 1, 1, 0),
            term(a, b, c, 0, 1, 1),
            term(a, b, c, 1, 0, 1),
            raised(a, b, c, 2, 2, 1),
        ),
    )
}

/// A byte of a product of two times a byte of a third.
proof fn lemma_split_low(p: u64, q: u64, r: u64, c: u64)
    requires
        element(3, p),
        element(3, q),
        element(3, r),
        element(3, c),
    ensures
        bytes_product(p ^ bytes_product(CUBE, q ^ r), c) == bytes_product(p, c) ^ (bytes_product(
            CUBE,
            bytes_product(q, c),
        ) ^ bytes_product(CUBE, bytes_product(r, c))),
{
    let g = bytes_product(CUBE, q ^ r);
    lemma_sum_element(3, q, r);
    lemma_product_element(3, CUBE, q ^ r);
    lemma_left(p, g, c);
    lemma_associates(3, CUBE, q ^ r, c);
    lemma_left(q, r, c);
    lemma_distributes(3, CUBE, bytes_product(q, c), bytes_product(r, c));
}

proof fn lemma_left(a: u64, b: u64, c: u64)
    ensures
        bytes_product(a ^ b, c) == bytes_product(a, c) ^ bytes_product(b, c),
{
    lemma_commutes(3, a ^ b, c);
    lemma_commutes(3, a, c);
    lemma_commutes(3, b, c);
    lemma_distributes(3, c, a, b);
}

proof fn lemma_split_middle(p: u64, q: u64, r: u64, c: u64)
    requires
        element(3, r),
        element(3, c),
    ensures
        bytes_product((p ^ q) ^ bytes_product(CUBE, r), c) == (bytes_product(p, c) ^ bytes_product(
            q,
            c,
        )) ^ bytes_product(CUBE, bytes_product(r, c)),
{
    lemma_left(p ^ q, bytes_product(CUBE, r), c);
    lemma_left(p, q, c);
    lemma_associates(3, CUBE, r, c);
}

proof fn lemma_split_high(p: u64, q: u64, r: u64, c: u64)
    ensures
        bytes_product((p ^ q) ^ r, c) == (bytes_product(p, c) ^ bytes_product(q, c))
            ^ bytes_product(r, c),
{
    lemma_left(p ^ q, r, c);
    lemma_left(p, q, c);
}

/// A multiple of a sum of three.
proof fn lemma_raise(p: u64, q: u64, r: u64)
    ensures
        bytes_product(CUBE, (p ^ q) ^ r) == (bytes_product(CUBE, p) ^ bytes_product(CUBE, q))
            ^ bytes_product(CUBE, r),
{
    lemma_distributes(3, CUBE, p ^ q, r);
    lemma_distributes(3, CUBE, p, q);
}

proof fn lemma_triple(a: u64, b: u64, c: u64)
    requires
        cubic_element(a),
        cubic_element(b),
        cubic_element(c),
    ensures
        cubic_product(cubic_product(a, b), c) == triple(a, b, c),
{
    let (a0, a1, a2) = (low_byte(a), middle_byte(a), high_byte(a));
    let (b0, b1, b2) = (low_byte(b), middle_byte(b), high_byte(b));
    let (c0, c1, c2) = (low_byte(c), middle_byte(c), high_byte(c));
    lemma_bytes(a, b, 0);
    lemma_bytes(b, c, 0);
    lemma_bytes(c, a, 0);
    lemma_product_bytes(a, b);
    lemma_product_element(3, a0, b0);
    lemma_product_element(3, a1, b2);
    lemma_product_element(3, a2, b1);
    lemma_product_element(3, a2, b2);
    let p00 = bytes_product(a0, b0);
    let p01 = bytes_product(a0, b1);
    let p02 = bytes_product(a0, b2);
    let p10 = bytes_product(a1, b0);
    let p11 = bytes_product(a1, b1);
    let p12 = bytes_product(a1, b2);
    let p20 = bytes_product(a2, b0);
    let p21 = bytes_product(a2, b1);
    let p22 = bytes_product(a2, b2);
    lemma_split_low(p00, p12, p21, c0);
    lemma_split_low(p00, p12, p21, c1);
    lemma_split_low(p00, p12, p21, c2);
    lemma_split_middle(p01, p10, p22, c0);
    lemma_split_middle(p01, p10, p22, c1);
    lemma_split_middle(p01, p10, p22, c2);
    lemma_split_high(p02, p20, p11, c0);
    lemma_split_high(p02, p20, p11, c1);
    lemma_split_high(p02, p20, p11, c2);
    // the lowest byte: a multiple of the middle and the highest byte of a b
    let m = (bytes_product(p01, c2) ^ bytes_product(p10, c2)) ^ bytes_product(
        CUBE,
        bytes_product(p22, c2),
    );
    let h = (bytes_product(p02, c1) ^ bytes_product(p20, c1)) ^ bytes_product(p11, c1);
    lemma_distributes(3, CUBE, m, h);
    lemma_raise(
        bytes_product(p01, c2),
        bytes_product(p10, c2),
        bytes_product(CUBE, bytes_product(p22, c2)),
    );
    lemma_raise(bytes_product(p02, c1), bytes_product(p20, c1), bytes_product(p11, c1));
    // the middle byte: a multiple of the highest byte of a b
    lemma_raise(bytes_product(p02, c2), bytes_product(p20, c2), bytes_product(p11, c2));
}

/// The products of three bytes are the same from either end.
proof fn lemma_term_swap(a: u64, b: u64, c: u64, i: int, j: int, k: int)
    requires
        cubic_element(a),
        cubic_element(b),
        cubic_element(c),
    ensures
        term(a, b, c, i, j, k) == term(c, b, a, k, j, i),
{
    lemma_bytes(a, b, 0);
    lemma_bytes(b, c, 0);
    lemma_bytes(c, a, 0);
    let (x, y, z) = (byte_at(a, i), byte_at(b, j), byte_at(c, k));
    lemma_associates(3, x, y, z);
    lemma_commutes(3, y, z);
    lemma_commutes(3, x, bytes_product(z, y));
}

proof fn lemma_triple_sums(
    a: u64,
    b: u64,
    c: u64,
    d: u64,
    e: u64,
    f: u64,
    g: u64,
    h: u64,
    i: u64,
)
    ensures
        triple_low(a, b, c, d, e, f, g, h, i) == triple_low(a, g, d, c, h, f, b, e, i),
        triple_middle(a, b, c, d, e, f, g, h, i) == triple_middle(e, b, i, d, a, g, f, h, c),
        triple_high(a, b, c, d, e, f, g, h, i) == triple_high(e, i, c, d, a, g, f, h, b),
{
    assert(triple_low(a, b, c, d, e, f, g, h, i) == triple_low(a, g, d, c, h, f, b, e, i)
        && triple_middle(a, b, c, d, e, f, g, h, i) == triple_middle(e, b, i, d, a, g, f, h, c)
        && triple_high(a, b, c, d, e, f, g, h, i) == triple_high(e, i, c, d, a, g, f, h, b))
        by (bit_vector);
}

/// Three factors can be grouped either way.
pub proof fn lemma_cubic_associates(a: u64, b: u64, c: u64)
    requires
        cubic_element(a),
        cubic_element(b),
        cubic_element(c),
    ensures
        cubic_product(cubic_product(a, b), c) == cubic_product(a, cubic_product(b, c)),
{
    lemma_triple(a, b, c);
    lemma_triple(c, b, a);
    lemma_cubic_commutes(a, cubic_product(b, c));
    lemma_cubic_commutes(b, c);
    assert forall|i: int, j: int, k: int| #[trigger] term(a, b, c, i, j, k) == term(
        c,
        b,
        a,
        k,
        j,
        i,
    ) by {
        lemma_term_swap(a, b, c, i, j, k);
    }
    assert forall|i: int, j: int, k: int| #[trigger] raised(a, b, c, i, j, k) == raised(
        c,
        b,
        a,
        k,
        j,
        i,
    ) by {
        assert(term(a, b, c, i, j, k) == term(c, b, a, k, j, i));
    }
    lemma_triple_sums(
        term(a, b, c, 0, 0, 0),
        raised(a, b, c, 1, 2, 0),
        raised(a, b, c, 2, 1, 0),
        raised(a, b, c, 0, 1, 2),
        raised(a, b, c, 1, 0, 2),
        bytes_product(CUBE, raised(a, b, c, 2, 2, 2)),
        raised(a, b, c, 0, 2, 1),
        raised(a, b, c, 2, 0, 1),
        raised(a, b, c, 1, 1, 1),
    );
    lemma_triple_sums(
        term(a, b, c, 0, 0, 1),
        raised(a, b, c, 1, 2, 1),
        raised(a, b, c, 2, 1, 1),
        term(a, b, c, 0, 1, 0),
        term(a, b, c, 1, 0, 0),
        raised(a, b, c, 2, 2, 0),
        raised(a, b, c, 0, 2, 2),
        raised(a, b, c, 2, 0, 2),
        raised(a, b, c, 1, 1, 2),
    );
    lemma_triple_sums(
        term(a, b, c, 0, 0, 2),
        raised(a, b, c, 1, 2, 2),
        raised(a, b, c, 2, 1, 2),
        term(a, b, c, 0, 2, 0),
        term(a, b, c, 2, 0, 0),
        term(a, b, c, 1, 1, 0),
        term(a, b, c, 0, 1, 1),
        term(a, b, c, 1, 0, 1),
        raised(a, b, c, 2, 2, 1),
    );
    assert(triple(a, b, c) == triple(c, b, a));
}

/// The product with a single byte.
proof fn lemma_scalar(a: u64, s: u64)
    requires
        cubic_element(a),
        element(3, s),
    ensures
        cubic_product(a, s) == of_bytes(
            bytes_product(low_byte(a), s),
            bytes_product(middle_byte(a), s),
            bytes_product(high_byte(a), s),
        ),
{
    let (a0, a1, a2) = (low_byte(a), middle_byte(a), high_byte(a));
    lemma_bytes(s, 0, 0);
    lemma_zero(3, a0);
    lemma_zero(3, a1);
    lemma_zero(3, a2);
    lemma_zero(3, CUBE);
    lemma_sum(0, 0, 0);
    lemma_sum(bytes_product(a0, s), 0, 0);
    lemma_sum(bytes_product(a1, s), 0, 0);
    lemma_sum(bytes_product(a2, s), 0, 0);
}

/// A product with 1 is the other factor.
pub proof fn lemma_cubic_one(a: u64)
    requires
        cubic_element(a),
    ensures
        cubic_product(a, 1) == a,
{
    lemma_scalar(a, 1);
    lemma_bytes(a, 0, 0);
    lemma_one(3, low_byte(a));
    lemma_one(3, middle_byte(a));
    lemma_one(3, high_byte(a));
}

/// The cube of a product is the product of the cubes.
proof fn lemma_cube_of_product(a: u64, b: u64)
    requires
        element(3, a),
        element(3, b),
    ensures
        cube(3, bytes_product(a, b)) == bytes_product(cube(3, a), cube(3, b)),
{
    let (aa, bb) = (bytes_product(a, a), bytes_product(b, b));
    lemma_square_of_product(3, a, b);
    lemma_product_element(3, a, a);
    lemma_product_element(3, b, b);
    lemma_product_element(3, aa, bb);
    // (a b) (aa bb) = a (b (aa bb)) = a (aa (b bb))
    lemma_associates(3, a, b, bytes_product(aa, bb));
    lemma_associates(3, b, aa, bb);
    lemma_commutes(3, b, aa);
    lemma_associates(3, aa, b, bb);
    lemma_product_element(3, b, bb);
    lemma_associates(3, a, aa, bytes_product(b, bb));
}

/// Cubes in the ratio of `CUBE` are 0.
proof fn lemma_cubes_differ(p: u64, q: u64)
    requires
        element(3, p),
        element(3, q),
        cube(3, p) == bytes_product(CUBE, cube(3, q)),
    ensures
        p == 0,
        q == 0,
{
    lemma_product_element(3, p, p);
    lemma_product_element(3, q, q);
    lemma_product_element(3, q, bytes_product(q, q));
    if q == 0 {
        lemma_zero(3, 0);
        lemma_zero(3, CUBE);
        if p != 0 {
            lemma_inverse(3, p);
            lemma_no_divisors(3, p, bytes_product(p, p));
            lemma_no_divisors(3, p, p);
        }
    } else {
        lemma_inverse(3, q);
        let i = inverse(3, q);
        let r = bytes_product(p, i);
        lemma_product_element(3, p, i);
        lemma_cube_of_product(p, i);
        lemma_cube_of_product(q, i);
        lemma_product_element(3, i, i);
        lemma_product_element(3, i, bytes_product(i, i));
        lemma_associates(3, CUBE, cube(3, q), cube(3, i));
        lemma_one(3, 1);
        lemma_one(3, CUBE);
        assert(cube(3, r) == CUBE);
        lemma_no_cube_root(r);
    }
}

/// An element with a highest byte of 0 and its companion make a single byte, which is
/// not 0 unless the element is.
proof fn lemma_companion(a: u64)
    requires
        cubic_element(a),
        high_byte(a) == 0,
        a != 0,
    ensures
        cubic_element(companion(a)),
        element(3, cubic_product(a, companion(a))),
        cubic_product(a, companion(a)) != 0,
{
    let (a0, a1) = (low_byte(a), middle_byte(a));
    lemma_bytes(a, 0, 0);
    let (b0, b1, b2) = (bytes_product(a0, a0), bytes_product(a0, a1), bytes_product(a1, a1));
    lemma_product_element(3, a0, a0);
    lemma_product_element(3, a0, a1);
    lemma_product_element(3, a1, a1);
    lemma_bytes(b0, b1, b2);
    lemma_product_bytes(a, companion(a));
    lemma_zero(3, b0);
    lemma_zero(3, b1);
    lemma_zero(3, b2);
    lemma_zero(3, CUBE);
    // the middle byte: a0 (a0 a1) + a1 (a0 a0)
    lemma_associates(3, a0, a0, a1);
    lemma_commutes(3, bytes_product(a0, a0), a1);
    lemma_sum(bytes_product(a0, b1), 0, 0);
    // the highest byte: a0 (a1 a1) + a1 (a0 a1)
    lemma_associates(3, a0, a1, a1);
    lemma_commutes(3, bytes_product(a0, a1), a1);
    lemma_sum(bytes_product(a0, b2), 0, 0);
    // the lowest byte: a0 (a0 a0) + CUBE * a1 (a1 a1)
    lemma_sum(bytes_product(a1, b2), 0, 0);
    lemma_sum(0, 0, 0);
    let m = cubic_product(a, companion(a));
    assert(middle_byte(m) == 0 && high_byte(m) == 0);
    assert(low_byte(m) == cube(3, a0) ^ bytes_product(CUBE, cube(3, a1)));
    lemma_bytes(m, 0, 0);
    lemma_bytes(low_byte(m), 0, 0);
    assert(m == low_byte(m));
    if m == 0 {
        lemma_sum(cube(3, a0), bytes_product(CUBE, cube(3, a1)), 0);
        lemma_cubes_differ(a0, a1);
        lemma_bytes(0, 0, 0);
        assert(a == of_bytes(0, 0, 0));
    }
}

/// An element with a highest byte of 0 has an inverse.
proof fn lemma_linear_inverse(a: u64)
    requires
        cubic_element(a),
        high_byte(a) == 0,
        a != 0,
    ensures
        cubic_element(linear_inverse(a)),
        cubic_product(a, linear_inverse(a)) == 1,
{
    lemma_companion(a);
    let m = cubic_product(a, companion(a));
    lemma_inverse(3, m);
    let i = inverse(3, m);
    lemma_cubic_product_element(companion(a), i);
    lemma_cubic_associates(a, companion(a), i);
    lemma_scalar(m, i);
    lemma_bytes(m, 0, 0);
    lemma_zero(3, i);
    lemma_bytes(1, 0, 0);
}

/// An element other than 0 has an inverse.
pub proof fn lemma_cubic_inverse(a: u64)
    requires
        cubic_element(a),
        a != 0,
    ensures
        cubic_element(cubic_inverse(a)),
        cubic_product(a, cubic_inverse(a)) == 1,
{
    if high_byte(a) == 0 {
        lemma_linear_inverse(a);
    } else {
        let (a0, a1, a2) = (low_byte(a), middle_byte(a), high_byte(a));
        lemma_bytes(a, 0, 0);
        lemma_bytes(a1, a2, 0);
        let c = reducer(a);
        lemma_product_bytes(a, c);
        let d = cubic_product(a, c);
        lemma_zero(3, a0);
        lemma_zero(3, a1);
        lemma_zero(3, a2);
        lemma_zero(3, CUBE);
        // the highest byte: a1 a2 + a2 a1
        lemma_commutes(3, a1, a2);
        let (p, q, r, t) = (
            bytes_product(a0, a1),
            bytes_product(a2, a2),
            bytes_product(a0, a2),
            bytes_product(a1, a1),
        );
        lemma_sum(0, bytes_product(a2, a1), 0);
        lemma_sum(bytes_product(a2, a1), 0, 0);
        assert(high_byte(d) == 0);
        lemma_sum(q, 0, 0);
        assert(low_byte(d) == p ^ bytes_product(CUBE, q));
        lemma_sum(r ^ t, 0, 0);
        assert(middle_byte(d) == r ^ t);
        if d == 0 {
            lemma_bytes(d, 0, 0);
            lemma_bytes(0, 0, 0);
            lemma_sum(p, bytes_product(CUBE, q), 0);
            lemma_sum(r, t, 0);
            assert(p == bytes_product(CUBE, q) && r == t);
            // a1 (a1 a1) = a1 (a0 a2) = (a0 a1) a2 = CUBE (a2 (a2 a2))
            lemma_commutes(3, a0, a2);
            lemma_associates(3, a1, a0, a2);
            lemma_commutes(3, a1, a0);
            lemma_product_element(3, a2, a2);
            lemma_associates(3, CUBE, q, a2);
            lemma_commutes(3, q, a2);
            assert(cube(3, a1) == bytes_product(CUBE, cube(3, a2)));
            lemma_cubes_differ(a1, a2);
        }
        lemma_linear_inverse(d);
        lemma_cubic_product_element(c, linear_inverse(d));
        lemma_cubic_associates(a, c, linear_inverse(d));
    }
}

/// The product of two elements.
pub fn cubic_multiply(a: u64, b: u64) -> (result: u64)
    ensures
        result == cubic_product(a, b),
{
    let (a0, a1, a2): (u64, u64, u64) = (a & 0xff, (a >> 8) & 0xff, a >> 16);
    let (b0, b1, b2): (u64, u64, u64) = (b & 0xff, (b >> 8) & 0xff, b >> 16);
    let level: u8 = BYTE_LEVEL;
    let low: u64 = multiply(level, a0, b0) ^ multiply(
        level,
        CUBE,
        multiply(level, a1, b2) ^ multiply(level, a2, b1),
    );
    let middle: u64 = (multiply(level, a0, b1) ^ multiply(level, a1, b0)) ^ multiply(
        level,
        CUBE,
        multiply(level, a2, b2),
    );
    let high: u64 = (multiply(level, a0, b2) ^ multiply(level, a2, b0)) ^ multiply(level, a1, b1);
    (low ^ (middle << 8)) ^ (high << 16)
}

fn linear_invert(a: u64) -> (result: u64)
    ensures
        result == linear_inverse(a),
{
    let (a0, a1): (u64, u64) = (a & 0xff, (a >> 8) & 0xff);
    let level: u8 = BYTE_LEVEL;
    let other: u64 = (multiply(level, a0, a0) ^ (multiply(level, a0, a1) << 8)) ^ (multiply(
        level,
        a1,
        a1,
    ) << 16);
    cubic_multiply(other, invert(level, cubic_multiply(a, other)))
}

/// The inverse of an element.
pub fn cubic_invert(a: u64) -> (result: u64)
    ensures
        result == cubic_inverse(a),
{
    if a >> 16 == 0 {
        linear_invert(a)
    } else {
        let other: u64 = (((a >> 8) & 0xff) ^ ((a >> 16) << 8)) ^ (0u64 << 16);
        cubic_multiply(other, linear_invert(cubic_multiply(a, other)))
    }
}

} // verus!
