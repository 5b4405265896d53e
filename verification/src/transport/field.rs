//! Arithmetic of the finite fields over which parity packets are computed.
//!
//! The fields form a tower. The one at level 0 has the elements 0 and 1, and each
//! level pairs two elements of the level below, so that the field at level `m`
//! has the numbers of `2^m` bits as its elements, up to 64 bits at level 6. A sum
//! is an exclusive or at every level, and a difference is the same as a sum.

use vstd::prelude::*;

verus! {

/// The highest level of the tower.
pub const TOP_LEVEL: u8 = 6;

/// The greatest element of the field at a level.
pub open spec fn greatest(level: nat) -> u64 {
    if level == 0 {
        1
    } else if level == 1 {
        3
    } else if level == 2 {
        0xf
    } else if level == 3 {
        0xff
    } else if level == 4 {
        0xffff
    } else if level == 5 {
        0xffff_ffff
    } else {
        u64::MAX
    }
}

/// The number of bits in each half of an element at a level above 0.
pub open spec fn half_bits(level: nat) -> u64 {
    if level <= 1 {
        1
    } else if level == 2 {
        2
    } else if level == 3 {
        4
    } else if level == 4 {
        8
    } else if level == 5 {
        16
    } else {
        32
    }
}

/// Whether a number is an element of the field at a level.
pub open spec fn element(level: nat, a: u64) -> bool {
    a <= greatest(level)
}

/// The lower half of an element.
pub open spec fn lower(level: nat, a: u64) -> u64 {
    a & greatest((level - 1) as nat)
}

/// The upper half of an element.
pub open spec fn upper(level: nat, a: u64) -> u64 {
    a >> half_bits(level)
}

/// The element with two given halves.
pub open spec fn joined(level: nat, low: u64, high: u64) -> u64 {
    low ^ (high << half_bits(level))
}

/// The element that the next level's defining equation `x * x = generator * x + 1`
/// is made with: the root of this level's own equation, or 1 at level 0.
pub open spec fn generator(level: nat) -> u64 {
    if level == 0 {
        1
    } else {
        1u64 << half_bits(level)
    }
}

/// The product of two elements. An element with the halves `l` and `h` stands for
/// `l + h * x`.
pub open spec fn product(level: nat, a: u64, b: u64) -> u64
    decreases level,
{
    if level == 0 {
        a & b
    } else {
        let below = (level - 1) as nat;
        let (a0, a1) = (lower(level, a), upper(level, a));
        let (b0, b1) = (lower(level, b), upper(level, b));
        let both = product(below, a1, b1);
        joined(
            level,
            product(below, a0, b0) ^ both,
            (product(below, a0, b1) ^ product(below, a1, b0)) ^ product(
                below,
                generator(below),
                both,
            ),
        )
    }
}

/// The element that gives 1 when multiplied with a given one other than 0.
pub open spec fn inverse(level: nat, a: u64) -> u64
    decreases level,
{
    if level == 0 {
        a
    } else {
        let below = (level - 1) as nat;
        let scale = inverse(below, norm(level, a));
        joined(
            level,
            product(below, conjugate(level, a), scale),
            product(below, upper(level, a), scale),
        )
    }
}

/// The lower half of the conjugate of an element. The upper half is the element's.
pub open spec fn conjugate(level: nat, a: u64) -> u64 {
    let below = (level - 1) as nat;
    lower(level, a) ^ product(below, generator(below), upper(level, a))
}

/// The product of an element with its conjugate, which lies one level below.
pub open spec fn norm(level: nat, a: u64) -> u64 {
    let below = (level - 1) as nat;
    product(below, lower(level, a), conjugate(level, a)) ^ product(
        below,
        upper(level, a),
        upper(level, a),
    )
}

/// Facts about sums.
pub proof fn lemma_sum(a: u64, b: u64, c: u64)
    ensures
        a ^ b == b ^ a,
        (a ^ b) ^ c == a ^ (b ^ c),
        a ^ a == 0,
        a ^ 0 == a,
        0 ^ a == a,
        (a ^ b) ^ b == a,
        a ^ b == 0 ==> a == b,
{
    assert(a ^ b == b ^ a && (a ^ b) ^ c == a ^ (b ^ c) && a ^ a == 0 && a ^ 0 == a && 0 ^ a == a
        && (a ^ b) ^ b == a && (a ^ b == 0 ==> a == b)) by (bit_vector);
}

/// Two sums of two can be added crosswise.
pub proof fn lemma_cross(a: u64, b: u64, c: u64, d: u64)
    ensures
        (a ^ b) ^ (c ^ d) == (a ^ c) ^ (b ^ d),
{
    assert((a ^ b) ^ (c ^ d) == (a ^ c) ^ (b ^ d)) by (bit_vector);
}

/// Facts about products at level 0.
proof fn lemma_bits(a: u64, b: u64, c: u64)
    ensures
        a & b == b & a,
        a & (b ^ c) == (a & b) ^ (a & c),
        (a & b) & c == a & (b & c),
        a & a == a,
        a <= 1 ==> a & b <= 1 && a & 1 == a,
        a <= 1 && b <= 1 ==> (a ^ b == 1) == ((a == 1) != (b == 1)),
{
    assert(a & b == b & a && a & (b ^ c) == (a & b) ^ (a & c) && (a & b) & c == a & (b & c) && a & a
        == a && (a <= 1 ==> a & b <= 1 && a & 1 == a) && (a <= 1 && b <= 1 ==> (a ^ b == 1) == ((a
        == 1) != (b == 1)))) by (bit_vector);
}

/// The halves of an element, of a sum of two, and of what is joined of two halves.
pub proof fn lemma_halves(level: nat, a: u64, b: u64)
    requires
        0 < level <= TOP_LEVEL,
    ensures
        element(level, a) ==> element((level - 1) as nat, lower(level, a)),
        element(level, a) ==> element((level - 1) as nat, upper(level, a)),
        element(level, a) ==> joined(level, lower(level, a), upper(level, a)) == a,
        lower(level, a ^ b) == lower(level, a) ^ lower(level, b),
        upper(level, a ^ b) == upper(level, a) ^ upper(level, b),
        element((level - 1) as nat, a) && element((level - 1) as nat, b) ==> element(
            level,
            joined(level, a, b),
        ) && lower(level, joined(level, a, b)) == a && upper(level, joined(level, a, b)) == b,
        joined(level, a, 0) == a,
{
    let h = half_bits(level);
    let small = greatest((level - 1) as nat);
    let large = greatest(level);
    assert((a <= large ==> a & small <= small && a >> h <= small && (a & small) ^ ((a >> h) << h)
        == a) && (a ^ b) & small == (a & small) ^ (b & small) && (a ^ b) >> h == (a >> h) ^ (b >> h)
        && (a <= small && b <= small ==> a ^ (b << h) <= large && (a ^ (b << h)) & small == a && (a
        ^ (b << h)) >> h == b) && a ^ (0u64 << h) == a) by (bit_vector)
        requires
            h == 1 && small == 1 && large == 3 || h == 2 && small == 3 && large == 0xf || h == 4
                && small == 0xf && large == 0xff || h == 8 && small == 0xff && large == 0xffff || h
                == 16 && small == 0xffff && large == 0xffff_ffff || h == 32 && small == 0xffff_ffff
                && large == 0xffff_ffff_ffff_ffff,
    ;
}

/// Sums stay in the field.
pub proof fn lemma_sum_element(level: nat, a: u64, b: u64)
    requires
        element(level, a),
        element(level, b),
    ensures
        element(level, a ^ b),
{
    let g = greatest(level);
    assert(a ^ b <= g) by (bit_vector)
        requires
            a <= g,
            b <= g,
            g == 1 || g == 3 || g == 0xf || g == 0xff || g == 0xffff || g == 0xffff_ffff || g
                == 0xffff_ffff_ffff_ffff,
    ;
}

/// Two joined elements add half by half.
proof fn lemma_joined_sum(level: nat, a: u64, b: u64, c: u64, d: u64)
    requires
        0 < level <= TOP_LEVEL,
    ensures
        joined(level, a, b) ^ joined(level, c, d) == joined(level, a ^ c, b ^ d),
{
    let h = half_bits(level);
    assert((a ^ (b << h)) ^ (c ^ (d << h)) == (a ^ c) ^ ((b ^ d) << h)) by (bit_vector);
}

/// The generator, its halves, and the halves of 0 and 1.
proof fn lemma_generator(level: nat)
    requires
        level <= TOP_LEVEL,
    ensures
        element(level, generator(level)),
        level > 0 ==> lower(level, generator(level)) == 0 && upper(level, generator(level)) == 1,
        level > 0 ==> lower(level, 1) == 1 && upper(level, 1) == 0,
        level > 0 ==> lower(level, 0) == 0 && upper(level, 0) == 0,
        level > 0 ==> joined(level, 1, 0) == 1 && joined(level, 0, 0) == 0,
{
    if level > 0 {
        lemma_halves(level, 0, 1);
        lemma_halves(level, 1, 0);
        lemma_halves(level, 0, 0);
        let h = half_bits(level);
        assert(0u64 ^ (1u64 << h) == 1u64 << h && 1u64 ^ (0u64 << h) == 1u64 && 0u64 ^ (0u64 << h)
            == 0u64) by (bit_vector);
    }
}

/// Products stay in the field.
pub proof fn lemma_product_element(level: nat, a: u64, b: u64)
    requires
        level <= TOP_LEVEL,
        element(level, a),
        element(level, b),
    ensures
        element(level, product(level, a, b)),
    decreases level,
{
    if level == 0 {
        lemma_bits(a, b, 0);
    } else {
        let below = (level - 1) as nat;
        let (a0, a1) = (lower(level, a), upper(level, a));
        let (b0, b1) = (lower(level, b), upper(level, b));
        lemma_halves(level, a, b);
        lemma_halves(level, b, a);
        lemma_generator(below);
        lemma_product_element(below, a0, b0);
        lemma_product_element(below, a0, b1);
        lemma_product_element(below, a1, b0);
        lemma_product_element(below, a1, b1);
        let both = product(below, a1, b1);
        lemma_product_element(below, generator(below), both);
        let low = product(below, a0, b0) ^ both;
        let cross = product(below, a0, b1) ^ product(below, a1, b0);
        lemma_sum_element(below, product(below, a0, b0), both);
        lemma_sum_element(below, product(below, a0, b1), product(below, a1, b0));
        lemma_sum_element(below, cross, product(below, generator(below), both));
        lemma_halves(level, low, cross ^ product(below, generator(below), both));
    }
}

/// The halves of a product.
proof fn lemma_product_halves(level: nat, a: u64, b: u64)
    requires
        0 < level <= TOP_LEVEL,
        element(level, a),
        element(level, b),
    ensures
        ({
            let below = (level - 1) as nat;
            let (a0, a1) = (lower(level, a), upper(level, a));
            let (b0, b1) = (lower(level, b), upper(level, b));
            let both = product(below, a1, b1);
            &&& lower(level, product(level, a, b)) == product(below, a0, b0) ^ both
            &&& upper(level, product(level, a, b)) == (product(below, a0, b1) ^ product(
                below,
                a1,
                b0,
            )) ^ product(below, generator(below), both)
        }),
{
    let below = (level - 1) as nat;
    let (a0, a1) = (lower(level, a), upper(level, a));
    let (b0, b1) = (lower(level, b), upper(level, b));
    lemma_halves(level, a, b);
    lemma_halves(level, b, a);
    lemma_generator(below);
    lemma_product_element(below, a0, b0);
    lemma_product_element(below, a0, b1);
    lemma_product_element(below, a1, b0);
    lemma_product_element(below, a1, b1);
    let both = product(below, a1, b1);
    lemma_product_element(below, generator(below), both);
    let low = product(below, a0, b0) ^ both;
    let cross = product(below, a0, b1) ^ product(below, a1, b0);
    lemma_sum_element(below, product(below, a0, b0), both);
    lemma_sum_element(below, product(below, a0, b1), product(below, a1, b0));
    lemma_sum_element(below, cross, product(below, generator(below), both));
    lemma_halves(level, low, cross ^ product(below, generator(below), both));
}

/// Factors can change places.
pub proof fn lemma_commutes(level: nat, a: u64, b: u64)
    requires
        level <= TOP_LEVEL,
    ensures
        product(level, a, b) == product(level, b, a),
    decreases level,
{
    if level == 0 {
        lemma_bits(a, b, 0);
    } else {
        let below = (level - 1) as nat;
        let (a0, a1) = (lower(level, a), upper(level, a));
        let (b0, b1) = (lower(level, b), upper(level, b));
        lemma_commutes(below, a0, b0);
        lemma_commutes(below, a0, b1);
        lemma_commutes(below, a1, b0);
        lemma_commutes(below, a1, b1);
        lemma_sum(product(below, a0, b1), product(below, a1, b0), 0);
    }
}

/// A product with a sum is the sum of the products.
pub proof fn lemma_distributes(level: nat, a: u64, b: u64, c: u64)
    requires
        level <= TOP_LEVEL,
    ensures
        product(level, a, b ^ c) == product(level, a, b) ^ product(level, a, c),
    decreases level,
{
    if level == 0 {
        lemma_bits(a, b, c);
    } else {
        let below = (level - 1) as nat;
        let g = generator(below);
        let (a0, a1) = (lower(level, a), upper(level, a));
        let (b0, b1) = (lower(level, b), upper(level, b));
        let (c0, c1) = (lower(level, c), upper(level, c));
        lemma_halves(level, b, c);
        lemma_distributes(below, a0, b0, c0);
        lemma_distributes(below, a0, b1, c1);
        lemma_distributes(below, a1, b0, c0);
        lemma_distributes(below, a1, b1, c1);
        let (bb, bc) = (product(below, a1, b1), product(below, a1, c1));
        lemma_distributes(below, g, bb, bc);
        lemma_cross(product(below, a0, b0), product(below, a0, c0), bb, bc);
        let (p, q) = (product(below, a0, b1), product(below, a0, c1));
        let (r, s) = (product(below, a1, b0), product(below, a1, c0));
        lemma_cross(p, q, r, s);
        lemma_cross(p ^ r, q ^ s, product(below, g, bb), product(below, g, bc));
        lemma_joined_sum(
            level,
            product(below, a0, b0) ^ bb,
            (p ^ r) ^ product(below, g, bb),
            product(below, a0, c0) ^ bc,
            (q ^ s) ^ product(below, g, bc),
        );
    }
}

/// The same with the sum on the left.
pub proof fn lemma_distributes_left(level: nat, a: u64, b: u64, c: u64)
    requires
        level <= TOP_LEVEL,
    ensures
        product(level, a ^ b, c) == product(level, a, c) ^ product(level, b, c),
{
    lemma_commutes(level, a ^ b, c);
    lemma_commutes(level, a, c);
    lemma_commutes(level, b, c);
    lemma_distributes(level, c, a, b);
}

/// A product with 0 is 0.
pub proof fn lemma_zero(level: nat, a: u64)
    requires
        level <= TOP_LEVEL,
    ensures
        product(level, a, 0) == 0,
        product(level, 0, a) == 0,
{
    lemma_sum(0, 0, 0);
    lemma_distributes(level, a, 0, 0);
    lemma_sum(product(level, a, 0), 0, 0);
    lemma_commutes(level, a, 0);
}

/// A product with 1 is the other factor.
pub proof fn lemma_one(level: nat, a: u64)
    requires
        level <= TOP_LEVEL,
        element(level, a),
    ensures
        product(level, a, 1) == a,
        product(level, 1, a) == a,
    decreases level,
{
    lemma_commutes(level, a, 1);
    if level == 0 {
        lemma_bits(a, 1, 0);
    } else {
        let below = (level - 1) as nat;
        let (a0, a1) = (lower(level, a), upper(level, a));
        lemma_generator(level);
        lemma_halves(level, a, 0);
        lemma_one(below, a0);
        lemma_one(below, a1);
        lemma_zero(below, a0);
        lemma_zero(below, a1);
        lemma_zero(below, generator(below));
        lemma_sum(a0, 0, 0);
        lemma_sum(a1, 0, 0);
    }
}

/// The product of three halves.
spec fn triple(level: nat, a: u64, b: u64, c: u64) -> u64 {
    product(level, product(level, a, b), c)
}

/// The lower half of a product of three, over the products of their halves.
spec fn triple_low(g: u64, level: nat, t: spec_fn(int, int, int) -> u64) -> u64 {
    ((t(0, 0, 0) ^ t(1, 1, 0)) ^ (t(0, 1, 1) ^ t(1, 0, 1))) ^ product(level, g, t(1, 1, 1))
}

/// The upper half of a product of three, over the products of their halves.
spec fn triple_high(g: u64, level: nat, t: spec_fn(int, int, int) -> u64) -> u64 {
    (((t(0, 0, 1) ^ t(1, 1, 1)) ^ (t(0, 1, 0) ^ t(1, 0, 0))) ^ product(level, g, t(1, 1, 0)))
        ^ product(level, g, (t(0, 1, 1) ^ t(1, 0, 1)) ^ product(level, g, t(1, 1, 1)))
}

spec fn half_of(level: nat, a: u64, which: int) -> u64 {
    if which == 0 {
        lower(level, a)
    } else {
        upper(level, a)
    }
}

/// A product of three, over the products of their halves.
proof fn lemma_triple(level: nat, a: u64, b: u64, c: u64)
    requires
        0 < level <= TOP_LEVEL,
        element(level, a),
        element(level, b),
        element(level, c),
        forall|x: u64, y: u64, z: u64|
            element((level - 1) as nat, x) && element((level - 1) as nat, y) && element(
                (level - 1) as nat,
                z,
            ) ==> #[trigger] product((level - 1) as nat, product((level - 1) as nat, x, y), z)
                == product((level - 1) as nat, x, product((level - 1) as nat, y, z)),
    ensures
        ({
            let below = (level - 1) as nat;
            let t = |i: int, j: int, k: int|
                triple(below, half_of(level, a, i), half_of(level, b, j), half_of(level, c, k));
            product(level, product(level, a, b), c) == joined(
                level,
                triple_low(generator(below), below, t),
                triple_high(generator(below), below, t),
            )
        }),
{
    let below = (level - 1) as nat;
    let g = generator(below);
    let (a0, a1) = (lower(level, a), upper(level, a));
    let (b0, b1) = (lower(level, b), upper(level, b));
    let (c0, c1) = (lower(level, c), upper(level, c));
    lemma_halves(level, a, b);
    lemma_halves(level, b, c);
    lemma_halves(level, c, a);
    lemma_generator(below);
    let ab = product(level, a, b);
    lemma_product_element(level, a, b);
    lemma_product_halves(level, a, b);
    lemma_product_element(below, a1, b1);
    let p00 = product(below, a0, b0);
    let p01 = product(below, a0, b1);
    let p10 = product(below, a1, b0);
    let p11 = product(below, a1, b1);
    let gp = product(below, g, p11);
    let t111 = product(below, p11, c1);
    // (ab)_0 c_0 and (ab)_0 c_1
    lemma_distributes_left(below, p00, p11, c0);
    lemma_distributes_left(below, p00, p11, c1);
    // (ab)_1 c_0 and (ab)_1 c_1
    lemma_distributes_left(below, p01 ^ p10, gp, c0);
    lemma_distributes_left(below, p01, p10, c0);
    lemma_distributes_left(below, p01 ^ p10, gp, c1);
    lemma_distributes_left(below, p01, p10, c1);
    assert(product(below, gp, c0) == product(below, g, product(below, p11, c0)));
    assert(product(below, gp, c1) == product(below, g, t111));
    let u = (product(below, p01, c1) ^ product(below, p10, c1)) ^ product(below, g, t111);
    assert(product(below, upper(level, ab), c1) == u);
    let t000 = product(below, p00, c0);
    let t110 = product(below, p11, c0);
    let t011 = product(below, p01, c1);
    let t101 = product(below, p10, c1);
    let gt = product(below, g, t111);
    assert((t000 ^ t110) ^ ((t011 ^ t101) ^ gt) == ((t000 ^ t110) ^ (t011 ^ t101)) ^ gt) by {
        lemma_sum(t000 ^ t110, t011 ^ t101, gt);
    }
    let t001 = product(below, p00, c1);
    let t010 = product(below, p01, c0);
    let t100 = product(below, p10, c0);
    let g110 = product(below, g, t110);
    lemma_sum(t001 ^ t111, t010 ^ t100, g110);
    let t = |i: int, j: int, k: int|
        triple(below, half_of(level, a, i), half_of(level, b, j), half_of(level, c, k));
    assert(t(0, 0, 0) == t000 && t(1, 1, 0) == t110 && t(0, 1, 1) == t011 && t(1, 0, 1) == t101);
    assert(t(0, 0, 1) == t001 && t(0, 1, 0) == t010 && t(1, 0, 0) == t100 && t(1, 1, 1) == t111);
}

/// Three factors can be grouped either way.
pub proof fn lemma_associates(level: nat, a: u64, b: u64, c: u64)
    requires
        level <= TOP_LEVEL,
        element(level, a),
        element(level, b),
        element(level, c),
    ensures
        product(level, product(level, a, b), c) == product(level, a, product(level, b, c)),
    decreases level,
{
    if level == 0 {
        lemma_bits(a, b, c);
    } else {
        let below = (level - 1) as nat;
        assert forall|x: u64, y: u64, z: u64|
            element(below, x) && element(below, y) && element(below, z) implies #[trigger] product(
            below,
            product(below, x, y),
            z,
        ) == product(below, x, product(below, y, z)) by {
            lemma_associates(below, x, y, z);
        }
        lemma_triple(level, a, b, c);
        lemma_triple(level, c, b, a);
        lemma_commutes(level, a, product(level, b, c));
        lemma_commutes(level, b, c);
        lemma_halves(level, a, b);
        lemma_halves(level, b, c);
        lemma_halves(level, c, a);
        let t = |i: int, j: int, k: int|
            triple(below, half_of(level, a, i), half_of(level, b, j), half_of(level, c, k));
        let s = |i: int, j: int, k: int|
            triple(below, half_of(level, c, i), half_of(level, b, j), half_of(level, a, k));
        assert forall|i: int, j: int, k: int| #[trigger] t(i, j, k) == s(k, j, i) by {
            let x = half_of(level, a, i);
            let y = half_of(level, b, j);
            let z = half_of(level, c, k);
            lemma_commutes(below, z, y);
            lemma_commutes(below, product(below, z, y), x);
            assert(product(below, product(below, x, y), z) == product(below, x, product(below, y, z)));
        }
        let g = generator(below);
        assert(t(0, 0, 0) == s(0, 0, 0) && t(1, 1, 0) == s(0, 1, 1) && t(0, 1, 1) == s(1, 1, 0) && t(
            1,
            0,
            1,
        ) == s(1, 0, 1) && t(1, 1, 1) == s(1, 1, 1));
        assert(t(0, 0, 1) == s(1, 0, 0) && t(0, 1, 0) == s(0, 1, 0) && t(1, 0, 0) == s(0, 0, 1));
        let (t000, t110, t011, t101) = (t(0, 0, 0), t(1, 1, 0), t(0, 1, 1), t(1, 0, 1));
        let (t001, t010, t100, t111) = (t(0, 0, 1), t(0, 1, 0), t(1, 0, 0), t(1, 1, 1));
        let gt = product(below, g, t111);
        // lower halves
        lemma_cross(t000, t110, t011, t101);
        assert(triple_low(g, below, t) == triple_low(g, below, s));
        // upper halves
        lemma_distributes(below, g, t011 ^ t101, gt);
        lemma_distributes(below, g, t011, t101);
        lemma_distributes(below, g, t110 ^ t101, gt);
        lemma_distributes(below, g, t110, t101);
        lemma_swap_upper(
            t001,
            t010,
            t100,
            t111,
            product(below, g, t110),
            product(below, g, t011),
            product(below, g, t101),
            product(below, g, gt),
        );
        assert(triple_high(g, below, t) == triple_high(g, below, s));
    }
}

proof fn lemma_swap_upper(a: u64, b: u64, c: u64, d: u64, e: u64, f: u64, g: u64, h: u64)
    ensures
        (((a ^ d) ^ (b ^ c)) ^ e) ^ ((f ^ g) ^ h) == (((c ^ d) ^ (b ^ a)) ^ f) ^ ((e ^ g) ^ h),
{
    assert((((a ^ d) ^ (b ^ c)) ^ e) ^ ((f ^ g) ^ h) == (((c ^ d) ^ (b ^ a)) ^ f) ^ ((e ^ g) ^ h))
        by (bit_vector);
}

/// The trace of an element: the sum of its conjugates over the field of 0 and 1.
spec fn trace(level: nat, a: u64) -> bool
    decreases level,
{
    if level == 0 {
        a == 1
    } else {
        let below = (level - 1) as nat;
        trace(below, product(below, generator(below), upper(level, a)))
    }
}

proof fn lemma_trace_sum(level: nat, a: u64, b: u64)
    requires
        level <= TOP_LEVEL,
        element(level, a),
        element(level, b),
    ensures
        trace(level, a ^ b) == (trace(level, a) != trace(level, b)),
    decreases level,
{
    if level == 0 {
        lemma_bits(a, b, 0);
    } else {
        let below = (level - 1) as nat;
        let g = generator(below);
        lemma_halves(level, a, b);
        lemma_halves(level, b, a);
        lemma_generator(below);
        lemma_product_element(below, g, upper(level, a));
        lemma_product_element(below, g, upper(level, b));
        lemma_distributes(below, g, upper(level, a), upper(level, b));
        lemma_trace_sum(
            below,
            product(below, g, upper(level, a)),
            product(below, g, upper(level, b)),
        );
    }
}

/// The square of a product is the product of the squares.
pub proof fn lemma_square_of_product(level: nat, a: u64, b: u64)
    requires
        level <= TOP_LEVEL,
        element(level, a),
        element(level, b),
    ensures
        product(level, product(level, a, b), product(level, a, b)) == product(
            level,
            product(level, a, a),
            product(level, b, b),
        ),
{
    lemma_product_element(level, a, b);
    lemma_product_element(level, b, b);
    let ab = product(level, a, b);
    lemma_associates(level, a, b, ab);
    lemma_commutes(level, a, b);
    lemma_associates(level, b, b, a);
    lemma_commutes(level, product(level, b, b), a);
    assert(product(level, b, product(level, b, a)) == product(level, a, product(level, b, b)));
    lemma_associates(level, a, a, product(level, b, b));
}

proof fn lemma_trace_square(level: nat, a: u64)
    requires
        level <= TOP_LEVEL,
        element(level, a),
    ensures
        trace(level, product(level, a, a)) == trace(level, a),
    decreases level,
{
    if level == 0 {
        lemma_bits(a, a, a);
    } else {
        let below = (level - 1) as nat;
        let g = generator(below);
        let (a0, a1) = (lower(level, a), upper(level, a));
        lemma_halves(level, a, a);
        lemma_generator(below);
        lemma_product_halves(level, a, a);
        lemma_commutes(below, a0, a1);
        let both = product(below, a1, a1);
        lemma_sum(product(below, a0, a1), product(below, a0, a1), 0);
        lemma_sum(product(below, g, both), 0, 0);
        assert(upper(level, product(level, a, a)) == product(below, g, both));
        lemma_product_element(below, a1, a1);
        lemma_product_element(below, g, a1);
        lemma_associates(below, g, g, both);
        lemma_square_of_product(below, g, a1);
        lemma_trace_square(below, product(below, g, a1));
    }
}

/// The inverse of the generator.
spec fn generator_inverse(level: nat) -> u64 {
    if level == 0 {
        1
    } else {
        joined(level, generator((level - 1) as nat), 1)
    }
}

/// The generator and its inverse have the trace 1.
proof fn lemma_generator_trace(level: nat)
    requires
        level <= TOP_LEVEL,
    ensures
        trace(level, generator(level)),
        element(level, generator_inverse(level)),
        trace(level, generator_inverse(level)),
        product(level, generator(level), generator_inverse(level)) == 1,
    decreases level,
{
    lemma_generator(level);
    if level == 0 {
        lemma_bits(1, 1, 1);
    } else {
        let below = (level - 1) as nat;
        let g = generator(below);
        lemma_generator(below);
        lemma_generator_trace(below);
        assert(element(below, 1));
        lemma_halves(level, g, 1);
        lemma_one(below, g);
        lemma_one(below, 1);
        lemma_zero(below, g);
        lemma_zero(below, 1);
        lemma_sum(1, 1, 1);
        lemma_sum(g, g, g);
    }
}

/// A product of elements other than 0 is not 0, where one of them has an inverse.
pub proof fn lemma_no_divisors(level: nat, a: u64, b: u64)
    requires
        level <= TOP_LEVEL,
        element(level, a),
        element(level, b),
        element(level, inverse(level, a)),
        product(level, a, inverse(level, a)) == 1,
        product(level, a, b) == 0,
    ensures
        b == 0,
{
    let i = inverse(level, a);
    lemma_commutes(level, a, i);
    lemma_associates(level, i, a, b);
    lemma_zero(level, i);
    lemma_one(level, b);
}

/// The equation that defines the next level has no root at this one.
proof fn lemma_no_root(level: nat, r: u64)
    requires
        level <= TOP_LEVEL,
        element(level, r),
    ensures
        (product(level, r, r) ^ product(level, generator(level), r)) ^ 1 != 0,
{
    let g = generator(level);
    let y = generator_inverse(level);
    lemma_generator(level);
    lemma_generator_trace(level);
    let square = product(level, r, r);
    let linear = product(level, g, r);
    if (square ^ linear) ^ 1 == 0 {
        assert(element(level, 1));
        lemma_product_element(level, r, r);
        lemma_product_element(level, g, r);
        lemma_product_element(level, y, y);
        lemma_product_element(level, y, r);
        let yy = product(level, y, y);
        let s = product(level, y, r);
        // yy * (square + linear + 1) = s * s + s + yy
        lemma_zero(level, yy);
        lemma_distributes(level, yy, square ^ linear, 1);
        lemma_distributes(level, yy, square, linear);
        lemma_one(level, yy);
        lemma_square_of_product(level, y, r);
        lemma_associates(level, y, y, linear);
        lemma_associates(level, y, g, r);
        lemma_commutes(level, y, g);
        lemma_one(level, r);
        assert(product(level, yy, linear) == s);
        let ss = product(level, s, s);
        assert((ss ^ s) ^ yy == 0);
        lemma_product_element(level, s, s);
        lemma_sum(ss ^ s, yy, 0);
        lemma_trace_sum(level, ss, s);
        lemma_trace_square(level, s);
        lemma_trace_square(level, y);
    }
}

/// Only 0 has the norm 0.
proof fn lemma_norm(level: nat, a: u64)
    requires
        0 < level <= TOP_LEVEL,
        element(level, a),
        a != 0,
        forall|x: u64|
            element((level - 1) as nat, x) && x != 0 ==> element(
                (level - 1) as nat,
                #[trigger] inverse((level - 1) as nat, x),
            ) && product((level - 1) as nat, x, inverse((level - 1) as nat, x)) == 1,
    ensures
        element((level - 1) as nat, norm(level, a)),
        element((level - 1) as nat, conjugate(level, a)),
        norm(level, a) != 0,
{
    let below = (level - 1) as nat;
    let g = generator(below);
    let (a0, a1) = (lower(level, a), upper(level, a));
    lemma_halves(level, a, a);
    lemma_generator(below);
    lemma_generator(level);
    let ga = product(below, g, a1);
    let c = conjugate(level, a);
    lemma_product_element(below, g, a1);
    lemma_sum_element(below, a0, ga);
    lemma_product_element(below, a0, c);
    lemma_product_element(below, a1, a1);
    lemma_sum_element(below, product(below, a0, c), product(below, a1, a1));
    if a1 == 0 {
        lemma_zero(below, g);
        lemma_zero(below, 0);
        lemma_sum(a0, 0, 0);
        lemma_sum(product(below, a0, a0), 0, 0);
        assert(a0 != 0);
        let i = inverse(below, a0);
        if norm(level, a) == 0 {
            lemma_no_divisors(below, a0, a0);
        }
    } else {
        let i = inverse(below, a1);
        assert(element(below, i) && product(below, a1, i) == 1);
        let r = product(below, a0, i);
        lemma_product_element(below, a0, i);
        lemma_product_element(below, i, i);
        let ii = product(below, i, i);
        // norm * i * i = r * r + g * r + 1
        let n = norm(level, a);
        let square = product(below, a0, a0);
        let mixed = product(below, a0, ga);
        let top = product(below, a1, a1);
        lemma_product_element(below, a0, a0);
        lemma_product_element(below, a0, ga);
        lemma_distributes(below, a0, a0, ga);
        assert(n == (square ^ mixed) ^ top);
        lemma_distributes_left(below, square ^ mixed, top, ii);
        lemma_distributes_left(below, square, mixed, ii);
        lemma_square_of_product(below, a0, i);
        lemma_square_of_product(below, a1, i);
        lemma_one(below, 1);
        assert(product(below, top, ii) == 1);
        assert(product(below, square, ii) == product(below, r, r));
        // a0 * (g * a1) * (i * i) = g * (a0 * i)
        lemma_commutes(below, a0, ga);
        lemma_associates(below, ga, a0, ii);
        lemma_associates(below, a0, i, i);
        assert(product(below, mixed, ii) == product(below, ga, product(below, r, i)));
        lemma_commutes(below, r, i);
        lemma_associates(below, ga, i, r);
        lemma_associates(below, g, a1, i);
        lemma_one(below, g);
        assert(product(below, mixed, ii) == product(below, g, r));
        lemma_no_root(below, r);
        lemma_zero(below, ii);
    }
}

/// An element other than 0 has an inverse.
pub proof fn lemma_inverse(level: nat, a: u64)
    requires
        level <= TOP_LEVEL,
        element(level, a),
        a != 0,
    ensures
        element(level, inverse(level, a)),
        product(level, a, inverse(level, a)) == 1,
        product(level, inverse(level, a), a) == 1,
    decreases level,
{
    lemma_commutes(level, a, inverse(level, a));
    if level == 0 {
        lemma_bits(1, 1, 1);
    } else {
        let below = (level - 1) as nat;
        let g = generator(below);
        assert forall|x: u64| element(below, x) && x != 0 implies element(
            below,
            #[trigger] inverse(below, x),
        ) && product(below, x, inverse(below, x)) == 1 by {
            lemma_inverse(below, x);
        }
        lemma_norm(level, a);
        let (a0, a1) = (lower(level, a), upper(level, a));
        lemma_halves(level, a, a);
        lemma_generator(below);
        lemma_generator(level);
        let c = conjugate(level, a);
        let n = norm(level, a);
        let i = inverse(below, n);
        assert(element(below, i) && product(below, n, i) == 1);
        let (low, high) = (product(below, c, i), product(below, a1, i));
        lemma_product_element(below, c, i);
        lemma_product_element(below, a1, i);
        lemma_halves(level, low, high);
        let b = inverse(level, a);
        assert(lower(level, b) == low && upper(level, b) == high);
        // lower half: norm * i
        lemma_associates(below, a0, c, i);
        lemma_associates(below, a1, a1, i);
        lemma_product_element(below, a0, c);
        lemma_product_element(below, a1, a1);
        lemma_distributes_left(below, product(below, a0, c), product(below, a1, a1), i);
        // upper half: 0 * i
        let both = product(below, a1, a1);
        let gb = product(below, g, both);
        lemma_associates(below, a0, a1, i);
        lemma_associates(below, a1, c, i);
        lemma_associates(below, g, both, i);
        let p = product(below, a0, a1);
        let q = product(below, a1, c);
        lemma_distributes_left(below, p, q, i);
        lemma_distributes_left(below, p ^ q, gb, i);
        let ga = product(below, g, a1);
        lemma_product_element(below, g, a1);
        lemma_distributes(below, a1, a0, ga);
        lemma_commutes(below, a1, a0);
        lemma_commutes(below, a1, ga);
        lemma_associates(below, g, a1, a1);
        assert(q == p ^ gb);
        lemma_sum(p, p, gb);
        lemma_sum(gb, gb, gb);
        lemma_zero(below, i);
        assert((p ^ q) ^ gb == 0);
    }
}

/// The conjugate of an element.
spec fn mirrored(level: nat, a: u64) -> u64 {
    joined(level, conjugate(level, a), upper(level, a))
}

/// The conjugate's halves, and the product of an element with its conjugate.
proof fn lemma_mirrored(level: nat, a: u64)
    requires
        0 < level <= TOP_LEVEL,
        element(level, a),
    ensures
        element((level - 1) as nat, conjugate(level, a)),
        element((level - 1) as nat, norm(level, a)),
        element(level, mirrored(level, a)),
        lower(level, mirrored(level, a)) == conjugate(level, a),
        upper(level, mirrored(level, a)) == upper(level, a),
        product(level, a, mirrored(level, a)) == joined(level, norm(level, a), 0),
{
    let below = (level - 1) as nat;
    let g = generator(below);
    let (a0, a1) = (lower(level, a), upper(level, a));
    lemma_halves(level, a, a);
    lemma_generator(below);
    let ga = product(below, g, a1);
    let c = conjugate(level, a);
    lemma_product_element(below, g, a1);
    lemma_sum_element(below, a0, ga);
    lemma_product_element(below, a0, c);
    lemma_product_element(below, a1, a1);
    lemma_sum_element(below, product(below, a0, c), product(below, a1, a1));
    lemma_halves(level, c, a1);
    let p = product(below, a0, a1);
    let q = product(below, a1, c);
    let gb = product(below, g, product(below, a1, a1));
    lemma_distributes(below, a1, a0, ga);
    lemma_commutes(below, a1, a0);
    lemma_commutes(below, a1, ga);
    lemma_associates(below, g, a1, a1);
    assert(q == p ^ gb);
    lemma_sum(p, p, gb);
    lemma_sum(gb, gb, gb);
    assert((p ^ q) ^ gb == 0);
}

/// The conjugate of a product is the product of the conjugates.
proof fn lemma_mirrored_product(level: nat, a: u64, b: u64)
    requires
        0 < level <= TOP_LEVEL,
        element(level, a),
        element(level, b),
    ensures
        mirrored(level, product(level, a, b)) == product(
            level,
            mirrored(level, a),
            mirrored(level, b),
        ),
{
    let below = (level - 1) as nat;
    let g = generator(below);
    let (a0, a1) = (lower(level, a), upper(level, a));
    let (b0, b1) = (lower(level, b), upper(level, b));
    lemma_halves(level, a, b);
    lemma_halves(level, b, a);
    lemma_generator(below);
    lemma_mirrored(level, a);
    lemma_mirrored(level, b);
    lemma_product_halves(level, a, b);
    let (ga, gb) = (product(below, g, a1), product(below, g, b1));
    let (ca, cb) = (a0 ^ ga, b0 ^ gb);
    lemma_product_element(below, g, a1);
    lemma_product_element(below, g, b1);
    let t00 = product(below, a0, b0);
    let t01 = product(below, a0, b1);
    let t10 = product(below, a1, b0);
    let t11 = product(below, a1, b1);
    lemma_product_element(below, a1, b1);
    let g01 = product(below, g, t01);
    let g10 = product(below, g, t10);
    let g11 = product(below, g, t11);
    // the products with a generator
    lemma_associates(below, g, a1, b1);
    lemma_associates(below, g, a1, b0);
    lemma_commutes(below, a1, gb);
    lemma_associates(below, g, b1, a1);
    lemma_commutes(below, b1, a1);
    lemma_commutes(below, a0, gb);
    lemma_associates(below, g, b1, a0);
    lemma_commutes(below, b1, a0);
    assert(product(below, ga, b1) == g11);
    assert(product(below, a1, gb) == g11);
    assert(product(below, ga, b0) == g10);
    assert(product(below, a0, gb) == g01);
    // upper half
    lemma_distributes_left(below, a0, ga, b1);
    lemma_distributes(below, a1, b0, gb);
    // lower half
    lemma_distributes_left(below, a0, ga, cb);
    lemma_distributes(below, a0, b0, gb);
    lemma_distributes(below, ga, b0, gb);
    let ggb = product(below, ga, gb);
    lemma_associates(below, g, a1, gb);
    assert(ggb == product(below, g, g11));
    lemma_distributes(below, g, t01 ^ t10, g11);
    lemma_distributes(below, g, t01, t10);
    lemma_mirror_sums(t00, t11, t01, t10, g01, g10, g11, ggb);
}

proof fn lemma_mirror_sums(a: u64, b: u64, c: u64, d: u64, e: u64, f: u64, g: u64, h: u64)
    ensures
        ((c ^ g) ^ (d ^ g)) ^ g == (c ^ d) ^ g,
        (a ^ b) ^ ((e ^ f) ^ h) == ((a ^ e) ^ (f ^ h)) ^ b,
{
    assert(((c ^ g) ^ (d ^ g)) ^ g == (c ^ d) ^ g && (a ^ b) ^ ((e ^ f) ^ h) == ((a ^ e) ^ (f ^ h))
        ^ b) by (bit_vector);
}

/// The norm of a product is the product of the norms.
pub proof fn lemma_norm_of_product(level: nat, a: u64, b: u64)
    requires
        0 < level <= TOP_LEVEL,
        element(level, a),
        element(level, b),
    ensures
        element((level - 1) as nat, norm(level, a)),
        norm(level, product(level, a, b)) == product(
            (level - 1) as nat,
            norm(level, a),
            norm(level, b),
        ),
{
    let below = (level - 1) as nat;
    let ab = product(level, a, b);
    let (ma, mb) = (mirrored(level, a), mirrored(level, b));
    lemma_product_element(level, a, b);
    lemma_mirrored(level, a);
    lemma_mirrored(level, b);
    lemma_mirrored(level, ab);
    lemma_mirrored_product(level, a, b);
    // (a b) (ma mb) = (a ma) (b mb)
    lemma_product_element(level, ma, mb);
    lemma_product_element(level, b, mb);
    lemma_associates(level, a, b, product(level, ma, mb));
    lemma_associates(level, b, ma, mb);
    lemma_commutes(level, b, ma);
    lemma_associates(level, ma, b, mb);
    lemma_associates(level, a, ma, product(level, b, mb));
    let (na, nb) = (norm(level, a), norm(level, b));
    assert(joined(level, norm(level, ab), 0) == product(
        level,
        joined(level, na, 0),
        joined(level, nb, 0),
    ));
    lemma_halves(level, na, 0);
    lemma_halves(level, nb, 0);
    lemma_halves(level, norm(level, ab), 0);
    lemma_product_halves(level, joined(level, na, 0), joined(level, nb, 0));
    lemma_zero(below, 0);
    lemma_sum(product(below, na, nb), 0, 0);
}

/// The norm of an element of the level below is its square.
pub proof fn lemma_norm_below(level: nat, a: u64)
    requires
        0 < level <= TOP_LEVEL,
        element((level - 1) as nat, a),
    ensures
        element(level, a),
        norm(level, a) == product((level - 1) as nat, a, a),
{
    let below = (level - 1) as nat;
    lemma_halves(level, a, 0);
    assert(joined(level, a, 0) == a);
    lemma_zero(below, generator(below));
    lemma_zero(below, 0);
    lemma_sum(a, 0, 0);
    lemma_sum(product(below, a, a), 0, 0);
}

/// The greatest element of the field at a level below another.
fn greatest_below(level: u8) -> (number: u64)
    requires
        0 < level <= TOP_LEVEL,
    ensures
        number == greatest((level - 1) as nat),
{
    match level {
        1 => 1,
        2 => 3,
        3 => 0xf,
        4 => 0xff,
        5 => 0xffff,
        _ => 0xffff_ffff,
    }
}

/// The number of bits in each half of an element.
fn bits_of_half(level: u8) -> (bits: u64)
    requires
        0 < level <= TOP_LEVEL,
    ensures
        bits == half_bits(level as nat),
{
    match level {
        1 => 1,
        2 => 2,
        3 => 4,
        4 => 8,
        5 => 16,
        _ => 32,
    }
}

/// The element that the next level's equation is made with.
fn generator_at(level: u8) -> (number: u64)
    requires
        level <= TOP_LEVEL,
    ensures
        number == generator(level as nat),
{
    if level == 0 {
        1
    } else {
        let bits: u64 = bits_of_half(level);
        assert(bits < 64);
        1u64 << bits
    }
}

/// The product of two elements.
pub fn multiply(level: u8, a: u64, b: u64) -> (result: u64)
    requires
        level <= TOP_LEVEL,
    ensures
        result == product(level as nat, a, b),
    decreases level,
{
    if level == 0 {
        a & b
    } else {
        let bits: u64 = bits_of_half(level);
        let mask: u64 = greatest_below(level);
        assert(bits < 64);
        let below: u8 = level - 1;
        let (a0, a1): (u64, u64) = (a & mask, a >> bits);
        let (b0, b1): (u64, u64) = (b & mask, b >> bits);
        let both: u64 = multiply(below, a1, b1);
        let low: u64 = multiply(below, a0, b0) ^ both;
        let cross: u64 = multiply(below, a0, b1) ^ multiply(below, a1, b0);
        let high: u64 = cross ^ multiply(below, generator_at(below), both);
        low ^ (high << bits)
    }
}

/// The inverse of an element.
pub fn invert(level: u8, a: u64) -> (result: u64)
    requires
        level <= TOP_LEVEL,
    ensures
        result == inverse(level as nat, a),
    decreases level,
{
    if level == 0 {
        a
    } else {
        let bits: u64 = bits_of_half(level);
        let mask: u64 = greatest_below(level);
        assert(bits < 64);
        let below: u8 = level - 1;
        let (a0, a1): (u64, u64) = (a & mask, a >> bits);
        let mirrored: u64 = a0 ^ multiply(below, generator_at(below), a1);
        let size: u64 = multiply(below, a0, mirrored) ^ multiply(below, a1, a1);
        let scale: u64 = invert(below, size);
        let low: u64 = multiply(below, mirrored, scale);
        let high: u64 = multiply(below, a1, scale);
        low ^ (high << bits)
    }
}

} // verus!
