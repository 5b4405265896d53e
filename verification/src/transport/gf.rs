//! The fields that symbols of one, two, three, four and eight bytes are elements of.

use vstd::prelude::*;

use crate::transport::cubic::{
    cubic_inverse, cubic_invert, cubic_multiply, cubic_product, lemma_cubic_associates,
    lemma_cubic_commutes, lemma_cubic_distributes, lemma_cubic_inverse, lemma_cubic_one,
    lemma_cubic_product_element,
};
use crate::transport::field;

verus! {

/// Whether there is a field for symbols of a width.
pub open spec fn proper_width(width: nat) -> bool {
    width == 1 || width == 2 || width == 3 || width == 4 || width == 8
}

/// The level of the tower of fields for a width other than three.
pub open spec fn level_of(width: nat) -> nat {
    if width == 1 {
        3
    } else if width == 2 {
        4
    } else if width == 4 {
        5
    } else {
        6
    }
}

/// The greatest element of the field of a width.
pub open spec fn greatest(width: nat) -> u64 {
    if width == 1 {
        0xff
    } else if width == 2 {
        0xffff
    } else if width == 3 {
        0xff_ffff
    } else if width == 4 {
        0xffff_ffff
    } else {
        u64::MAX
    }
}

/// Whether a number is an element of the field of a width.
pub open spec fn element(width: nat, a: u64) -> bool {
    a <= greatest(width)
}

/// The product of two elements.
#[verifier::opaque]
pub open spec fn product(width: nat, a: u64, b: u64) -> u64 {
    if width == 3 {
        cubic_product(a, b)
    } else {
        field::product(level_of(width), a, b)
    }
}

/// The element that gives 1 when multiplied with a given one other than 0.
#[verifier::opaque]
pub open spec fn inverse(width: nat, a: u64) -> u64 {
    if width == 3 {
        cubic_inverse(a)
    } else {
        field::inverse(level_of(width), a)
    }
}

/// Sums stay in the field.
pub proof fn lemma_sum_element(width: nat, a: u64, b: u64)
    requires
        proper_width(width),
        element(width, a),
        element(width, b),
    ensures
        element(width, a ^ b),
{
    if width == 3 {
        assert(a ^ b <= 0xff_ffff) by (bit_vector)
            requires
                a <= 0xff_ffff,
                b <= 0xff_ffff,
        ;
    } else {
        field::lemma_sum_element(level_of(width), a, b);
    }
}

/// Products stay in the field.
pub proof fn lemma_product_element(width: nat, a: u64, b: u64)
    requires
        proper_width(width),
        element(width, a),
        element(width, b),
    ensures
        element(width, product(width, a, b)),
{
    reveal(product);
    if width == 3 {
        lemma_cubic_product_element(a, b);
    } else {
        field::lemma_product_element(level_of(width), a, b);
    }
}

/// Factors can change places.
pub proof fn lemma_commutes(width: nat, a: u64, b: u64)
    requires
        proper_width(width),
    ensures
        product(width, a, b) == product(width, b, a),
{
    reveal(product);
    if width == 3 {
        lemma_cubic_commutes(a, b);
    } else {
        field::lemma_commutes(level_of(width), a, b);
    }
}

/// A product with a sum is the sum of the products.
pub proof fn lemma_distributes(width: nat, a: u64, b: u64, c: u64)
    requires
        proper_width(width),
    ensures
        product(width, a, b ^ c) == product(width, a, b) ^ product(width, a, c),
{
    reveal(product);
    if width == 3 {
        lemma_cubic_distributes(a, b, c);
    } else {
        field::lemma_distributes(level_of(width), a, b, c);
    }
}

/// The same with the sum on the left.
pub proof fn lemma_distributes_left(width: nat, a: u64, b: u64, c: u64)
    requires
        proper_width(width),
    ensures
        product(width, a ^ b, c) == product(width, a, c) ^ product(width, b, c),
{
    lemma_commutes(width, a ^ b, c);
    lemma_commutes(width, a, c);
    lemma_commutes(width, b, c);
    lemma_distributes(width, c, a, b);
}

/// A product with 0 is 0.
pub proof fn lemma_zero(width: nat, a: u64)
    requires
        proper_width(width),
    ensures
        product(width, a, 0) == 0,
        product(width, 0, a) == 0,
{
    field::lemma_sum(0, 0, 0);
    lemma_distributes(width, a, 0, 0);
    field::lemma_sum(product(width, a, 0), 0, 0);
    lemma_commutes(width, a, 0);
}

/// A product with 1 is the other factor.
pub proof fn lemma_one(width: nat, a: u64)
    requires
        proper_width(width),
        element(width, a),
    ensures
        product(width, a, 1) == a,
        product(width, 1, a) == a,
{
    reveal(product);
    lemma_commutes(width, a, 1);
    if width == 3 {
        lemma_cubic_one(a);
    } else {
        field::lemma_one(level_of(width), a);
    }
}

/// Three factors can be grouped either way.
pub proof fn lemma_associates(width: nat, a: u64, b: u64, c: u64)
    requires
        proper_width(width),
        element(width, a),
        element(width, b),
        element(width, c),
    ensures
        product(width, product(width, a, b), c) == product(width, a, product(width, b, c)),
{
    reveal(product);
    if width == 3 {
        lemma_cubic_associates(a, b, c);
    } else {
        field::lemma_associates(level_of(width), a, b, c);
    }
}

/// An element other than 0 has an inverse.
pub proof fn lemma_inverse(width: nat, a: u64)
    requires
        proper_width(width),
        element(width, a),
        a != 0,
    ensures
        element(width, inverse(width, a)),
        product(width, a, inverse(width, a)) == 1,
        product(width, inverse(width, a), a) == 1,
{
    reveal(product);
    reveal(inverse);
    lemma_commutes(width, a, inverse(width, a));
    if width == 3 {
        lemma_cubic_inverse(a);
    } else {
        field::lemma_inverse(level_of(width), a);
    }
}

/// The level for a width other than three.
fn level_for(width: usize) -> (level: u8)
    requires
        proper_width(width as nat),
        width != 3,
    ensures
        level == level_of(width as nat),
{
    match width {
        1 => 3,
        2 => 4,
        4 => 5,
        _ => 6,
    }
}

/// The product of two elements.
pub fn multiply(width: usize, a: u64, b: u64) -> (result: u64)
    requires
        proper_width(width as nat),
    ensures
        result == product(width as nat, a, b),
{
    proof {
        reveal(product);
    }
    if width == 3 {
        cubic_multiply(a, b)
    } else {
        field::multiply(level_for(width), a, b)
    }
}

/// The inverse of an element.
pub fn invert(width: usize, a: u64) -> (result: u64)
    requires
        proper_width(width as nat),
    ensures
        result == inverse(width as nat, a),
{
    proof {
        reveal(inverse);
    }
    if width == 3 {
        cubic_invert(a)
    } else {
        field::invert(level_for(width), a)
    }
}

/// The products of a number with the powers of two in the field of a width, from
/// which the product with any element can be put together.
pub open spec fn multiples(width: nat, factor: u64) -> Seq<u64> {
    Seq::new(8 * width, |k: int| product(width, factor, 1u64 << (k as u64)))
}

/// The products of a factor with the powers of two.
pub fn multiples_of(width: usize, factor: u64) -> (table: Vec<u64>)
    requires
        proper_width(width as nat),
    ensures
        table@ == multiples(width as nat, factor),
{
    let mut table: Vec<u64> = Vec::new();
    let bits: u64 = 8 * width as u64;
    for k in 0..bits
        invariant
            proper_width(width as nat),
            bits == 8 * width,
            table@.len() == k,
            forall|i: int|
                0 <= i < k ==> #[trigger] table@[i] == product(
                    width as nat,
                    factor,
                    1u64 << (i as u64),
                ),
    {
        table.push(multiply(width, factor, 1u64 << k));
    }
    assert(table@ =~= multiples(width as nat, factor));
    table
}

/// The product of a factor, given by its multiples, with a number.
pub(crate) fn scaled(table: &Vec<u64>, number: u64, Ghost(width): Ghost<nat>, Ghost(factor): Ghost<u64>) -> (result:
    u64)
    requires
        proper_width(width),
        table@ == multiples(width, factor),
        element(width, number),
    ensures
        result == product(width, factor, number),
{
    let mut sum: u64 = 0;
    let mut rest: u64 = number;
    let mut k: u64 = 0;
    proof {
        lemma_zero(width, factor);
        assert(number >> 0u64 == number && 0u64 ^ (number << 0u64) == number) by (bit_vector);
    }
    let ghost mut done: u64 = 0;
    while rest != 0
        invariant
            proper_width(width),
            table@ == multiples(width, factor),
            element(width, number),
            k <= 64,
            k == 64 ==> rest == 0,
            k < 64 ==> rest == number >> k && number == done ^ (rest << k),
            k == 64 ==> number == done,
            sum == product(width, factor, done),
        decreases 64 - k,
    {
        let ghost bit = 1u64 << k;
        proof {
            let most = greatest(width);
            let bits = (8 * width) as u64;
            assert(k < bits) by (bit_vector)
                requires
                    rest != 0,
                    k < 64,
                    rest == number >> k,
                    number <= most,
                    bits == 8 && most == 0xff || bits == 16 && most == 0xffff || bits == 24 && most
                        == 0xff_ffff || bits == 32 && most == 0xffff_ffff || bits == 64,
            ;
        }
        if rest & 1 == 1 {
            sum = sum ^ table[k as usize];
            proof {
                lemma_distributes(width, factor, done, bit);
                assert(table@[k as int] == product(width, factor, bit));
            }
        }
        proof {
            let next = if rest & 1 == 1 {
                done ^ bit
            } else {
                done
            };
            assert((k < 63 ==> rest >> 1u64 == number >> ((k + 1) as u64) && number == next ^ ((rest >> 1u64)
                << ((k + 1) as u64))) && (k == 63 ==> number == next && rest >> 1u64 == 0)) by (bit_vector)
                requires
                    k < 64,
                    rest == number >> k,
                    number == done ^ (rest << k),
                    next == if rest & 1 == 1 {
                        done ^ (1u64 << k)
                    } else {
                        done
                    },
            ;
            done = next;
        }
        rest = rest >> 1u64;
        k = k + 1;
    }
    proof {
        if k < 64 {
            let d = done;
            assert(d ^ (0u64 << k) == d) by (bit_vector);
        }
    }
    sum
}

/// Numbers of one, two, three, four and eight bytes form a field each, with the exclusive
/// or for a sum.
pub proof fn law_symbols_form_a_field(width: nat, a: u64, b: u64, c: u64)
    requires
        width == 1 || width == 2 || width == 3 || width == 4 || width == 8,
        element(width, a),
        element(width, b),
        element(width, c),
    ensures
        proper_width(width),
        element(1, a) <==> a <= 0xff,
        element(2, a) <==> a <= 0xffff,
        element(3, a) <==> a <= 0xff_ffff,
        element(4, a) <==> a <= 0xffff_ffff,
        element(8, a),
        element(width, a ^ b),
        element(width, product(width, a, b)),
        product(width, a, b) == product(width, b, a),
        product(width, product(width, a, b), c) == product(width, a, product(width, b, c)),
        product(width, a, b ^ c) == product(width, a, b) ^ product(width, a, c),
        product(width, a, 1) == a,
        product(width, a, 0) == 0,
        a != 0 ==> element(width, inverse(width, a)) && product(width, a, inverse(width, a)) == 1,
{
    lemma_sum_element(width, a, b);
    lemma_product_element(width, a, b);
    lemma_commutes(width, a, b);
    lemma_associates(width, a, b, c);
    lemma_distributes(width, a, b, c);
    lemma_one(width, a);
    lemma_zero(width, a);
    if a != 0 {
        lemma_inverse(width, a);
    }
}

/// The multiples of a factor are its products with the powers of two, from one on.
pub proof fn law_multiples_double(width: nat, factor: u64, k: int)
    requires
        0 <= k < 8 * width,
    ensures
        multiples(width, factor).len() == 8 * width,
        multiples(width, factor)[k] == product(width, factor, 1u64 << (k as u64)),
{
}

} // verus!
