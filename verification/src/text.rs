//! Text fragments: decimal and hexadecimal numerals, and the pieces that
//! diagnostics are assembled from.

use vstd::arithmetic::power::pow;
use vstd::prelude::*;

verus! {

/// The character of a digit, in lower case for the hexadecimal ones.
pub open spec fn digit_char(digit: int) -> char {
    if 0 <= digit < 10 {
        (('0' as int) + digit) as char
    } else {
        (('a' as int) + digit - 10) as char
    }
}

/// The decimal numeral of a natural number, without leading zeros.
pub open spec fn decimal(n: nat) -> Seq<char>
    decreases n,
{
    if n < 10 {
        seq![digit_char(n as int)]
    } else {
        decimal(n / 10).push(digit_char((n % 10) as int))
    }
}

/// The decimal numeral of an integer, with a leading minus sign where it is negative.
pub open spec fn signed_decimal(n: int) -> Seq<char> {
    if n < 0 {
        seq!['-'] + decimal((-n) as nat)
    } else {
        decimal(n as nat)
    }
}

/// The lower-case hexadecimal numeral of a number in exactly `width` digits.
pub open spec fn hex(n: nat, width: nat) -> Seq<char>
    decreases width,
{
    if width == 0 {
        Seq::empty()
    } else {
        hex(n / 16, (width - 1) as nat).push(digit_char((n % 16) as int))
    }
}

/// The character of a hexadecimal digit in upper case.
pub open spec fn upper_digit_char(digit: int) -> char {
    if 0 <= digit < 10 {
        (('0' as int) + digit) as char
    } else {
        (('A' as int) + digit - 10) as char
    }
}

/// The upper-case hexadecimal numeral of a number in exactly `width` digits.
pub open spec fn upper_hex(n: nat, width: nat) -> Seq<char>
    decreases width,
{
    if width == 0 {
        Seq::empty()
    } else {
        upper_hex(n / 16, (width - 1) as nat).push(upper_digit_char((n % 16) as int))
    }
}

/// The text of one digit.
pub fn digit_str(digit: u8) -> (text: &'static str)
    requires
        digit < 16,
    ensures
        text@ == seq![digit_char(digit as int)],
{
    proof {
        reveal_strlit("0");
        reveal_strlit("1");
        reveal_strlit("2");
        reveal_strlit("3");
        reveal_strlit("4");
        reveal_strlit("5");
        reveal_strlit("6");
        reveal_strlit("7");
        reveal_strlit("8");
        reveal_strlit("9");
        reveal_strlit("a");
        reveal_strlit("b");
        reveal_strlit("c");
        reveal_strlit("d");
        reveal_strlit("e");
        reveal_strlit("f");
    }
    let text = match digit {
        0 => "0",
        1 => "1",
        2 => "2",
        3 => "3",
        4 => "4",
        5 => "5",
        6 => "6",
        7 => "7",
        8 => "8",
        9 => "9",
        10 => "a",
        11 => "b",
        12 => "c",
        13 => "d",
        14 => "e",
        _ => "f",
    };
    assert(text@ =~= seq![digit_char(digit as int)]);
    text
}

/// Appends a decimal numeral.
pub fn push_decimal(out: &mut String, n: u64)
    ensures
        final(out)@ == old(out)@ + decimal(n as nat),
    decreases n,
{
    if n < 10 {
        out.append(digit_str(n as u8));
    } else {
        push_decimal(out, n / 10);
        let ghost before = out@;
        out.append(digit_str((n % 10) as u8));
        assert(out@ =~= old(out)@ + decimal(n as nat));
    }
}

/// Appends the decimal numeral of a signed number.
pub fn push_signed_decimal(out: &mut String, n: i32)
    ensures
        final(out)@ == old(out)@ + signed_decimal(n as int),
{
    if n < 0 {
        proof {
            reveal_strlit("-");
        }
        out.append("-");
        push_decimal(out, (-(n as i64)) as u64);
        assert("-"@ =~= seq!['-']);
        assert(out@ =~= old(out)@ + signed_decimal(n as int));
    } else {
        push_decimal(out, n as u64);
    }
}

/// Appends a fixed-width lower-case hexadecimal numeral.
pub fn push_hex(out: &mut String, n: u64, width: u8)
    ensures
        final(out)@ == old(out)@ + hex(n as nat, width as nat),
    decreases width,
{
    if width > 0 {
        push_hex(out, n / 16, width - 1);
        out.append(digit_str((n % 16) as u8));
    }
    assert(out@ =~= old(out)@ + hex(n as nat, width as nat));
}

/// The text of one digit, in upper case.
pub fn upper_digit_str(digit: u8) -> (text: &'static str)
    requires
        digit < 16,
    ensures
        text@ == seq![upper_digit_char(digit as int)],
{
    proof {
        reveal_strlit("A");
        reveal_strlit("B");
        reveal_strlit("C");
        reveal_strlit("D");
        reveal_strlit("E");
        reveal_strlit("F");
    }
    let text = match digit {
        10 => "A",
        11 => "B",
        12 => "C",
        13 => "D",
        14 => "E",
        15 => "F",
        _ => digit_str(digit),
    };
    assert(text@ =~= seq![upper_digit_char(digit as int)]);
    text
}

/// Appends a fixed-width upper-case hexadecimal numeral.
pub fn push_upper_hex(out: &mut String, n: u64, width: u8)
    ensures
        final(out)@ == old(out)@ + upper_hex(n as nat, width as nat),
    decreases width,
{
    if width > 0 {
        push_upper_hex(out, n / 16, width - 1);
        out.append(upper_digit_str((n % 16) as u8));
    }
    assert(out@ =~= old(out)@ + upper_hex(n as nat, width as nat));
}

/// The digits: `0` to `9`, then `a` to `f` or `A` to `F`.
pub proof fn law_digits(digit: int)
    ensures
        0 <= digit < 10 ==> digit_char(digit) as int == 0x30 + digit && upper_digit_char(
            digit,
        ) as int == 0x30 + digit,
        10 <= digit < 16 ==> digit_char(digit) as int == 0x57 + digit && upper_digit_char(
            digit,
        ) as int == 0x37 + digit,
{
}

/// A decimal numeral reads as its number, has digits only and starts with a zero
/// for zero alone.
pub proof fn law_decimal_reads_back(n: nat)
    ensures
        decimal(n).len() > 0,
        decimal(n).fold_left(0int, |value: int, c: char| 10 * value + (c as int - 0x30)) == n,
        forall|i: int| 0 <= i < decimal(n).len() ==> 0x30 <= #[trigger] decimal(n)[i] as int <= 0x39,
        decimal(n)[0] as int == 0x30 ==> n == 0,
    decreases n,
{
    let f = |value: int, c: char| 10 * value + (c as int - 0x30);
    law_digits((n % 10) as int);
    reveal_with_fuel(Seq::fold_left, 2);
    if n < 10 {
        law_digits(n as int);
        assert(decimal(n).drop_last() =~= Seq::empty());
    } else {
        law_decimal_reads_back(n / 10);
        assert(decimal(n).drop_last() =~= decimal(n / 10));
        assert(decimal(n)[0] == decimal(n / 10)[0]);
    }
}

/// The numeral of an integer is that of its size, behind a minus sign where the
/// integer is negative.
pub proof fn law_signed_decimal(n: int)
    ensures
        n >= 0 ==> signed_decimal(n) == decimal(n as nat),
        n < 0 ==> signed_decimal(n).len() == decimal((-n) as nat).len() + 1,
        n < 0 ==> signed_decimal(n)[0] as int == 0x2d,
        n < 0 ==> signed_decimal(n).subrange(1, signed_decimal(n).len() as int) == decimal(
            (-n) as nat,
        ),
{
    if n < 0 {
        assert(signed_decimal(n).subrange(1, signed_decimal(n).len() as int) =~= decimal(
            (-n) as nat,
        ));
    }
}

/// A hexadecimal numeral has the wished number of digits and reads as its number.
pub proof fn law_hex_reads_back(n: nat, width: nat)
    requires
        n < pow(16, width),
    ensures
        hex(n, width).len() == width,
        hex(n, width).fold_left(
            0int,
            |value: int, c: char|
                16 * value + if c as int <= 0x39 {
                    c as int - 0x30
                } else {
                    c as int - 0x57
                },
        ) == n,
        upper_hex(n, width).len() == width,
        upper_hex(n, width).fold_left(
            0int,
            |value: int, c: char|
                16 * value + if c as int <= 0x39 {
                    c as int - 0x30
                } else {
                    c as int - 0x37
                },
        ) == n,
    decreases width,
{
    reveal(pow);
    if width > 0 {
        let less = pow(16, (width - 1) as nat);
        assert(pow(16, width) == 16 * less);
        law_digits((n % 16) as int);
        law_hex_reads_back(n / 16, (width - 1) as nat);
        assert(hex(n, width).drop_last() =~= hex(n / 16, (width - 1) as nat));
        assert(upper_hex(n, width).drop_last() =~= upper_hex(n / 16, (width - 1) as nat));
    }
}

} // verus!
