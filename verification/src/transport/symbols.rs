//! Packets as rows of symbols, each a few bytes in little-endian order.
//!
//! The columns of a packet have one width. Only where that is two bytes and the packet
//! has an odd length, the last column takes three bytes, so that the columns cover the
//! packet and no more.

use vstd::prelude::*;

use crate::transport::field::lemma_sum;
use crate::transport::gf::{
    element, multiples, multiples_of, multiply, product, proper_width, scaled,
};

verus! {

/// The byte of a packet at a position, zero beyond its end.
pub open spec fn padded_byte(packet: Seq<u8>, position: int) -> u8 {
    if 0 <= position < packet.len() {
        packet[position]
    } else {
        0
    }
}

/// The symbol that begins at a position of a packet.
pub open spec fn symbol_at(packet: Seq<u8>, start: int, width: nat) -> u64
    decreases width,
{
    if width == 0 {
        0
    } else {
        (padded_byte(packet, start) as u64) ^ (symbol_at(packet, start + 1, (width - 1) as nat) << 8)
    }
}

/// The byte of a symbol at an index.
pub open spec fn byte_of(symbol: u64, index: int) -> u8 {
    ((symbol >> ((8 * index) as u64)) & 0xff) as u8
}

/// Whether columns can have a width.
pub open spec fn column_widths(width: nat) -> bool {
    width == 1 || width == 2 || width == 4 || width == 8
}

/// Whether the last column of a packet takes three bytes.
pub open spec fn ends_wide(length: nat, width: nat) -> bool {
    width == 2 && length > 1 && length % 2 == 1
}

/// The number of columns of a packet. Where a column has four or eight bytes, the last
/// one can reach beyond the packet's end; so does the one column of a packet of one
/// byte.
pub open spec fn columns(length: nat, width: nat) -> nat {
    if ends_wide(length, width) || length % width == 0 {
        length / width
    } else {
        length / width + 1
    }
}

/// The bytes in a column.
pub open spec fn column_width(length: nat, width: nat, column: int) -> nat {
    if ends_wide(length, width) && column == columns(length, width) - 1 {
        3
    } else {
        width
    }
}

/// The number of bytes in all columns.
pub open spec fn covered(length: nat, width: nat) -> nat {
    if ends_wide(length, width) {
        length
    } else {
        columns(length, width) * width
    }
}

/// The column of a byte.
pub open spec fn column_of(length: nat, width: nat, position: int) -> int {
    let column = position / (width as int);
    if column < columns(length, width) {
        column
    } else {
        columns(length, width) - 1
    }
}

/// The bytes of a row of symbols.
pub open spec fn spread(symbols: Seq<u64>, length: nat, width: nat) -> Seq<u8> {
    Seq::new(
        covered(length, width),
        |k: int|
            byte_of(
                symbols[column_of(length, width, k)],
                k - column_of(length, width, k) * width,
            ),
    )
}

/// The columns reach just beyond the length.
pub proof fn lemma_covered(length: nat, width: nat)
    requires
        column_widths(width),
    ensures
        length <= covered(length, width) < length + width,
        width <= 2 && length != 1 ==> covered(length, width) == length,
        length > 0 ==> columns(length, width) > 0,
{
    if width == 1 {
        assert(columns(length, width) * 1 == columns(length, width));
    } else if width == 2 {
        assert(columns(length, width) * 2 == covered(length, width) || ends_wide(length, width));
    } else if width == 4 {
        assert(columns(length, width) * 4 == covered(length, width));
    } else {
        assert(columns(length, width) * 8 == covered(length, width));
    }
}

/// Where a column stands.
pub proof fn lemma_column(length: nat, width: nat, column: int)
    requires
        column_widths(width),
        0 <= column < columns(length, width),
    ensures
        0 <= column * width < length,
        column * width + column_width(length, width, column) <= covered(length, width),
        proper_width(column_width(length, width, column)),
        forall|k: int|
            0 <= k < column_width(length, width, column) ==> #[trigger] column_of(
                length,
                width,
                column * width + k,
            ) == column,
{
    lemma_covered(length, width);
    assert forall|k: int| 0 <= k < column_width(length, width, column) implies #[trigger] column_of(
        length,
        width,
        column * width + k,
    ) == column by {
        if width == 1 {
            assert((column * 1 + k) / 1 == column);
        } else if width == 2 {
            assert(k < 2 ==> (column * 2 + k) / 2 == column);
            assert(k == 2 ==> (column * 2 + k) / 2 == column + 1);
        } else if width == 4 {
            assert((column * 4 + k) / 4 == column);
        } else {
            assert((column * 8 + k) / 8 == column);
        }
    }
    if width == 1 {
        assert(column * width == column);
        assert(columns(length, width) * width == columns(length, width));
    } else if width == 2 {
        assert(column * width == 2 * column);
        assert(columns(length, width) * width == 2 * columns(length, width));
    } else if width == 4 {
        assert(column * width == 4 * column);
        assert(columns(length, width) * width == 4 * columns(length, width));
    } else {
        assert(column * width == 8 * column);
        assert(columns(length, width) * width == 8 * columns(length, width));
    }
}

/// Every byte stands in its column.
pub proof fn lemma_position(length: nat, width: nat, position: int)
    requires
        column_widths(width),
        0 <= position < covered(length, width),
    ensures
        0 <= column_of(length, width, position) < columns(length, width),
        0 <= position - column_of(length, width, position) * width < column_width(
            length,
            width,
            column_of(length, width, position),
        ),
{
    let c = column_of(length, width, position);
    if width == 1 {
        assert(c * width == c);
        assert(columns(length, width) * width == columns(length, width));
    } else if width == 2 {
        assert(c * width == 2 * c);
        assert(columns(length, width) * width == 2 * columns(length, width));
    } else if width == 4 {
        assert(c * width == 4 * c);
        assert(columns(length, width) * width == 4 * columns(length, width));
    } else {
        assert(c * width == 8 * c);
        assert(columns(length, width) * width == 8 * columns(length, width));
    }
}

proof fn lemma_symbol_bits(packet: Seq<u8>, start: int, width: nat)
    requires
        width < 8,
    ensures
        symbol_at(packet, start, width) >> ((8 * width) as u64) == 0,
    decreases width,
{
    if width == 0 {
        assert(0u64 >> 0u64 == 0) by (bit_vector);
    } else {
        lemma_symbol_bits(packet, start + 1, (width - 1) as nat);
        let r = symbol_at(packet, start + 1, (width - 1) as nat);
        let k = (8 * (width - 1)) as u64;
        let b = padded_byte(packet, start);
        assert(((b as u64) ^ (r << 8)) >> ((k + 8) as u64) == 0) by (bit_vector)
            requires
                k <= 48,
                r >> k == 0,
        ;
    }
}

/// A symbol is an element of the field of its width.
pub proof fn lemma_symbol_element(packet: Seq<u8>, start: int, width: nat)
    requires
        proper_width(width),
    ensures
        element(width, symbol_at(packet, start, width)),
{
    if width < 8 {
        lemma_symbol_bits(packet, start, width);
        let v = symbol_at(packet, start, width);
        assert((v >> 8u64 == 0 ==> v <= 0xff) && (v >> 16u64 == 0 ==> v <= 0xffff) && (v >> 24u64
            == 0 ==> v <= 0xff_ffff) && (v >> 32u64 == 0 ==> v <= 0xffff_ffff)) by (bit_vector);
    }
}

/// The bytes of a symbol are those that it was made of.
proof fn lemma_symbol_byte(packet: Seq<u8>, start: int, width: nat, index: int)
    requires
        0 <= index < width <= 8,
    ensures
        byte_of(symbol_at(packet, start, width), index) == padded_byte(packet, start + index),
    decreases width,
{
    let b = padded_byte(packet, start);
    let r = symbol_at(packet, start + 1, (width - 1) as nat);
    let k = (8 * index) as u64;
    assert((k == 0 ==> ((((b as u64) ^ (r << 8)) >> k) & 0xff) as u8 == b) && (k >= 8 ==> (((b
        as u64) ^ (r << 8)) >> k) & 0xff == (r >> ((k - 8) as u64)) & 0xff)) by (bit_vector)
        requires
            k <= 56,
    ;
    if index > 0 {
        lemma_symbol_byte(packet, start + 1, (width - 1) as nat, index - 1);
    }
}

/// A packet that holds the bytes of a symbol holds the symbol.
proof fn lemma_symbol_from_bytes(packet: Seq<u8>, start: int, width: nat, symbol: u64)
    requires
        width <= 8,
        width < 8 ==> symbol >> ((8 * width) as u64) == 0,
        forall|k: int|
            0 <= k < width ==> padded_byte(packet, start + k) == #[trigger] byte_of(symbol, k),
    ensures
        symbol_at(packet, start, width) == symbol,
    decreases width,
{
    let s = symbol;
    if width == 0 {
        assert(s >> 0u64 == s) by (bit_vector);
    } else {
        let k = (8 * (width - 1)) as u64;
        assert((k <= 48 && s >> ((k + 8) as u64) == 0 ==> (s >> 8u64) >> k == 0) && (((s >> 0u64)
            & 0xff) as u8) as u64 ^ ((s >> 8u64) << 8u64) == s && (s >> 8u64) >> 56u64 == 0)
            by (bit_vector);
        assert forall|i: int| 0 <= i < width - 1 implies padded_byte(packet, (start + 1) + i)
            == #[trigger] byte_of(s >> 8u64, i) by {
            assert(padded_byte(packet, start + (i + 1)) == byte_of(s, i + 1));
            let j = (8 * i) as u64;
            assert((s >> 8u64) >> j == s >> ((j + 8) as u64)) by (bit_vector)
                requires
                    j <= 48,
            ;
        }
        assert(padded_byte(packet, start + 0) == byte_of(s, 0));
        lemma_symbol_from_bytes(packet, start + 1, (width - 1) as nat, s >> 8u64);
    }
}

/// The symbols of spread symbols.
pub proof fn lemma_spread_symbol(symbols: Seq<u64>, length: nat, width: nat, column: int)
    requires
        column_widths(width),
        0 <= column < columns(length, width),
        symbols.len() == columns(length, width),
        element(column_width(length, width, column), symbols[column]),
    ensures
        symbol_at(
            spread(symbols, length, width),
            column * width,
            column_width(length, width, column),
        ) == symbols[column],
{
    let s = symbols[column];
    let packet = spread(symbols, length, width);
    let own = column_width(length, width, column);
    assert((s <= 0xff ==> s >> 8u64 == 0) && (s <= 0xffff ==> s >> 16u64 == 0) && (s <= 0xff_ffff
        ==> s >> 24u64 == 0) && (s <= 0xffff_ffff ==> s >> 32u64 == 0)) by (bit_vector);
    lemma_column(length, width, column);
    assert forall|k: int| 0 <= k < own implies padded_byte(packet, column * width + k)
        == #[trigger] byte_of(s, k) by {
        assert(column_of(length, width, column * width + k) == column);
    }
    lemma_symbol_from_bytes(packet, column * width, own, s);
}

/// The byte of a packet is the byte of the symbol in its column.
pub proof fn lemma_byte_in_column(packet: Seq<u8>, length: nat, width: nat, position: int)
    requires
        column_widths(width),
        0 <= position < covered(length, width),
    ensures
        ({
            let c = column_of(length, width, position);
            padded_byte(packet, position) == byte_of(
                symbol_at(packet, c * width, column_width(length, width, c)),
                position - c * width,
            )
        }),
{
    let c = column_of(length, width, position);
    lemma_position(length, width, position);
    lemma_column(length, width, c);
    lemma_symbol_byte(
        packet,
        c * width,
        column_width(length, width, c),
        position - c * width,
    );
}

/// Packets with the same bytes in a column have the same symbol there.
pub proof fn lemma_same_symbol(a: Seq<u8>, b: Seq<u8>, start: int, width: nat)
    requires
        forall|k: int|
            start <= k < start + width ==> #[trigger] padded_byte(a, k) == padded_byte(b, k),
    ensures
        symbol_at(a, start, width) == symbol_at(b, start, width),
    decreases width,
{
    if width > 0 {
        lemma_same_symbol(a, b, start + 1, (width - 1) as nat);
        assert(padded_byte(a, start) == padded_byte(b, start));
    }
}

/// The number of columns of a packet.
pub fn column_count(length: usize, width: usize) -> (count: usize)
    requires
        column_widths(width as nat),
    ensures
        count == columns(length as nat, width as nat),
{
    if length % width == 0 || (width == 2 && length > 1) {
        length / width
    } else {
        length / width + 1
    }
}

/// The bytes in a column.
pub fn width_of_column(length: usize, width: usize, column: usize) -> (own: usize)
    requires
        column_widths(width as nat),
        column < columns(length as nat, width as nat),
    ensures
        own == column_width(length as nat, width as nat, column as int),
{
    if width == 2 && length > 1 && length % 2 == 1 && column == length / 2 - 1 {
        3
    } else {
        width
    }
}

/// The symbol of the exclusive or of two packets.
pub proof fn lemma_symbol_sum(a: Seq<u8>, b: Seq<u8>, c: Seq<u8>, start: int, width: nat)
    requires
        forall|k: int|
            start <= k < start + width ==> #[trigger] padded_byte(c, k) == padded_byte(a, k)
                ^ padded_byte(b, k),
    ensures
        symbol_at(c, start, width) == symbol_at(a, start, width) ^ symbol_at(b, start, width),
    decreases width,
{
    if width == 0 {
        lemma_sum(0, 0, 0);
    } else {
        lemma_symbol_sum(a, b, c, start + 1, (width - 1) as nat);
        let (x, y) = (padded_byte(a, start), padded_byte(b, start));
        assert(padded_byte(c, start) == x ^ y);
        let u = symbol_at(a, start + 1, (width - 1) as nat);
        let v = symbol_at(b, start + 1, (width - 1) as nat);
        assert(((x ^ y) as u64) ^ ((u ^ v) << 8) == ((x as u64) ^ (u << 8)) ^ ((y as u64) ^ (v << 8)))
            by (bit_vector);
    }
}

/// The symbol beyond the end of a packet.
pub proof fn lemma_no_symbol(packet: Seq<u8>, start: int, width: nat)
    requires
        packet.len() <= start,
    ensures
        symbol_at(packet, start, width) == 0,
    decreases width,
{
    if width > 0 {
        lemma_no_symbol(packet, start + 1, (width - 1) as nat);
        assert(0u64 ^ (0u64 << 8) == 0) by (bit_vector);
    }
}

/// The symbol that begins at a position of a packet.
pub fn read_symbol(packet: &Vec<u8>, start: usize, width: usize) -> (symbol: u64)
    requires
        width <= 8,
    ensures
        symbol == symbol_at(packet@, start as int, width as nat),
{
    let mut symbol: u64 = 0;
    let mut left: usize = width;
    while left > 0
        invariant
            left <= width <= 8,
            symbol == symbol_at(packet@, start + left, (width - left) as nat),
        decreases left,
    {
        let index: usize = left - 1;
        let byte: u8 = if start < packet.len() && index < packet.len() - start {
            packet[start + index]
        } else {
            0
        };
        symbol = (byte as u64) ^ (symbol << 8);
        left = index;
    }
    symbol
}

/// The bytes of a row of symbols.
pub fn spread_symbols(symbols: &Vec<u64>, length: usize, width: usize) -> (bytes: Vec<u8>)
    requires
        column_widths(width as nat),
        symbols@.len() == columns(length as nat, width as nat),
    ensures
        bytes@ == spread(symbols@, length as nat, width as nat),
{
    let ghost (l, w) = (length as nat, width as nat);
    let mut bytes: Vec<u8> = Vec::new();
    let count: usize = symbols.len();
    for column in 0..count
        invariant
            column_widths(w),
            l == length,
            w == width,
            count == symbols@.len(),
            count == columns(l, w),
            bytes@.len() == if column < count {
                column * w
            } else {
                covered(l, w) as int
            },
            forall|k: int|
                0 <= k < bytes@.len() ==> #[trigger] bytes@[k] == spread(symbols@, l, w)[k],
    {
        let symbol: u64 = symbols[column];
        let own: usize = width_of_column(length, width, column);
        let ghost before = bytes@;
        proof {
            lemma_column(l, w, column as int);
        }
        for index in 0..own
            invariant
                own <= 8,
                bytes@.len() == before.len() + index,
                forall|k: int| 0 <= k < before.len() ==> #[trigger] bytes@[k] == before[k],
                forall|k: int|
                    0 <= k < index ==> #[trigger] bytes@[before.len() + k] == byte_of(symbol, k),
        {
            let shift: u64 = 8 * index as u64;
            bytes.push(((symbol >> shift) & 0xff) as u8);
        }
        proof {
            assert forall|k: int| 0 <= k < bytes@.len() implies #[trigger] bytes@[k] == spread(
                symbols@,
                l,
                w,
            )[k] by {
                if k < before.len() {
                    assert(bytes@[k] == before[k]);
                } else {
                    let index = k - before.len();
                    assert(bytes@[before.len() + index] == byte_of(symbol, index));
                    assert(column_of(l, w, column * w + index) == column);
                }
            }
            assert((column + 1) * w == column * w + w) by (nonlinear_arith);
            assert(column + 1 == count ==> column * w + own == covered(l, w)) by {
                if w == 2 {
                    assert(column * 2 + 2 == (column + 1) * 2);
                }
            }
        }
    }
    proof {
        lemma_covered(l, w);
        if count == 0 {
            assert(0 * w == 0);
        }
    }
    assert(bytes@ =~= spread(symbols@, l, w));
    bytes
}

/// The factor for a column out of the one for all columns and the one for a column of
/// three bytes.
pub open spec fn factor_at(
    length: nat,
    width: nat,
    column: int,
    factor: u64,
    wide_factor: u64,
) -> u64 {
    if column_width(length, width, column) == 3 {
        wide_factor
    } else {
        factor
    }
}

/// Adds the symbols of a packet, each times a factor, to a row of sums.
pub fn add_scaled(
    row: &mut Vec<u64>,
    factor: u64,
    wide_factor: u64,
    packet: &Vec<u8>,
    length: usize,
    width: usize,
)
    requires
        column_widths(width as nat),
        old(row)@.len() == columns(length as nat, width as nat),
    ensures
        final(row)@ == Seq::new(
            old(row)@.len(),
            |c: int|
                old(row)@[c] ^ product(
                    column_width(length as nat, width as nat, c),
                    factor_at(length as nat, width as nat, c, factor, wide_factor),
                    symbol_at(
                        packet@,
                        c * width,
                        column_width(length as nat, width as nat, c),
                    ),
                ),
        ),
{
    let ghost (l, w) = (length as nat, width as nat);
    let table: Vec<u64> = multiples_of(width, factor);
    let ghost before = row@;
    let count: usize = row.len();
    for column in 0..count
        invariant
            column_widths(w),
            l == length,
            w == width,
            count == before.len(),
            count == columns(l, w),
            table@ == multiples(w, factor),
            row@.len() == before.len(),
            forall|c: int| column <= c < row@.len() ==> #[trigger] row@[c] == before[c],
            forall|c: int|
                0 <= c < column ==> #[trigger] row@[c] == before[c] ^ product(
                    column_width(l, w, c),
                    factor_at(l, w, c, factor, wide_factor),
                    symbol_at(packet@, c * width, column_width(l, w, c)),
                ),
    {
        let own: usize = width_of_column(length, width, column);
        proof {
            lemma_column(l, w, column as int);
            lemma_symbol_element(packet@, column * w, own as nat);
        }
        let symbol: u64 = read_symbol(packet, column * width, own);
        let part: u64 = if own == 3 {
            multiply(3, wide_factor, symbol)
        } else {
            scaled(&table, symbol, Ghost(w), Ghost(factor))
        };
        let sum: u64 = row[column] ^ part;
        row.set(column, sum);
    }
    assert(row@ =~= Seq::new(
        before.len(),
        |c: int|
            before[c] ^ product(
                column_width(l, w, c),
                factor_at(l, w, c, factor, wide_factor),
                symbol_at(packet@, c * width, column_width(l, w, c)),
            ),
    ));
}

/// Symbols that are spread over bytes are read back from them, and bytes that are read as
/// symbols are spread as they were.
pub proof fn law_symbols_read_back(symbols: Seq<u64>, packet: Seq<u8>, length: nat, width: nat)
    requires
        width == 1 || width == 2 || width == 4 || width == 8,
        symbols.len() == columns(length, width),
        forall|c: int|
            0 <= c < symbols.len() ==> element(
                column_width(length, width, c),
                #[trigger] symbols[c],
            ),
        packet.len() == covered(length, width),
    ensures
        forall|c: int|
            0 <= c < symbols.len() ==> #[trigger] symbols[c] == symbol_at(
                spread(symbols, length, width),
                c * width,
                column_width(length, width, c),
            ),
        spread(
            Seq::new(
                columns(length, width),
                |c: int| symbol_at(packet, c * width, column_width(length, width, c)),
            ),
            length,
            width,
        ) == packet,
{
    assert forall|c: int| 0 <= c < symbols.len() implies #[trigger] symbols[c] == symbol_at(
        spread(symbols, length, width),
        c * width,
        column_width(length, width, c),
    ) by {
        lemma_spread_symbol(symbols, length, width, c);
    }
    let read = Seq::new(
        columns(length, width),
        |c: int| symbol_at(packet, c * width, column_width(length, width, c)),
    );
    assert forall|k: int| 0 <= k < packet.len() implies spread(read, length, width)[k]
        == packet[k] by {
        lemma_position(length, width, k);
        lemma_byte_in_column(packet, length, width, k);
    }
    assert(spread(read, length, width) =~= packet);
}

/// The columns of a packet: each as wide as a symbol, with as many as it takes; where
/// symbols have two bytes, an odd byte at the end belongs to the last column.
pub proof fn law_columns_cover_packets(length: nat, width: nat, column: int)
    requires
        width == 1 || width == 2 || width == 4 || width == 8,
        0 <= column < columns(length, width),
    ensures
        width != 2 || length % 2 == 0 || length == 1 ==> columns(length, width) == (length + width
            - 1) / width as int && column_width(length, width, column) == width,
        width == 2 && length % 2 == 1 && length > 1 ==> columns(length, width) == length / 2
            && column_width(length, width, column) == if column == length / 2 - 1 {
            3int
        } else {
            2
        },
{
}

} // verus!
