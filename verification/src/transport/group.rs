//! A group of data packets and the parity packets made of them, and what a
//! reception of some of them tells about the rest.

use vstd::prelude::*;

use crate::transport::erasure::{
    divided_sum, elements, fits, law_symbols_are_determined, plain_sum, points, square,
    unknown_symbols,
};
use crate::transport::field::lemma_sum;
use crate::transport::gf::{
    element, greatest, inverse, invert, lemma_inverse, lemma_one, lemma_product_element,
    lemma_sum_element, product, proper_width,
};
use crate::transport::symbols::{
    add_scaled, column_count, column_of, column_width, column_widths, columns, covered,
    factor_at, lemma_byte_in_column, lemma_column, lemma_covered, lemma_position,
    lemma_same_symbol, lemma_spread_symbol, lemma_symbol_element, padded_byte, spread,
    spread_symbols, symbol_at, width_of_column,
};

verus! {

/// The bytes in a symbol for groups of a number of packets: enough for each packet
/// but the first parity packet to have a symbol of its own.
pub open spec fn width_for(packet_count: nat) -> nat {
    if packet_count <= 0x101 {
        1
    } else if packet_count <= 0x1_0001 {
        2
    } else if packet_count <= 0x1_0000_0001 {
        4
    } else {
        8
    }
}

/// Whether the packets of a group can all have points in the field of a width.
pub open spec fn points_fit(width: nat, data_count: nat, parity_count: nat) -> bool {
    &&& proper_width(width)
    &&& data_count + parity_count <= greatest(width) + 2
    &&& data_count + parity_count <= usize::MAX
}

/// The weight of a data symbol in the symbol of a parity packet. All weigh the same
/// in the first parity packet. In the others a symbol is divided by the difference
/// of the packets' points.
pub open spec fn weight(width: nat, data_count: nat, parity: int, index: int) -> u64 {
    if parity == 0 {
        1
    } else {
        inverse(width, point(data_count, parity) ^ (index as u64))
    }
}

/// The point of a parity packet after the first. The point of a data packet is its
/// index.
pub open spec fn point(data_count: nat, parity: int) -> u64 {
    (data_count + parity - 1) as u64
}

/// The symbol of a parity packet over the data symbols of one column.
pub open spec fn weighted_sum(
    width: nat,
    data_count: nat,
    parity: int,
    symbols: Seq<u64>,
) -> u64
    decreases symbols.len(),
{
    if symbols.len() == 0 {
        0
    } else {
        weighted_sum(width, data_count, parity, symbols.drop_last()) ^ product(
            width,
            weight(width, data_count, parity, symbols.len() - 1),
            symbols.last(),
        )
    }
}

/// The symbols of packets that begin at a position.
pub open spec fn column(packets: Seq<Seq<u8>>, start: int, width: nat) -> Seq<u64> {
    Seq::new(packets.len(), |i: int| symbol_at(packets[i], start, width))
}

/// The packet that a reception holds for a slot: the last one that came for it.
pub open spec fn slot(received: Seq<(usize, Seq<u8>)>, index: int) -> Option<Seq<u8>>
    decreases received.len(),
{
    if received.len() == 0 {
        None
    } else if received.last().0 == index {
        Some(received.last().1)
    } else {
        slot(received.drop_last(), index)
    }
}

/// The slots below `count` for which no packet came.
pub open spec fn lost(received: Seq<(usize, Seq<u8>)>, count: int) -> Seq<int>
    decreases count,
{
    if count <= 0 {
        Seq::empty()
    } else if slot(received, count - 1) is None {
        lost(received, count - 1).push(count - 1)
    } else {
        lost(received, count - 1)
    }
}

/// The slots of parity packets after the first that came, in order of their arrival.
pub open spec fn spares(
    received: Seq<(usize, Seq<u8>)>,
    data_count: nat,
    parity_count: nat,
) -> Seq<int>
    decreases received.len(),
{
    if received.len() == 0 {
        Seq::empty()
    } else {
        let rest = spares(received.drop_last(), data_count, parity_count);
        let index = received.last().0 as int;
        if data_count < index < data_count + parity_count && !rest.contains(index) {
            rest.push(index)
        } else {
            rest
        }
    }
}

/// The slot of the first parity packet, if it came, else of the one that came first.
pub open spec fn parity_seen(
    received: Seq<(usize, Seq<u8>)>,
    data_count: nat,
    parity_count: nat,
) -> Option<int> {
    let spare = spares(received, data_count, parity_count);
    if parity_count > 0 && slot(received, data_count as int) is Some {
        Some(data_count as int)
    } else if spare.len() > 0 {
        Some(spare[0])
    } else {
        None
    }
}

/// Whether the group is one of single bytes with more packets than there are symbols
/// of one byte for them. All its parity packets are the same.
pub open spec fn single(
    received: Seq<(usize, Seq<u8>)>,
    data_count: nat,
    parity_count: nat,
) -> bool {
    let seen = parity_seen(received, data_count, parity_count);
    width_for(data_count + parity_count) > 1 && seen is Some && slot(received, seen->0)->0.len() <= 1
}

/// The slot of a parity packet in which all data packets weigh the same.
pub open spec fn plain_source(
    received: Seq<(usize, Seq<u8>)>,
    data_count: nat,
    parity_count: nat,
) -> Option<int> {
    let seen = parity_seen(received, data_count, parity_count);
    if seen == Some(data_count as int) || single(received, data_count, parity_count) {
        seen
    } else {
        None
    }
}

/// The slots of the parity packets that came in which data packets weigh differently.
pub open spec fn weighing(
    received: Seq<(usize, Seq<u8>)>,
    data_count: nat,
    parity_count: nat,
) -> Seq<int> {
    if single(received, data_count, parity_count) {
        Seq::empty()
    } else {
        spares(received, data_count, parity_count)
    }
}

/// The number of parity packets that are needed to rebuild what is lost, besides one in
/// which all data packets weigh the same.
pub open spec fn needed(
    received: Seq<(usize, Seq<u8>)>,
    data_count: nat,
    parity_count: nat,
) -> int {
    lost(received, data_count as int).len() - if plain_source(received, data_count, parity_count) is Some {
        1int
    } else {
        0
    }
}

/// The slots of the parity packets from which lost packets are rebuilt, besides one in
/// which all data packets weigh the same.
pub open spec fn used(
    received: Seq<(usize, Seq<u8>)>,
    data_count: nat,
    parity_count: nat,
) -> Seq<int> {
    weighing(received, data_count, parity_count).take(needed(received, data_count, parity_count))
}

/// Whether something was lost and enough parity packets came to rebuild it.
pub open spec fn repairable(
    received: Seq<(usize, Seq<u8>)>,
    data_count: nat,
    parity_count: nat,
) -> bool {
    &&& lost(received, data_count as int).len() > 0
    &&& weighing(received, data_count, parity_count).len() >= needed(
        received,
        data_count,
        parity_count,
    )
}

/// The length of the longest packet of a group, as a parity packet after the first
/// tells. Where columns have four or eight bytes, its last byte says how far they reach
/// beyond the longest packet.
pub open spec fn stated_length(packet: Seq<u8>, width: nat) -> nat {
    if width <= 2 {
        packet.len()
    } else if packet.len() == 0 || packet.last() >= packet.len() {
        0
    } else {
        (packet.len() - 1 - packet.last()) as nat
    }
}

/// The length of the longest packet of a group, as the parity packets tell.
pub open spec fn group_length(
    received: Seq<(usize, Seq<u8>)>,
    data_count: nat,
    parity_count: nat,
) -> nat {
    let sources = used(received, data_count, parity_count);
    if sources.len() == 0 {
        slot(received, plain_source(received, data_count, parity_count)->0)->0.len()
    } else {
        stated_length(slot(received, sources[0])->0, width_for(data_count + parity_count))
    }
}

/// Whether data symbols of one column agree with every data packet that came and with
/// every parity packet that is used.
pub open spec fn agrees(
    symbols: Seq<u64>,
    received: Seq<(usize, Seq<u8>)>,
    data_count: nat,
    parity_count: nat,
    start: int,
    width: nat,
) -> bool {
    let sources = used(received, data_count, parity_count);
    let plain = plain_source(received, data_count, parity_count);
    &&& forall|i: int|
        0 <= i < data_count && (#[trigger] slot(received, i)) is Some ==> symbols[i] == symbol_at(
            slot(received, i)->0,
            start,
            width,
        )
    &&& plain is Some ==> weighted_sum(width, data_count, 0, symbols) == symbol_at(
        slot(received, plain->0)->0,
        start,
        width,
    )
    &&& forall|k: int|
        0 <= k < sources.len() ==> weighted_sum(
            width,
            data_count,
            (#[trigger] sources[k]) - data_count,
            symbols,
        ) == symbol_at(slot(received, sources[k])->0, start, width)
}

/// Whether packets, each as long as all columns, are a group from which the packets
/// that came can be.
pub open spec fn explains(
    group: Seq<Seq<u8>>,
    received: Seq<(usize, Seq<u8>)>,
    data_count: nat,
    parity_count: nat,
) -> bool {
    let width = width_for(data_count + parity_count);
    let length = group_length(received, data_count, parity_count);
    &&& group.len() == data_count
    &&& forall|i: int| 0 <= i < data_count ==> (#[trigger] group[i]).len() == covered(length, width)
    &&& forall|c: int|
        0 <= c < columns(length, width) ==> agrees(
            #[trigger] column(group, c * width, column_width(length, width, c)),
            received,
            data_count,
            parity_count,
            c * width,
            column_width(length, width, c),
        )
}

/// The data packets of a group from which enough packets came: those that came as
/// they are, and the others out of the one group that explains what came.
pub open spec fn repaired(
    received: Seq<(usize, Seq<u8>)>,
    data_count: nat,
    parity_count: nat,
) -> Seq<Seq<u8>> {
    let group = choose|group: Seq<Seq<u8>>| explains(group, received, data_count, parity_count);
    let length = group_length(received, data_count, parity_count);
    Seq::new(
        data_count,
        |i: int|
            match slot(received, i) {
                Some(packet) => packet,
                None => group[i].take(length as int),
            },
    )
}

/// What is known of the lost slots.
pub proof fn lemma_lost(received: Seq<(usize, Seq<u8>)>, count: int)
    ensures
        forall|k: int|
            0 <= k < lost(received, count).len() ==> 0 <= #[trigger] lost(received, count)[k]
                < count && slot(received, lost(received, count)[k]) is None,
        forall|j: int, k: int|
            0 <= j < k < lost(received, count).len() ==> #[trigger] lost(received, count)[j]
                < #[trigger] lost(received, count)[k],
        forall|i: int|
            0 <= i < count && (#[trigger] slot(received, i)) is None ==> lost(
                received,
                count,
            ).contains(i),
        lost(received, count).len() <= if count > 0 {
            count
        } else {
            0
        },
    decreases count,
{
    if count > 0 {
        lemma_lost(received, count - 1);
        let rest = lost(received, count - 1);
        let whole = lost(received, count);
        assert forall|i: int| 0 <= i < count && (#[trigger] slot(received, i)) is None implies whole.contains(
            i,
        ) by {
            if i < count - 1 {
                assert(rest.contains(i));
                let k = choose|k: int| 0 <= k < rest.len() && rest[k] == i;
                assert(whole[k] == i);
            } else {
                assert(whole[whole.len() - 1] == i);
            }
        }
    }
}

/// What is known of the spare slots.
pub proof fn lemma_spares(received: Seq<(usize, Seq<u8>)>, data_count: nat, parity_count: nat)
    ensures
        forall|k: int|
            0 <= k < spares(received, data_count, parity_count).len() ==> data_count
                < #[trigger] spares(received, data_count, parity_count)[k] < data_count + parity_count
                && slot(received, spares(received, data_count, parity_count)[k]) is Some,
        forall|j: int, k: int|
            0 <= j < k < spares(received, data_count, parity_count).len() ==> #[trigger] spares(
                received,
                data_count,
                parity_count,
            )[j] != #[trigger] spares(received, data_count, parity_count)[k],
        forall|k: int|
            0 <= k < received.len() && data_count < (#[trigger] received[k]).0 < data_count
                + parity_count ==> spares(received, data_count, parity_count).contains(
                received[k].0 as int,
            ),
    decreases received.len(),
{
    if received.len() > 0 {
        let front = received.drop_last();
        lemma_spares(front, data_count, parity_count);
        let rest = spares(front, data_count, parity_count);
        let whole = spares(received, data_count, parity_count);
        assert forall|k: int|
            0 <= k < received.len() && data_count < (#[trigger] received[k]).0 < data_count
                + parity_count implies whole.contains(received[k].0 as int) by {
            let index = received[k].0 as int;
            if k < front.len() {
                assert(front[k] == received[k]);
            }
            if rest.contains(index) {
                let j = choose|j: int| 0 <= j < rest.len() && rest[j] == index;
                assert(whole[j] == index);
            } else {
                assert(whole[whole.len() - 1] == index);
            }
        }
    }
}

/// The points of lost data packets.
pub open spec fn lost_points(received: Seq<(usize, Seq<u8>)>, count: int) -> Seq<u64> {
    Seq::new(lost(received, count).len(), |k: int| lost(received, count)[k] as u64)
}

/// The points of the parity packets that are used.
pub open spec fn used_points(
    received: Seq<(usize, Seq<u8>)>,
    data_count: nat,
    parity_count: nat,
) -> Seq<u64> {
    let sources = used(received, data_count, parity_count);
    Seq::new(sources.len(), |k: int| point(data_count, sources[k] - data_count))
}

/// The symbols of lost packets.
spec fn lost_symbols(symbols: Seq<u64>, received: Seq<(usize, Seq<u8>)>, count: int) -> Seq<u64> {
    Seq::new(lost(received, count).len(), |k: int| symbols[lost(received, count)[k]])
}

/// The part that the data packets that came have in a parity symbol.
pub open spec fn known_sum(
    width: nat,
    received: Seq<(usize, Seq<u8>)>,
    data_count: nat,
    parity: int,
    start: int,
    count: int,
) -> u64
    decreases count,
{
    if count <= 0 {
        0
    } else {
        let rest = known_sum(width, received, data_count, parity, start, count - 1);
        match slot(received, count - 1) {
            Some(packet) => rest ^ product(
                width,
                weight(width, data_count, parity, count - 1),
                symbol_at(packet, start, width),
            ),
            None => rest,
        }
    }
}

/// What a parity packet leaves for the lost packets in one column.
pub open spec fn residue(
    width: nat,
    received: Seq<(usize, Seq<u8>)>,
    data_count: nat,
    source: int,
    parity: int,
    start: int,
) -> u64 {
    symbol_at(slot(received, source)->0, start, width) ^ known_sum(
        width,
        received,
        data_count,
        parity,
        start,
        data_count as int,
    )
}

/// What a parity packet in which all weigh the same leaves, where there is one.
pub open spec fn plain_residue(
    received: Seq<(usize, Seq<u8>)>,
    data_count: nat,
    parity_count: nat,
    start: int,
    width: nat,
) -> Option<u64> {
    match plain_source(received, data_count, parity_count) {
        Some(source) => Some(residue(width, received, data_count, source, 0, start)),
        None => None,
    }
}

/// What the other parity packets that are used leave.
pub open spec fn residues(
    received: Seq<(usize, Seq<u8>)>,
    data_count: nat,
    parity_count: nat,
    start: int,
    width: nat,
) -> Seq<u64> {
    let sources = used(received, data_count, parity_count);
    Seq::new(
        sources.len(),
        |k: int|
            residue(width, received, data_count, sources[k], sources[k] - data_count, start),
    )
}

/// A parity symbol is made of what came and of what is lost.
proof fn lemma_split(
    width: nat,
    symbols: Seq<u64>,
    received: Seq<(usize, Seq<u8>)>,
    data_count: nat,
    parity: int,
    start: int,
    count: int,
)
    requires
        proper_width(width),
        elements(width, symbols),
        0 <= count <= symbols.len(),
        symbols.len() == data_count,
        0 <= parity,
        forall|i: int|
            0 <= i < data_count && (#[trigger] slot(received, i)) is Some ==> symbols[i]
                == symbol_at(slot(received, i)->0, start, width),
    ensures
        weighted_sum(width, data_count, parity, symbols.take(count)) == known_sum(
            width,
            received,
            data_count,
            parity,
            start,
            count,
        ) ^ if parity == 0 {
            plain_sum(lost_symbols(symbols, received, count))
        } else {
            divided_sum(
                width,
                lost_points(received, count),
                lost_symbols(symbols, received, count),
                point(data_count, parity),
            )
        },
    decreases count,
{
    let level = width;
    if count == 0 {
        lemma_sum(0, 0, 0);
    } else {
        let i = count - 1;
        lemma_split(width, symbols, received, data_count, parity, start, i);
        assert(symbols.take(count).drop_last() =~= symbols.take(i));
        let known = known_sum(width, received, data_count, parity, start, i);
        let term = product(level, weight(width, data_count, parity, i), symbols[i]);
        let before = lost_symbols(symbols, received, i);
        let after = lost_symbols(symbols, received, count);
        let b = point(data_count, parity);
        let open = if parity == 0 {
            plain_sum(before)
        } else {
            divided_sum(level, lost_points(received, i), before, b)
        };
        lemma_sum(known, open, term);
        lemma_sum(known, term, open);
        lemma_sum(open, term, 0);
        if slot(received, i) is None {
            lemma_one(level, symbols[i]);
            assert(after.drop_last() =~= before);
            assert(lost_points(received, count).drop_last() =~= lost_points(received, i));
            assert(after.last() == symbols[i]);
            assert(lost_points(received, count).last() == i as u64);
        } else {
            assert(after =~= before);
            assert(lost_points(received, count) =~= lost_points(received, i));
        }
    }
}

/// The points of what is lost and of what is used to rebuild it differ.
pub proof fn lemma_points(
    width: nat,
    received: Seq<(usize, Seq<u8>)>,
    data_count: nat,
    parity_count: nat,
)
    requires
        points_fit(width, data_count, parity_count),
        repairable(received, data_count, parity_count),
    ensures
        points(
            width,
            lost_points(received, data_count as int),
            used_points(received, data_count, parity_count),
        ),
        used(received, data_count, parity_count).len() == needed(
            received,
            data_count,
            parity_count,
        ),
        forall|k: int|
            0 <= k < used(received, data_count, parity_count).len() ==> data_count
                < #[trigger] used(received, data_count, parity_count)[k] < data_count + parity_count
                && slot(received, used(received, data_count, parity_count)[k]) is Some,
{
    lemma_lost(received, data_count as int);
    lemma_spares(received, data_count, parity_count);
    let all = spares(received, data_count, parity_count);
    let sources = used(received, data_count, parity_count);
    let (gone, b) = (
        lost_points(received, data_count as int),
        used_points(received, data_count, parity_count),
    );
    assert forall|k: int| 0 <= k < sources.len() implies data_count < #[trigger] sources[k]
        < data_count + parity_count && slot(received, sources[k]) is Some by {
        assert(sources[k] == all[k]);
    }
    assert forall|k: int| 0 <= k < gone.len() implies element(width, #[trigger] gone[k])
        && gone[k] < data_count by {
        let i = lost(received, data_count as int)[k];
        assert(0 <= i < data_count);
    }
    assert forall|k: int| 0 <= k < b.len() implies element(width, #[trigger] b[k]) && b[k]
        >= data_count by {
        assert(data_count < sources[k] < data_count + parity_count);
    }
    assert forall|j: int, k: int| 0 <= j < k < gone.len() implies #[trigger] gone[j]
        != #[trigger] gone[k] by {
        let whole = lost(received, data_count as int);
        assert(whole[j] < whole[k]);
    }
    assert forall|j: int, k: int| 0 <= j < k < b.len() implies #[trigger] b[j] != #[trigger] b[k] by {
        assert(all[j] != all[k]);
        assert(sources[j] == all[j] && sources[k] == all[k]);
        assert(data_count < sources[j] < data_count + parity_count);
        assert(data_count < sources[k] < data_count + parity_count);
    }
}

pub proof fn lemma_weight_element(width: nat, data_count: nat, parity_count: nat, parity: int, index: int)
    requires
        points_fit(width, data_count, parity_count),
        0 <= index < data_count,
        0 <= parity < parity_count,
    ensures
        element(width, weight(width, data_count, parity, index)),
{
    if parity > 0 {
        let b = point(data_count, parity);
        let a = index as u64;
        assert(b >= data_count > a);
        lemma_sum(b, a, 0);
        lemma_sum_element(width, b, a);
        lemma_inverse(width, b ^ a);
    }
}

proof fn lemma_residue_element(
    width: nat,
    received: Seq<(usize, Seq<u8>)>,
    data_count: nat,
    parity_count: nat,
    source: int,
    parity: int,
    start: int,
    count: int,
)
    requires
        points_fit(width, data_count, parity_count),
        0 <= parity < parity_count,
        0 <= count <= data_count,
    ensures
        element(width, known_sum(width, received, data_count, parity, start, count)),
        count == data_count ==> element(
            width,
            residue(width, received, data_count, source, parity, start),
        ),
    decreases count,
{
    if count > 0 {
        let i = count - 1;
        lemma_residue_element(width, received, data_count, parity_count, source, parity, start, i);
        lemma_weight_element(width, data_count, parity_count, parity, i);
        if slot(received, i) is Some {
            let symbol = symbol_at(slot(received, i)->0, start, width);
            lemma_symbol_element(slot(received, i)->0, start, width);
            let w = weight(width, data_count, parity, i);
            lemma_product_element(width, w, symbol);
            lemma_sum_element(
                width,
                known_sum(width, received, data_count, parity, start, i),
                product(width, w, symbol),
            );
        }
    }
    let symbol = symbol_at(slot(received, source)->0, start, width);
    lemma_symbol_element(slot(received, source)->0, start, width);
    lemma_sum_element(
        width,
        symbol,
        known_sum(width, received, data_count, parity, start, count),
    );
}

/// The system for what is lost has as many sums as unknowns.
pub proof fn lemma_square(
    received: Seq<(usize, Seq<u8>)>,
    data_count: nat,
    parity_count: nat,
    start: int,
    width: nat,
)
    requires
        points_fit(width, data_count, parity_count),
        repairable(received, data_count, parity_count),
    ensures
        square(
            width,
            lost_points(received, data_count as int),
            used_points(received, data_count, parity_count),
            plain_residue(received, data_count, parity_count, start, width),
            residues(received, data_count, parity_count, start, width),
        ),
{
    lemma_points(width, received, data_count, parity_count);
    let sources = used(received, data_count, parity_count);
    let sums = residues(received, data_count, parity_count, start, width);
    assert forall|k: int| 0 <= k < sums.len() implies element(width, #[trigger] sums[k]) by {
        assert(data_count < sources[k] < data_count + parity_count);
        lemma_residue_element(
            width,
            received,
            data_count,
            parity_count,
            sources[k],
            sources[k] - data_count,
            start,
            data_count as int,
        );
    }
    lemma_spares(received, data_count, parity_count);
    if let Some(source) = plain_source(received, data_count, parity_count) {
        lemma_residue_element(
            width,
            received,
            data_count,
            parity_count,
            source,
            0,
            start,
            data_count as int,
        );
    }
}

/// Data symbols agree with what came exactly where the lost ones fit what the parity
/// packets leave for them.
proof fn lemma_agrees(
    symbols: Seq<u64>,
    received: Seq<(usize, Seq<u8>)>,
    data_count: nat,
    parity_count: nat,
    start: int,
    width: nat,
)
    requires
        points_fit(width, data_count, parity_count),
        repairable(received, data_count, parity_count),
        symbols.len() == data_count,
        elements(width, symbols),
        forall|i: int|
            0 <= i < data_count && (#[trigger] slot(received, i)) is Some ==> symbols[i]
                == symbol_at(
                slot(received, i)->0,
                start,
                width,
            ),
    ensures
        agrees(symbols, received, data_count, parity_count, start, width) <==> fits(
            width,
            lost_points(received, data_count as int),
            used_points(received, data_count, parity_count),
            plain_residue(received, data_count, parity_count, start, width),
            lost_symbols(symbols, received, data_count as int),
            residues(received, data_count, parity_count, start, width),
        ),
{
    let n = data_count as int;
    lemma_lost(received, n);
    lemma_points(width, received, data_count, parity_count);
    let gone = lost_symbols(symbols, received, n);
    let sources = used(received, data_count, parity_count);
    let b = used_points(received, data_count, parity_count);
    let sums = residues(received, data_count, parity_count, start, width);
    assert(symbols.take(n) =~= symbols);
    assert(elements(width, gone));
    if let Some(source) = plain_source(received, data_count, parity_count) {
        lemma_split(width, symbols, received, data_count, 0, start, n);
        lemma_transfer(
            known_sum(width, received, data_count, 0, start, n),
            plain_sum(gone),
            symbol_at(slot(received, source)->0, start, width),
        );
    }
    assert forall|k: int| 0 <= k < sources.len() implies (weighted_sum(
        width,
        data_count,
        sources[k] - data_count,
        symbols,
    ) == symbol_at(slot(received, sources[k])->0, start, width)) == (divided_sum(
        width,
        lost_points(received, n),
        gone,
        b[k],
    ) == sums[k]) by {
        let parity = sources[k] - data_count;
        assert(data_count < sources[k] < data_count + parity_count);
        lemma_split(width, symbols, received, data_count, parity, start, n);
        lemma_transfer(
            known_sum(width, received, data_count, parity, start, n),
            divided_sum(width, lost_points(received, n), gone, b[k]),
            symbol_at(slot(received, sources[k])->0, start, width),
        );
    }
    if agrees(symbols, received, data_count, parity_count, start, width) {
        assert forall|k: int| 0 <= k < b.len() implies divided_sum(
            width,
            lost_points(received, n),
            gone,
            #[trigger] b[k],
        ) == sums[k] by {
            assert(weighted_sum(width, data_count, sources[k] - data_count, symbols) == symbol_at(
                slot(received, sources[k])->0,
                start,
                width,
            ));
        }
    }
    if fits(
        width,
        lost_points(received, n),
        b,
        plain_residue(received, data_count, parity_count, start, width),
        gone,
        sums,
    ) {
        assert forall|k: int| 0 <= k < sources.len() implies weighted_sum(
            width,
            data_count,
            (#[trigger] sources[k]) - data_count,
            symbols,
        ) == symbol_at(slot(received, sources[k])->0, start, width) by {
            assert(divided_sum(width, lost_points(received, n), gone, b[k]) == sums[k]);
        }
    }
}

/// A part of a sum can be taken to the other side.
proof fn lemma_transfer(known: u64, open: u64, total: u64)
    ensures
        (known ^ open == total) == (open == total ^ known),
{
    lemma_sum(known, open, 0);
    lemma_sum(open, known, 0);
    lemma_sum(total, known, 0);
}

/// What came leaves no choice for the symbols of a column.
pub proof fn lemma_column_is_determined(
    x: Seq<u64>,
    y: Seq<u64>,
    received: Seq<(usize, Seq<u8>)>,
    data_count: nat,
    parity_count: nat,
    start: int,
    width: nat,
)
    requires
        points_fit(width, data_count, parity_count),
        repairable(received, data_count, parity_count),
        x.len() == data_count,
        y.len() == data_count,
        elements(width, x),
        elements(width, y),
        agrees(x, received, data_count, parity_count, start, width),
        agrees(y, received, data_count, parity_count, start, width),
    ensures
        x == y,
{
    let n = data_count as int;
    lemma_agrees(x, received, data_count, parity_count, start, width);
    lemma_agrees(y, received, data_count, parity_count, start, width);
    lemma_square(received, data_count, parity_count, start, width);
    let gx = lost_symbols(x, received, n);
    let gy = lost_symbols(y, received, n);
    law_symbols_are_determined(
        width,
        lost_points(received, n),
        used_points(received, data_count, parity_count),
        plain_residue(received, data_count, parity_count, start, width),
        gx,
        gy,
        residues(received, data_count, parity_count, start, width),
    );
    lemma_lost(received, n);
    assert forall|i: int| 0 <= i < n implies x[i] == y[i] by {
        if slot(received, i) is None {
            let gone = lost(received, n);
            assert(gone.contains(i));
            let k = choose|k: int| 0 <= k < gone.len() && gone[k] == i;
            assert(gx[k] == gy[k]);
        }
    }
    assert(x =~= y);
}

/// What came leaves no choice for the group.
pub proof fn law_group_is_determined(
    x: Seq<Seq<u8>>,
    y: Seq<Seq<u8>>,
    received: Seq<(usize, Seq<u8>)>,
    data_count: nat,
    parity_count: nat,
)
    requires
        data_count + parity_count <= usize::MAX,
        repairable(received, data_count, parity_count),
        explains(x, received, data_count, parity_count),
        explains(y, received, data_count, parity_count),
    ensures
        x == y,
{
    let width = width_for(data_count + parity_count);
    let length = group_length(received, data_count, parity_count);
    assert forall|i: int| 0 <= i < data_count implies x[i] =~= y[i] by {
        assert(x[i].len() == y[i].len());
        assert forall|q: int| 0 <= q < x[i].len() implies x[i][q] == y[i][q] by {
            let c = column_of(length, width, q);
            let own = column_width(length, width, c);
            lemma_position(length, width, q);
            lemma_column(length, width, c);
            lemma_byte_in_column(x[i], length, width, q);
            lemma_byte_in_column(y[i], length, width, q);
            let cx = column(x, c * width, own);
            let cy = column(y, c * width, own);
            assert forall|k: int| 0 <= k < data_count implies element(own, #[trigger] cx[k]) by {
                lemma_symbol_element(x[k], c * width, own);
            }
            assert forall|k: int| 0 <= k < data_count implies element(own, #[trigger] cy[k]) by {
                lemma_symbol_element(y[k], c * width, own);
            }
            lemma_column_is_determined(
                cx,
                cy,
                received,
                data_count,
                parity_count,
                c * width,
                own,
            );
            assert(cx[i] == cy[i]);
        }
    }
    assert(x =~= y);
}

/// The indexed packets of a reception, with the bytes of each.
pub open spec fn received_contents(received: Seq<(usize, Vec<u8>)>) -> Seq<(usize, Seq<u8>)> {
    Seq::new(received.len(), |i: int| (received[i].0, received[i].1@))
}

/// Whether slots hold what a reception holds for them.
pub open spec fn holds(data: Seq<Option<Vec<u8>>>, received: Seq<(usize, Seq<u8>)>) -> bool {
    forall|j: int|
        0 <= j < data.len() ==> match #[trigger] data[j] {
            Some(packet) => slot(received, j) == Some(packet@),
            None => slot(received, j) is None,
        }
}

/// Whether a list holds certain numbers.
pub open spec fn lists(list: Seq<usize>, numbers: Seq<int>) -> bool {
    &&& list.len() == numbers.len()
    &&& forall|k: int| 0 <= k < list.len() ==> (#[trigger] list[k]) == numbers[k]
}

pub proof fn lemma_received_push(received: Seq<(usize, Vec<u8>)>, upto: int)
    requires
        0 <= upto < received.len(),
    ensures
        received_contents(received.take(upto + 1)).drop_last() == received_contents(
            received.take(upto),
        ),
        received_contents(received.take(upto + 1)).last() == (received[upto].0, received[upto].1@),
        received_contents(received.take(upto + 1)).len() == upto + 1,
{
    assert(received_contents(received.take(upto + 1)).drop_last() =~= received_contents(
        received.take(upto),
    ));
}

/// Where the packet for a slot stands in a reception.
pub(crate) fn last_position(received: &[(usize, Vec<u8>)], index: usize) -> (position: Option<usize>)
    ensures
        match position {
            Some(k) => k < received@.len() && slot(received_contents(received@), index as int)
                == Some(received@[k as int].1@),
            None => slot(received_contents(received@), index as int) is None,
        },
{
    let mut position: Option<usize> = None;
    for k in 0..received.len()
        invariant
            match position {
                Some(i) => i < k && slot(
                    received_contents(received@.take(k as int)),
                    index as int,
                ) == Some(received@[i as int].1@),
                None => slot(received_contents(received@.take(k as int)), index as int) is None,
            },
    {
        proof {
            lemma_received_push(received@, k as int);
        }
        if received[k].0 == index {
            position = Some(k);
        }
    }
    assert(received@.take(received@.len() as int) =~= received@);
    position
}

/// The slots that are empty.
pub(crate) fn empty_slots(data: &Vec<Option<Vec<u8>>>, Ghost(received): Ghost<
    Seq<(usize, Seq<u8>)>,
>) -> (empty: Vec<usize>)
    requires
        holds(data@, received),
    ensures
        lists(empty@, lost(received, data@.len() as int)),
{
    let mut empty: Vec<usize> = Vec::new();
    for i in 0..data.len()
        invariant
            holds(data@, received),
            lists(empty@, lost(received, i as int)),
    {
        let gone: bool = data[i].is_none();
        assert(gone == (slot(received, i as int) is None)) by {
            assert(data@[i as int] is None == gone);
        }
        if gone {
            empty.push(i);
        }
    }
    empty
}

/// The slots of the parity packets after the first that came.
pub(crate) fn spare_slots(received: &[(usize, Vec<u8>)], data_count: usize, parity_count: usize) -> (list:
    Vec<usize>)
    requires
        data_count + parity_count <= usize::MAX,
    ensures
        lists(
            list@,
            spares(received_contents(received@), data_count as nat, parity_count as nat),
        ),
{
    let mut list: Vec<usize> = Vec::new();
    for k in 0..received.len()
        invariant
            data_count + parity_count <= usize::MAX,
            lists(
                list@,
                spares(
                    received_contents(received@.take(k as int)),
                    data_count as nat,
                    parity_count as nat,
                ),
            ),
    {
        proof {
            lemma_received_push(received@, k as int);
        }
        let ghost rest = spares(
            received_contents(received@.take(k as int)),
            data_count as nat,
            parity_count as nat,
        );
        let index: usize = received[k].0;
        if index > data_count && index < data_count + parity_count {
            let mut present: bool = false;
            for i in 0..list.len()
                invariant
                    lists(list@, rest),
                    present == exists|j: int| 0 <= j < i && #[trigger] list@[j] == index,
            {
                if list[i] == index {
                    present = true;
                }
            }
            assert(present == rest.contains(index as int)) by {
                if present {
                    let j = choose|j: int| 0 <= j < list@.len() && #[trigger] list@[j] == index;
                    assert(rest[j] == index);
                }
                if rest.contains(index as int) {
                    let j = choose|j: int| 0 <= j < rest.len() && rest[j] == index;
                    assert(list@[j] == index);
                }
            }
            if !present {
                list.push(index);
            }
        }
    }
    assert(received@.take(received@.len() as int) =~= received@);
    list
}

/// The bytes in a symbol for groups of a make-up.
pub(crate) fn symbol_width(data_count: usize, parity_count: usize) -> (width: usize)
    requires
        data_count + parity_count <= usize::MAX,
    ensures
        width == width_for((data_count + parity_count) as nat),
        column_widths(width as nat),
{
    let total: u64 = (data_count + parity_count) as u64;
    if total <= 0x101 {
        1
    } else if total <= 0x1_0001 {
        2
    } else if total <= 0x1_0000_0001 {
        4
    } else {
        8
    }
}

/// The weight of a data symbol in the symbol of a parity packet.
pub(crate) fn weight_of(width: usize, data_count: usize, parity: usize, index: usize) -> (result: u64)
    requires
        proper_width(width as nat),
        data_count + parity <= usize::MAX,
    ensures
        result == weight(width as nat, data_count as nat, parity as int, index as int),
{
    if parity == 0 {
        1
    } else {
        let own: u64 = (data_count + (parity - 1)) as u64;
        invert(width, own ^ (index as u64))
    }
}

/// What a parity packet leaves for the lost packets, column by column.
fn residue_row(
    data: &Vec<Option<Vec<u8>>>,
    packet: &Vec<u8>,
    parity: usize,
    length: usize,
    width: usize,
    Ghost(received): Ghost<Seq<(usize, Seq<u8>)>>,
    Ghost(source): Ghost<int>,
) -> (row: Vec<u64>)
    requires
        column_widths(width as nat),
        holds(data@, received),
        data@.len() + parity <= usize::MAX,
        slot(received, source) == Some(packet@),
    ensures
        row@ == Seq::new(
            columns(length as nat, width as nat),
            |c: int|
                residue(
                    column_width(length as nat, width as nat, c),
                    received,
                    data@.len(),
                    source,
                    parity as int,
                    c * width,
                ),
        ),
{
    let ghost n = data@.len();
    let ghost (l, w) = (length as nat, width as nat);
    let count: usize = column_count(length, width);
    let mut row: Vec<u64> = vec![0u64; count];
    add_scaled(&mut row, 1, 1, packet, length, width);
    let ghost own = |c: int| symbol_at(packet@, c * width, column_width(l, w, c));
    proof {
        assert forall|c: int| 0 <= c < count implies row@[c] == own(c) ^ known_sum(
            column_width(l, w, c),
            received,
            n,
            parity as int,
            c * width,
            0,
        ) by {
            lemma_column(l, w, c);
            lemma_symbol_element(packet@, c * width, column_width(l, w, c));
            lemma_one(column_width(l, w, c), own(c));
            lemma_sum(own(c), 0, 0);
        }
    }
    for i in 0..data.len()
        invariant
            column_widths(w),
            w == width,
            l == length,
            n == data@.len(),
            holds(data@, received),
            n + parity <= usize::MAX,
            count == columns(l, w),
            row@.len() == count,
            forall|c: int|
                0 <= c < count ==> #[trigger] row@[c] == own(c) ^ known_sum(
                    column_width(l, w, c),
                    received,
                    n,
                    parity as int,
                    c * width,
                    i as int,
                ),
    {
        let ghost before = row@;
        match &data[i] {
            Some(known) => {
                let factor: u64 = weight_of(width, data.len(), parity, i);
                let wide_factor: u64 = if width == 2 && length % 2 == 1 {
                    weight_of(3, data.len(), parity, i)
                } else {
                    0
                };
                add_scaled(&mut row, factor, wide_factor, known, length, width);
                assert forall|c: int| 0 <= c < count implies #[trigger] row@[c] == own(c)
                    ^ known_sum(
                    column_width(l, w, c),
                    received,
                    n,
                    parity as int,
                    c * width,
                    i + 1,
                ) by {
                    assert(data@[i as int] is Some);
                    let wide = column_width(l, w, c);
                    assert(before[c] == own(c) ^ known_sum(
                        wide,
                        received,
                        n,
                        parity as int,
                        c * width,
                        i as int,
                    ));
                    assert(factor_at(l, w, c, factor, wide_factor) == weight(
                        wide,
                        n,
                        parity as int,
                        i as int,
                    ));
                    lemma_sum(
                        own(c),
                        known_sum(wide, received, n, parity as int, c * width, i as int),
                        product(
                            wide,
                            factor_at(l, w, c, factor, wide_factor),
                            symbol_at(known@, c * width, wide),
                        ),
                    );
                }
            },
            None => {
                assert(data@[i as int] is None);
            },
        }
    }
    assert(row@ =~= Seq::new(
        columns(l, w),
        |c: int|
            residue(column_width(l, w, c), received, n, source, parity as int, c * width),
    ));
    row
}

/// The group that what is found for the lost packets makes with what came.
spec fn assembled(
    received: Seq<(usize, Seq<u8>)>,
    data_count: nat,
    length: nat,
    width: nat,
    found: Seq<Seq<u64>>,
) -> Seq<Seq<u8>> {
    Seq::new(
        data_count,
        |i: int|
            match slot(received, i) {
                Some(packet) => Seq::new(covered(length, width), |q: int| padded_byte(packet, q)),
                None => spread(
                    found_row(found, lost(received, data_count as int).index_of(i)),
                    length,
                    width,
                ),
            },
    )
}

/// The symbols found for one lost packet.
spec fn found_row(found: Seq<Seq<u64>>, index: int) -> Seq<u64> {
    Seq::new(found.len(), |c: int| found[c][index])
}

/// Whether symbols are found for the lost packets in a column.
spec fn found_at(
    received: Seq<(usize, Seq<u8>)>,
    data_count: nat,
    parity_count: nat,
    symbols: Seq<u64>,
    start: int,
    width: nat,
) -> bool {
    fits(
        width,
        lost_points(received, data_count as int),
        used_points(received, data_count, parity_count),
        plain_residue(received, data_count, parity_count, start, width),
        symbols,
        residues(received, data_count, parity_count, start, width),
    )
}

/// What is found column by column makes the group that explains what came.
proof fn lemma_assembled(
    received: Seq<(usize, Seq<u8>)>,
    data_count: nat,
    parity_count: nat,
    found: Seq<Seq<u64>>,
)
    requires
        data_count + parity_count <= usize::MAX,
        repairable(received, data_count, parity_count),
        ({
            let width = width_for(data_count + parity_count);
            let length = group_length(received, data_count, parity_count);
            &&& found.len() == columns(length, width)
            &&& forall|c: int|
                0 <= c < found.len() ==> found_at(
                    received,
                    data_count,
                    parity_count,
                    #[trigger] found[c],
                    c * width,
                    column_width(length, width, c),
                )
        }),
    ensures
        explains(
            assembled(
                received,
                data_count,
                group_length(received, data_count, parity_count),
                width_for(data_count + parity_count),
                found,
            ),
            received,
            data_count,
            parity_count,
        ),
{
    let width = width_for(data_count + parity_count);
    let length = group_length(received, data_count, parity_count);
    let n = data_count as int;
    let count = found.len();
    let group = assembled(received, data_count, length, width, found);
    let gone = lost(received, n);
    lemma_lost(received, n);
    assert forall|c: int| 0 <= c < count implies agrees(
        #[trigger] column(group, c * width, column_width(length, width, c)),
        received,
        data_count,
        parity_count,
        c * width,
        column_width(length, width, c),
    ) by {
        let start = c * width;
        let own = column_width(length, width, c);
        let symbols = column(group, start, own);
        lemma_column(length, width, c);
        assert(found_at(received, data_count, parity_count, found[c], start, own));
        assert(found[c].len() == gone.len());
        assert forall|i: int| 0 <= i < n implies element(own, #[trigger] symbols[i]) by {
            lemma_symbol_element(group[i], start, own);
        }
        assert forall|i: int|
            0 <= i < n && (#[trigger] slot(received, i)) is Some implies symbols[i] == symbol_at(
            slot(received, i)->0,
            start,
            own,
        ) by {
            lemma_same_symbol(group[i], slot(received, i)->0, start, own);
        }
        assert forall|k: int| 0 <= k < gone.len() implies #[trigger] lost_symbols(
            symbols,
            received,
            n,
        )[k] == found[c][k] by {
            let i = gone[k];
            assert(gone.contains(i));
            let at = gone.index_of(i);
            assert(gone[at] == i);
            if at < k {
                assert(gone[at] < gone[k]);
            } else if k < at {
                assert(gone[k] < gone[at]);
            }
            let row = found_row(found, k);
            assert(group[i] == spread(row, length, width));
            assert(element(own, found[c][k]));
            lemma_spread_symbol(row, length, width, c);
        }
        assert(lost_symbols(symbols, received, n) =~= found[c]);
        lemma_agrees(symbols, received, data_count, parity_count, start, own);
    }
    assert forall|i: int| 0 <= i < data_count implies (#[trigger] group[i]).len() == covered(
        length,
        width,
    ) by {}
}

/// The length that a parity packet after the first tells.
fn length_of(packet: &Vec<u8>, width: usize) -> (length: usize)
    ensures
        length == stated_length(packet@, width as nat),
{
    if width <= 2 {
        packet.len()
    } else if packet.len() == 0 || packet[packet.len() - 1] as usize >= packet.len() {
        0
    } else {
        packet.len() - 1 - packet[packet.len() - 1] as usize
    }
}

/// What is known of the slot of a parity packet in which all data packets weigh the
/// same.
proof fn lemma_plain_source(received: Seq<(usize, Seq<u8>)>, data_count: nat, parity_count: nat)
    ensures
        plain_source(received, data_count, parity_count) matches Some(source) ==> parity_count > 0
            && data_count <= source < data_count + parity_count && slot(received, source) is Some,
{
    lemma_spares(received, data_count, parity_count);
}

/// Where the packet for the slot of a parity packet in which all data packets weigh the
/// same stands in a reception.
pub(crate) fn plain_position(
    received: &[(usize, Vec<u8>)],
    data_count: usize,
    parity_count: usize,
    spare: &Vec<usize>,
) -> (found: (Option<usize>, bool))
    requires
        data_count + parity_count <= usize::MAX,
        lists(
            spare@,
            spares(received_contents(received@), data_count as nat, parity_count as nat),
        ),
    ensures
        ({
            let packets = received_contents(received@);
            let source = plain_source(packets, data_count as nat, parity_count as nat);
            &&& found.1 == single(packets, data_count as nat, parity_count as nat)
            &&& match found.0 {
                Some(k) => source is Some && k < received@.len() && slot(packets, source->0)
                    == Some(received@[k as int].1@),
                None => source is None,
            }
        }),
{
    let ghost packets = received_contents(received@);
    proof {
        lemma_spares(packets, data_count as nat, parity_count as nat);
    }
    let narrow: bool = symbol_width(data_count, parity_count) == 1;
    let first: Option<usize> = if parity_count > 0 {
        last_position(received, data_count)
    } else {
        None
    };
    match first {
        Some(k) => (Some(k), !narrow && received[k].1.len() <= 1),
        None => {
            if spare.len() == 0 {
                return (None, false);
            }
            assert(spares(packets, data_count as nat, parity_count as nat)[0] == spare@[0]);
            match last_position(received, spare[0]) {
                Some(k) => {
                    if !narrow && received[k].1.len() <= 1 {
                        (Some(k), true)
                    } else {
                        (None, false)
                    }
                },
                None => (None, false),
            }
        },
    }
}

/// Rebuilds the lost packets of a group from which enough packets came.
pub(crate) fn rebuild(
    received: &[(usize, Vec<u8>)],
    data: &Vec<Option<Vec<u8>>>,
    empty: &Vec<usize>,
    plain: Option<usize>,
    sources: &Vec<usize>,
    parity_count: usize,
) -> (rebuilt: Vec<Vec<u8>>)
    requires
        data@.len() + parity_count <= usize::MAX,
        repairable(received_contents(received@), data@.len(), parity_count as nat),
        holds(data@, received_contents(received@)),
        lists(empty@, lost(received_contents(received@), data@.len() as int)),
        lists(
            sources@,
            weighing(received_contents(received@), data@.len(), parity_count as nat),
        ),
        ({
            let packets = received_contents(received@);
            let source = plain_source(packets, data@.len(), parity_count as nat);
            match plain {
                Some(k) => source is Some && k < received@.len() && slot(packets, source->0)
                    == Some(received@[k as int].1@),
                None => source is None,
            }
        }),
    ensures
        rebuilt@.len() == empty@.len(),
        forall|k: int|
            0 <= k < rebuilt@.len() ==> (#[trigger] rebuilt@[k])@ == repaired(
                received_contents(received@),
                data@.len(),
                parity_count as nat,
            )[empty@[k] as int],
{
    let ghost packets = received_contents(received@);
    let ghost n = data@.len();
    let ghost p = parity_count as nat;
    let data_count: usize = data.len();
    let width: usize = symbol_width(data_count, parity_count);
    let ghost w = width as nat;
    let ghost gone = lost(packets, n as int);
    let ghost chosen = used(packets, n, p);
    let ghost source = plain_source(packets, n, p);
    let needed_count: usize = if plain.is_some() {
        empty.len() - 1
    } else {
        empty.len()
    };
    proof {
        lemma_lost(packets, n as int);
        lemma_points(w, packets, n, p);
        lemma_plain_source(packets, n, p);
    }
    // the length of the longest packet
    let mut length: usize = 0;
    if needed_count > 0 {
        assert(chosen[0] == sources@[0]);
        if let Some(k) = last_position(received, sources[0]) {
            length = length_of(&received[k].1, width);
        }
    } else if let Some(k) = plain {
        length = received[k].1.len();
    }
    assert(length == group_length(packets, n, p));
    let ghost l = length as nat;
    let count: usize = column_count(length, width);
    // the points, and what the parity packets leave
    let mut a: Vec<u64> = Vec::new();
    for k in 0..empty.len()
        invariant
            lists(empty@, gone),
            a@.len() == k,
            forall|i: int| 0 <= i < k ==> #[trigger] a@[i] == gone[i] as u64,
    {
        a.push(empty[k] as u64);
    }
    assert(a@ =~= lost_points(packets, n as int));
    let mut b: Vec<u64> = Vec::new();
    let mut rows: Vec<Vec<u64>> = Vec::new();
    for k in 0..needed_count
        invariant
            packets == received_contents(received@),
            n == data@.len(),
            data_count == n,
            p == parity_count,
            n + p <= usize::MAX,
            w == width,
            l == length,
            column_widths(w),
            holds(data@, packets),
            lists(sources@, weighing(packets, n, p)),
            chosen == used(packets, n, p),
            chosen.len() == needed_count,
            needed_count <= sources@.len(),
            needed_count == needed(packets, n, p),
            forall|i: int|
                0 <= i < chosen.len() ==> n < #[trigger] chosen[i] < n + p && slot(
                    packets,
                    chosen[i],
                ) is Some,
            b@.len() == k,
            rows@.len() == k,
            forall|i: int| 0 <= i < k ==> #[trigger] b@[i] == point(n, chosen[i] - n),
            forall|i: int|
                0 <= i < k ==> (#[trigger] rows@[i])@ == Seq::new(
                    columns(l, w),
                    |c: int|
                        residue(
                            column_width(l, w, c),
                            packets,
                            n,
                            chosen[i],
                            chosen[i] - n,
                            c * width,
                        ),
                ),
    {
        let own: usize = sources[k];
        assert(chosen[k as int] == own);
        let parity: usize = own - data_count;
        b.push((data_count + (parity - 1)) as u64);
        let mut row: Vec<u64> = Vec::new();
        match last_position(received, own) {
            Some(at) => {
                row = residue_row(
                    data,
                    &received[at].1,
                    parity,
                    length,
                    width,
                    Ghost(packets),
                    Ghost(own as int),
                );
            },
            None => {
                assert(slot(packets, chosen[k as int]) is None);
            },
        }
        rows.push(row);
    }
    assert(b@ =~= used_points(packets, n, p));
    let mut plain_row: Vec<u64> = Vec::new();
    if let Some(k) = plain {
        plain_row = residue_row(
            data,
            &received[k].1,
            0,
            length,
            width,
            Ghost(packets),
            Ghost(source->0),
        );
    }
    // the lost symbols, column by column
    let mut found: Vec<Vec<u64>> = Vec::new();
    for c in 0..count
        invariant
            n + p <= usize::MAX,
            repairable(packets, n, p),
            w == width,
            l == length,
            count == columns(l, w),
            column_widths(w),
            w == width_for(n + p),
            chosen == used(packets, n, p),
            chosen.len() == needed_count,
            a@ == lost_points(packets, n as int),
            b@ == used_points(packets, n, p),
            rows@.len() == needed_count,
            source == plain_source(packets, n, p),
            plain is Some == source is Some,
            plain is Some ==> plain_row@ == Seq::new(
                columns(l, w),
                |c: int| residue(column_width(l, w, c), packets, n, source->0, 0, c * width),
            ),
            forall|i: int|
                0 <= i < needed_count ==> (#[trigger] rows@[i])@ == Seq::new(
                    columns(l, w),
                    |c: int|
                        residue(
                            column_width(l, w, c),
                            packets,
                            n,
                            chosen[i],
                            chosen[i] - n,
                            c * width,
                        ),
                ),
            found@.len() == c,
            forall|i: int|
                0 <= i < c ==> found_at(
                    packets,
                    n,
                    p,
                    (#[trigger] found@[i])@,
                    i * w,
                    column_width(l, w, i),
                ),
    {
        let own: usize = width_of_column(length, width, c);
        let mut sums: Vec<u64> = Vec::new();
        for k in 0..needed_count
            invariant
                c < count,
                count == columns(l, w),
                own == column_width(l, w, c as int),
                rows@.len() == needed_count,
                forall|i: int|
                    0 <= i < needed_count ==> (#[trigger] rows@[i])@ == Seq::new(
                        columns(l, w),
                        |c: int|
                            residue(
                                column_width(l, w, c),
                                packets,
                                n,
                                chosen[i],
                                chosen[i] - n,
                                c * width,
                            ),
                    ),
                sums@.len() == k,
                forall|i: int|
                    0 <= i < k ==> #[trigger] sums@[i] == residue(
                        own as nat,
                        packets,
                        n,
                        chosen[i],
                        chosen[i] - n,
                        c * width,
                    ),
        {
            assert(rows@[k as int]@.len() == count);
            sums.push(rows[k][c]);
        }
        assert(sums@ =~= residues(packets, n, p, c * w, own as nat));
        let total: Option<u64> = if plain.is_some() {
            Some(plain_row[c])
        } else {
            None
        };
        proof {
            lemma_column(l, w, c as int);
            lemma_square(packets, n, p, c * w, own as nat);
        }
        found.push(unknown_symbols(own, &a, &b, total, &sums));
    }
    // the lost packets
    let ghost all = Seq::new(found@.len(), |c: int| found@[c]@);
    let ghost group = assembled(packets, n, l, w, all);
    proof {
        assert forall|c: int| 0 <= c < all.len() implies found_at(
            packets,
            n,
            p,
            #[trigger] all[c],
            c * width_for(n + p),
            column_width(l, width_for(n + p), c),
        ) by {
            assert(all[c] == found@[c]@);
        }
        lemma_assembled(packets, n, p, all);
        let explained = choose|g: Seq<Seq<u8>>| explains(g, packets, n, p);
        law_group_is_determined(group, explained, packets, n, p);
        lemma_covered(l, w);
    }
    let mut rebuilt: Vec<Vec<u8>> = Vec::new();
    for k in 0..empty.len()
        invariant
            column_widths(w),
            w == width,
            l == length,
            n == data@.len(),
            lists(empty@, gone),
            gone == lost(packets, n as int),
            found@.len() == count,
            count == columns(l, w),
            l <= covered(l, w),
            l == group_length(packets, n, p),
            all == Seq::new(found@.len(), |c: int| found@[c]@),
            forall|i: int|
                0 <= i < count ==> found_at(
                    packets,
                    n,
                    p,
                    (#[trigger] found@[i])@,
                    i * w,
                    column_width(l, w, i),
                ),
            group == assembled(packets, n, l, w, all),
            group == choose|g: Seq<Seq<u8>>| explains(g, packets, n, p),
            rebuilt@.len() == k,
            forall|i: int|
                0 <= i < k ==> (#[trigger] rebuilt@[i])@ == repaired(packets, n, p)[empty@[i] as int],
    {
        let mut row: Vec<u64> = Vec::new();
        for c in 0..count
            invariant
                k < empty@.len(),
                lists(empty@, gone),
                gone == lost(packets, n as int),
                found@.len() == count,
                all == Seq::new(found@.len(), |c: int| found@[c]@),
                forall|i: int|
                    0 <= i < count ==> found_at(
                        packets,
                        n,
                        p,
                        (#[trigger] found@[i])@,
                        i * w,
                        column_width(l, w, i),
                    ),
                row@.len() == c,
                forall|i: int| 0 <= i < c ==> #[trigger] row@[i] == all[i][k as int],
        {
            assert(found_at(
                packets,
                n,
                p,
                found@[c as int]@,
                c * w,
                column_width(l, w, c as int),
            ));
            assert(found@[c as int]@.len() == gone.len());
            row.push(found[c][k]);
        }
        assert(row@ =~= found_row(all, k as int));
        let mut bytes: Vec<u8> = spread_symbols(&row, length, width);
        proof {
            let i = gone[k as int];
            assert(empty@[k as int] == i);
            lemma_lost(packets, n as int);
            assert(gone.contains(i));
            let at = gone.index_of(i);
            assert(gone[at] == i);
            if at < k {
                assert(gone[at] < gone[k as int]);
            } else if k < at {
                assert(gone[k as int] < gone[at]);
            }
            assert(group[i] == bytes@);
        }
        bytes.truncate(length);
        assert(bytes@ == group[empty@[k as int] as int].take(length as int));
        rebuilt.push(bytes);
    }
    rebuilt
}

/// A slot holds what came for it last, and nothing where nothing came.
pub proof fn law_the_last_packet_of_a_slot_counts(received: Seq<(usize, Seq<u8>)>, k: int)
    requires
        0 <= k < received.len(),
        forall|j: int| k < j < received.len() ==> (#[trigger] received[j]).0 != received[k].0,
    ensures
        slot(received, received[k].0 as int) == Some(received[k].1),
        forall|index: int|
            (forall|j: int| 0 <= j < received.len() ==> (#[trigger] received[j]).0 != index)
                ==> #[trigger] slot(received, index) is None,
    decreases received.len(),
{
    let front = received.drop_last();
    if k < received.len() - 1 {
        assert(received.last().0 != received[k].0);
        law_the_last_packet_of_a_slot_counts(front, k);
    }
    assert forall|index: int|
        (forall|j: int| 0 <= j < received.len() ==> (#[trigger] received[j]).0 != index) implies (
    #[trigger] slot(received, index)) is None by {
        lemma_empty_slot(received, index);
    }
}

proof fn lemma_empty_slot(received: Seq<(usize, Seq<u8>)>, index: int)
    requires
        forall|j: int| 0 <= j < received.len() ==> (#[trigger] received[j]).0 != index,
    ensures
        slot(received, index) is None,
    decreases received.len(),
{
    if received.len() > 0 {
        let front = received.drop_last();
        assert(received[received.len() - 1].0 != index);
        assert forall|j: int| 0 <= j < front.len() implies (#[trigger] front[j]).0 != index by {
            assert(front[j] == received[j]);
        }
        lemma_empty_slot(front, index);
    }
}

/// What came is seen with its slots and bytes, in its order.
pub proof fn law_receptions_are_seen(received: Seq<(usize, Vec<u8>)>, k: int)
    requires
        0 <= k < received.len(),
    ensures
        received_contents(received).len() == received.len(),
        received_contents(received)[k].0 == received[k].0,
        received_contents(received)[k].1 == received[k].1@,
{
}

/// The slots for which nothing came are listed in rising order, and no others.
pub proof fn law_lost_slots_are_listed(received: Seq<(usize, Seq<u8>)>, count: int)
    ensures
        forall|i: int| #[trigger]
            lost(received, count).contains(i) <==> 0 <= i < count && slot(received, i) is None,
        forall|j: int, k: int|
            0 <= j < k < lost(received, count).len() ==> #[trigger] lost(received, count)[j]
                < #[trigger] lost(received, count)[k],
{
    lemma_lost(received, count);
}

/// Symbols have one byte for groups of up to 257 packets, two up to 65537, and four or
/// eight beyond.
pub proof fn law_symbols_suffice(packet_count: nat)
    ensures
        packet_count <= 257 <==> width_for(packet_count) == 1,
        257 < packet_count <= 65537 <==> width_for(packet_count) == 2,
        65537 < packet_count <= 0x1_0000_0001 <==> width_for(packet_count) == 4,
        packet_count > 0x1_0000_0001 <==> width_for(packet_count) == 8,
{
}

} // verus!
